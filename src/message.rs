use vstd::prelude::*;

verus! {

pub type ConnectionId = u16;

pub type SessionId = u32;

pub type CommandId = u16;

/// A transaction id: the 128 bits of a UUID.
pub type TransactionId = u128;

/// An object id: the 128 bits of a UUID.
pub type ObjectId = u128;

/// A file id: the 128 bits of a UUID.
pub type FileId = u128;

#[derive(Debug, Clone, Copy, PartialEq, Eq, Structural)]
pub struct Color {
    pub r: u8,
    pub g: u8,
    pub b: u8,
}

impl Default for Color {
    fn default() -> (c: Color)
        ensures
            c.r == 0 && c.g == 0 && c.b == 0,
    {
        Color { r: 0, g: 0, b: 0 }
    }
}

#[derive(Debug, Clone, Copy, PartialEq, Eq, Hash, Structural)]
pub enum PropKind {
    Parent,
    Name,
    PosX,
    PosY,
    Width,
    Height,
    RadiusH,
    RadiusV,
    Index,
    FillColor,
}

#[derive(Debug, Clone, Copy, PartialEq, Eq, Structural)]
pub enum ObjectKind {
    Document,
    Frame,
    Oval,
}

/// The value of a property. Positions, sizes and radii are whole canvas units.
#[derive(Debug, PartialEq, Eq)]
pub enum PropValue {
    String(String),
    Number(i32),
    Reference(ObjectId),
    Color(Color),
}

impl Clone for PropValue {
    fn clone(&self) -> (r: PropValue)
        ensures
            r == *self,
    {
        match self {
            PropValue::String(s) => PropValue::String(s.clone()),
            PropValue::Number(n) => PropValue::Number(*n),
            PropValue::Reference(id) => PropValue::Reference(*id),
            PropValue::Color(c) => PropValue::Color(*c),
        }
    }
}

impl PropValue {
    pub fn as_str(&self) -> (r: Option<&str>)
        ensures
            self is String ==> r is Some && r->0@ == self->String_0@,
            !(self is String) ==> r is None,
    {
        match self {
            PropValue::String(s) => Some(s.as_str()),
            _ => None,
        }
    }

    pub fn as_number(&self) -> (r: Option<i32>)
        ensures
            r == (match *self {
                PropValue::Number(n) => Some(n),
                _ => None,
            }),
    {
        match self {
            PropValue::Number(n) => Some(*n),
            _ => None,
        }
    }

    pub fn as_reference(&self) -> (r: Option<ObjectId>)
        ensures
            r == (match *self {
                PropValue::Reference(id) => Some(id),
                _ => None,
            }),
    {
        match self {
            PropValue::Reference(id) => Some(*id),
            _ => None,
        }
    }

    pub fn as_color(&self) -> (r: Option<Color>)
        ensures
            r == (match *self {
                PropValue::Color(c) => Some(c),
                _ => None,
            }),
    {
        match self {
            PropValue::Color(c) => Some(*c),
            _ => None,
        }
    }
}

/// Clones an optional property value exactly.
pub fn clone_opt_value(v: &Option<PropValue>) -> (r: Option<PropValue>)
    ensures
        r == *v,
{
    match v {
        Some(x) => Some(x.clone()),
        None => None,
    }
}

/// One step of a transaction.
#[derive(Debug, PartialEq, Eq)]
pub enum DocumentMutation {
    CreateObject(ObjectId, ObjectKind),
    DeleteObject(ObjectId),
    /// `None` removes the property.
    UpsertProp(ObjectId, PropKind, Option<PropValue>),
}

impl Clone for DocumentMutation {
    fn clone(&self) -> (r: DocumentMutation)
        ensures
            r == *self,
    {
        match self {
            DocumentMutation::CreateObject(id, k) => DocumentMutation::CreateObject(*id, *k),
            DocumentMutation::DeleteObject(id) => DocumentMutation::DeleteObject(*id),
            DocumentMutation::UpsertProp(id, k, v) => DocumentMutation::UpsertProp(
                *id,
                *k,
                clone_opt_value(v),
            ),
        }
    }
}

/// Clones a list of mutations exactly.
pub fn clone_items(items: &Vec<DocumentMutation>) -> (r: Vec<DocumentMutation>)
    ensures
        r@ == items@,
{
    let mut r: Vec<DocumentMutation> = Vec::new();
    let mut i: usize = 0;
    while i < items.len()
        invariant
            i <= items.len(),
            r@ == items@.subrange(0, i as int),
        decreases items.len() - i,
    {
        r.push(items[i].clone());
        i = i + 1;
    }
    assert(items@.subrange(0, items.len() as int) =~= items@);
    r
}

/// An atomic group of mutations with its id.
#[derive(Debug, PartialEq, Eq)]
pub struct Transaction {
    pub id: TransactionId,
    pub items: Vec<DocumentMutation>,
}

impl Clone for Transaction {
    fn clone(&self) -> (r: Transaction)
        ensures
            r.id == self.id,
            r.items@ == self.items@,
    {
        Transaction { id: self.id, items: clone_items(&self.items) }
    }
}

} // verus!

verus! {

/// A document store in its byte form, as files and `Init` events carry it.
#[derive(Debug)]
pub struct DocumentSnapshot {
    pub content: Vec<u8>,
}

impl Clone for DocumentSnapshot {
    fn clone(&self) -> (r: DocumentSnapshot)
        ensures
            r.content@ == self.content@,
    {
        DocumentSnapshot { content: self.content.clone() }
    }
}

/// FatalError makes the connection be closed.
#[derive(Debug)]
pub struct FatalError {
    pub reason: String,
}

#[derive(Debug)]
pub enum SessionError {
    FatalError(FatalError),
}

#[derive(Debug, Clone, Copy, PartialEq, Eq, Structural)]
pub enum RollbackReason {
    Something,
}

/// A pointer position, in whole canvas units.
#[derive(Debug, Clone, Copy, PartialEq, Eq, Structural)]
pub struct LivePointerCommand {
    pub x: i32,
    pub y: i32,
}

#[derive(Debug, Clone, Copy, PartialEq, Eq, Structural)]
pub struct LivePointerEvent {
    pub connection_id: ConnectionId,
    pub x: i32,
    pub y: i32,
}

#[derive(Debug)]
pub struct SessionSnapshot {
    pub connections: Vec<ConnectionId>,
}

impl Clone for SessionSnapshot {
    fn clone(&self) -> (r: SessionSnapshot)
        ensures
            r.connections@ == self.connections@,
    {
        SessionSnapshot { connections: self.connections.clone() }
    }
}

#[derive(Debug)]
pub enum SessionCommand {
    LivePointer(LivePointerCommand),
    Transaction(Transaction),
}

#[derive(Debug)]
pub struct IdentifiableCommand {
    pub command_id: CommandId,
    pub session_command: SessionCommand,
}

#[derive(Debug)]
pub enum SessionEvent {
    Init {
        session_id: SessionId,
        session_snapshot: SessionSnapshot,
        document_snapshot: DocumentSnapshot,
    },
    LivePointer(LivePointerEvent),
    SessionStateChanged(SessionSnapshot),
    TransactionAck(TransactionId),
    TransactionNack(TransactionId, RollbackReason),
    OthersTransaction(Transaction),
    TerminatedBySystem,
}

#[derive(Debug)]
pub enum CommandResult {
    SessionEvent(SessionEvent),
    Error(SessionError),
}

#[derive(Debug)]
pub enum IdentifiableEvent {
    ByMyself { command_id: CommandId, result: CommandResult },
    BySystem { session_event: SessionEvent },
}

} // verus!

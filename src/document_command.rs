use vstd::prelude::*;

use crate::fractional_index::{
    avg_defined, avg_in_range, index_lt, avg_with_one, avg_with_zero, base95_avg, base95_avg_with_one,
    base95_avg_with_zero, is_valid_index, mid, parse_index,
};
use crate::ids::new_uuid;
use crate::message::{
    Color, DocumentMutation, ObjectId, ObjectKind, PropKind, PropValue, Transaction, TransactionId,
};
use crate::model::{
    apply_items, last_life_event, last_prop_write, lemma_life_after, lemma_prop_after, read_kind,
    read_prop, DocModel,
};
use crate::transactional_document::TransactionalDocument;
use crate::tree::{
    children_listing, global_position, sort_index, lemma_global_deeper, lemma_global_frame, listing_of,
    on_chain, parent_of, MAX_DEPTH,
};

verus! {

/// A position in whole canvas units.
#[derive(Debug, Clone, Copy, PartialEq, Eq, Structural)]
pub struct Point {
    pub x: i32,
    pub y: i32,
}

/// A user's intent, before it becomes mutations.
#[derive(Debug)]
pub enum DocumentCommand {
    UpdateDocumentName { name: String },
    CreateOval { pos: Point, r_h: i32, r_v: i32, fill_color: Color },
    CreateFrame { pos: Point, w: i32, h: i32 },
    UpdatePosition { id: ObjectId, pos: Point },
    UpdateName { id: ObjectId, name: String },
    DeleteObject { id: ObjectId },
    UpdateIndex { id: ObjectId, int_index: usize },
    UpdateParent { id: ObjectId, parent_id: ObjectId },
    Undo,
    Redo,
}

/// Why a command could not be turned into a transaction.
#[derive(Debug, Clone, Copy, PartialEq, Eq, Structural)]
pub enum CommandError {
    /// Undo and redo are not edits of their own.
    NotAnEdit,
    /// The object to reorder has no parent.
    NoParent,
    /// The requested position is past the end of the siblings, or there are none.
    IndexOutOfRange,
    /// The fractional index between the two neighbours cannot be computed.
    IndexNotComputable,
    /// A chain of parents is longer than `MAX_DEPTH`, as on a cycle.
    ParentChainTooLong,
    /// The new position does not fit in a coordinate.
    PositionOutOfRange,
}

pub open spec fn upsert(id: ObjectId, k: PropKind, v: PropValue) -> DocumentMutation {
    DocumentMutation::UpsertProp(id, k, Some(v))
}

/// `m` sets the string property `(id, k)` to `s`.
pub open spec fn sets_string(m: DocumentMutation, id: ObjectId, k: PropKind, s: Seq<char>) -> bool {
    match m {
        DocumentMutation::UpsertProp(i, kk, Some(PropValue::String(v))) => i == id && kk == k && v@
            == s,
        _ => false,
    }
}

pub open spec fn has_valid_index(m: DocModel, id: ObjectId) -> bool {
    match read_prop(m, id, PropKind::Index) {
        Some(PropValue::String(s)) => is_valid_index(s@),
        _ => false,
    }
}

/// The index a new last child gets, given the listing of the current children: just
/// after the last child's index, or the middle index when there is no child or the last
/// child's index is not valid.
pub open spec fn index_after_listing(m: DocModel, s: Seq<(ObjectId, Seq<char>)>) -> Seq<char> {
    if s.len() == 0 {
        seq!['O']
    } else if has_valid_index(m, s.last().0) {
        base95_avg_with_one(s.last().1)
    } else {
        seq!['O']
    }
}

/// `k` is the index a new last child of `parent` gets; when the current last child's index
/// is valid, `k` sorts after every child's index.
pub open spec fn is_next_last_index(m: DocModel, parent: ObjectId, k: Seq<char>) -> bool {
    exists|s: Seq<(ObjectId, Seq<char>)>|
        #[trigger] children_listing(m, parent, s) && k == index_after_listing(m, s) && (s.len() > 0
            && has_valid_index(m, s.last().0) ==> forall|id: ObjectId|
            crate::tree::is_child(m, id, parent) ==> index_lt(sort_index(m, id), k))
}

/// The index that moves an object to position `i` of the listing `s`.
pub open spec fn index_at(s: Seq<(ObjectId, Seq<char>)>, i: int) -> Seq<char> {
    if i == 0 {
        base95_avg_with_zero(s[0].1)
    } else if i == s.len() {
        base95_avg_with_one(s[i - 1].1)
    } else {
        base95_avg(s[i - 1].1, s[i].1)
    }
}

pub open spec fn kind_at(i: int) -> PropKind {
    seq![
        PropKind::Parent,
        PropKind::Name,
        PropKind::PosX,
        PropKind::PosY,
        PropKind::Width,
        PropKind::Height,
        PropKind::RadiusH,
        PropKind::RadiusV,
        PropKind::Index,
        PropKind::FillColor,
    ][i]
}

/// Removals of every property among the first `n` kinds that the object has.
pub open spec fn removals(m: DocModel, id: ObjectId, n: int) -> Seq<DocumentMutation>
    decreases n,
{
    if n <= 0 {
        Seq::empty()
    } else if read_prop(m, id, kind_at(n - 1)) is Some {
        removals(m, id, n - 1).push(DocumentMutation::UpsertProp(id, kind_at(n - 1), None))
    } else {
        removals(m, id, n - 1)
    }
}

pub open spec fn fits_i32(v: int) -> bool {
    i32::MIN <= v <= i32::MAX
}

/// What converting `command` against the state `m` yields, for a new object id `new_id`.
pub open spec fn command_outcome(
    m: DocModel,
    doc_id: ObjectId,
    command: DocumentCommand,
    new_id: ObjectId,
    r: Result<Transaction, CommandError>,
) -> bool {
    match command {
        DocumentCommand::UpdateDocumentName { name } => r matches Ok(t) && t.items@ == seq![
            upsert(doc_id, PropKind::Name, PropValue::String(name)),
        ],
        DocumentCommand::CreateOval { pos, r_h, r_v, fill_color } => r matches Ok(t) && {
            let it = t.items@;
            &&& it.len() == 8
            &&& it[0] == DocumentMutation::CreateObject(new_id, ObjectKind::Oval)
            &&& it[1] == upsert(new_id, PropKind::Parent, PropValue::Reference(doc_id))
            &&& it[2] is UpsertProp && sets_string(it[2], new_id, PropKind::Index, it[2]->UpsertProp_2->0->String_0@)
            &&& is_next_last_index(m, doc_id, it[2]->UpsertProp_2->0->String_0@)
            &&& it[3] == upsert(new_id, PropKind::PosX, PropValue::Number(pos.x))
            &&& it[4] == upsert(new_id, PropKind::PosY, PropValue::Number(pos.y))
            &&& it[5] == upsert(new_id, PropKind::RadiusH, PropValue::Number(r_h))
            &&& it[6] == upsert(new_id, PropKind::RadiusV, PropValue::Number(r_v))
            &&& it[7] == upsert(new_id, PropKind::FillColor, PropValue::Color(fill_color))
        },
        DocumentCommand::CreateFrame { pos, w, h } => r matches Ok(t) && {
            let it = t.items@;
            &&& it.len() == 7
            &&& it[0] == DocumentMutation::CreateObject(new_id, ObjectKind::Frame)
            &&& it[1] == upsert(new_id, PropKind::Parent, PropValue::Reference(doc_id))
            &&& it[2] is UpsertProp && sets_string(it[2], new_id, PropKind::Index, it[2]->UpsertProp_2->0->String_0@)
            &&& is_next_last_index(m, doc_id, it[2]->UpsertProp_2->0->String_0@)
            &&& it[3] == upsert(new_id, PropKind::PosX, PropValue::Number(pos.x))
            &&& it[4] == upsert(new_id, PropKind::PosY, PropValue::Number(pos.y))
            &&& it[5] == upsert(new_id, PropKind::Width, PropValue::Number(w))
            &&& it[6] == upsert(new_id, PropKind::Height, PropValue::Number(h))
        },
        DocumentCommand::UpdatePosition { id, pos } => r matches Ok(t) && t.items@ == seq![
            upsert(id, PropKind::PosX, PropValue::Number(pos.x)),
            upsert(id, PropKind::PosY, PropValue::Number(pos.y)),
        ],
        DocumentCommand::UpdateName { id, name } => r matches Ok(t) && t.items@ == seq![
            upsert(id, PropKind::Name, PropValue::String(name)),
        ],
        DocumentCommand::DeleteObject { id } => r matches Ok(t) && t.items@ == removals(
            m,
            id,
            10,
        ).push(DocumentMutation::DeleteObject(id)),
        DocumentCommand::UpdateIndex { id, int_index } => match parent_of(m, id) {
            None => r == Err::<Transaction, CommandError>(CommandError::NoParent),
            Some(p) => exists|s: Seq<(ObjectId, Seq<char>)>|
                #[trigger] children_listing(m, p, s) && if int_index > s.len() || s.len() == 0 {
                    r == Err::<Transaction, CommandError>(CommandError::IndexOutOfRange)
                } else if 0 < int_index < s.len() && !avg_in_range(
                    s[int_index - 1].1,
                    s[int_index as int].1,
                ) {
                    r == Err::<Transaction, CommandError>(CommandError::IndexNotComputable)
                } else {
                    r matches Ok(t) && t.items@.len() == 1 && sets_string(
                        t.items@[0],
                        id,
                        PropKind::Index,
                        index_at(s, int_index as int),
                    )
                },
        },
        DocumentCommand::UpdateParent { id, parent_id } => match (
            global_position(m, id, MAX_DEPTH as nat),
            global_position(m, parent_id, MAX_DEPTH as nat),
        ) {
            (Some((gx, gy)), Some((px, py))) => if fits_i32(gx - px) && fits_i32(gy - py) {
                r matches Ok(t) && {
                    let it = t.items@;
                    &&& it.len() == 4
                    &&& it[0] == upsert(id, PropKind::Parent, PropValue::Reference(parent_id))
                    &&& it[1] is UpsertProp && sets_string(it[1], id, PropKind::Index, it[1]->UpsertProp_2->0->String_0@)
                    &&& is_next_last_index(m, parent_id, it[1]->UpsertProp_2->0->String_0@)
                    &&& it[2] == upsert(id, PropKind::PosX, PropValue::Number((gx - px) as i32))
                    &&& it[3] == upsert(id, PropKind::PosY, PropValue::Number((gy - py) as i32))
                }
            } else {
                r == Err::<Transaction, CommandError>(CommandError::PositionOutOfRange)
            },
            _ => r == Err::<Transaction, CommandError>(CommandError::ParentChainTooLong),
        },
        DocumentCommand::Undo => r == Err::<Transaction, CommandError>(CommandError::NotAnEdit),
        DocumentCommand::Redo => r == Err::<Transaction, CommandError>(CommandError::NotAnEdit),
    }
}

/// Converting a reparent and applying it keeps the object's global position, when the new
/// parent is neither the object nor one of its descendants and the new parent's chain of
/// ancestors is shorter than `MAX_DEPTH`.
pub proof fn lemma_reparent_keeps_position(
    m: DocModel,
    doc_id: ObjectId,
    id: ObjectId,
    parent_id: ObjectId,
    new_id: ObjectId,
    r: Result<Transaction, CommandError>,
)
    requires
        command_outcome(m, doc_id, DocumentCommand::UpdateParent { id, parent_id }, new_id, r),
        r is Ok,
        !on_chain(m, parent_id, id, MAX_DEPTH as nat),
        global_position(m, parent_id, (MAX_DEPTH - 1) as nat) is Some,
    ensures
        global_position(apply_items(m, r->Ok_0.items@), id, MAX_DEPTH as nat) == global_position(
            m,
            id,
            MAX_DEPTH as nat,
        ),
{
    reveal_with_fuel(last_prop_write, 5);
    reveal_with_fuel(last_life_event, 5);
    let it = r->Ok_0.items@;
    let m2 = apply_items(m, it);
    assert forall|y: ObjectId, k: PropKind| y != id implies #[trigger] read_prop(m2, y, k) == read_prop(m, y, k) by {
        lemma_prop_after(m, it, 4, y, k);
        lemma_life_after(m, it, 4, y);
    }
    lemma_life_after(m, it, 4, id);
    lemma_prop_after(m, it, 4, id, PropKind::Parent);
    lemma_prop_after(m, it, 4, id, PropKind::PosX);
    lemma_prop_after(m, it, 4, id, PropKind::PosY);
    if on_chain(m, parent_id, id, (MAX_DEPTH - 1) as nat) {
        crate::tree::lemma_on_chain_deeper(m, parent_id, id, (MAX_DEPTH - 1) as nat, MAX_DEPTH as nat);
    }
    lemma_global_frame(m, m2, id, parent_id, (MAX_DEPTH - 1) as nat);
    lemma_global_deeper(m, parent_id, (MAX_DEPTH - 1) as nat, MAX_DEPTH as nat);
    assert(read_kind(m2, id) == read_kind(m, id));
}

fn kind_of_position(i: usize) -> (r: PropKind)
    requires
        i < 10,
    ensures
        r == kind_at(i as int),
{
    match i {
        0 => PropKind::Parent,
        1 => PropKind::Name,
        2 => PropKind::PosX,
        3 => PropKind::PosY,
        4 => PropKind::Width,
        5 => PropKind::Height,
        6 => PropKind::RadiusH,
        7 => PropKind::RadiusV,
        8 => PropKind::Index,
        _ => PropKind::FillColor,
    }
}

/// The index for a new last child of `parent`.
pub fn create_last_index_of_parent(doc: &TransactionalDocument, parent: ObjectId) -> (r: String)
    requires
        doc.wf(),
    ensures
        is_next_last_index(doc.model(), parent, r@),
{
    let children = doc.get_children_indices(parent);
    let ghost s = listing_of(children@);
    let n = children.len();
    if n == 0 {
        let r = mid();
        assert(r@ == index_after_listing(doc.model(), s));
        return r;
    }
    let last_id = children[n - 1].0;
    let r = match doc.get_string_prop(last_id, PropKind::Index) {
        Some(k) => if parse_index(k.as_str()) {
            avg_with_one(k.as_str())
        } else {
            mid()
        },
        None => mid(),
    };
    assert(s.last().0 == last_id);
    assert(r@ == index_after_listing(doc.model(), s));
    proof {
        if has_valid_index(doc.model(), last_id) {
            let m = doc.model();
            let kl = s[n - 1].1;
            assert(crate::tree::is_child(m, s[n - 1].0, parent));
            assert(kl == sort_index(m, last_id));
            assert forall|id: ObjectId| crate::tree::is_child(m, id, parent) implies index_lt(sort_index(m, id), r@) by {
                let i = choose|i: int| 0 <= i < s.len() && #[trigger] s[i].0 == id;
                assert(crate::tree::is_child(m, s[i].0, parent));
                if i < n - 1 {
                    crate::tree::lemma_sibling_pairs(m, parent, s, i, n - 1);
                    crate::fractional_index::lemma_index_total(s[i].1, kl);
                    if index_lt(s[i].1, kl) {
                        crate::fractional_index::lemma_index_transitive(s[i].1, kl, r@);
                    }
                }
            }
        }
    }
    r
}

fn string_upsert(id: ObjectId, k: PropKind, s: String) -> (r: DocumentMutation)
    ensures
        r == DocumentMutation::UpsertProp(id, k, Some(PropValue::String(s))),
        sets_string(r, id, k, s@),
{
    DocumentMutation::UpsertProp(id, k, Some(PropValue::String(s)))
}

fn number_upsert(id: ObjectId, k: PropKind, n: i32) -> (r: DocumentMutation)
    ensures
        r == upsert(id, k, PropValue::Number(n)),
{
    DocumentMutation::UpsertProp(id, k, Some(PropValue::Number(n)))
}

/// Turns a command into a transaction with the given ids, reading the current state of
/// `doc`. `new_id` names the object that a create command makes.
pub fn convert_command(
    doc: &TransactionalDocument,
    command: DocumentCommand,
    tx_id: TransactionId,
    new_id: ObjectId,
) -> (r: Result<Transaction, CommandError>)
    requires
        doc.wf(),
    ensures
        command_outcome(doc.model(), doc.spec_document_id(), command, new_id, r),
        r matches Ok(t) ==> t.id == tx_id,
{
    let doc_id = doc.document_id();
    match command {
        DocumentCommand::UpdateDocumentName { name } => {
            let mut items: Vec<DocumentMutation> = Vec::new();
            items.push(DocumentMutation::UpsertProp(doc_id, PropKind::Name, Some(PropValue::String(name))));
            Ok(Transaction { id: tx_id, items })
        },
        DocumentCommand::CreateOval { pos, r_h, r_v, fill_color } => {
            let index = create_last_index_of_parent(doc, doc_id);
            let ghost k = index@;
            let mut items: Vec<DocumentMutation> = Vec::new();
            items.push(DocumentMutation::CreateObject(new_id, ObjectKind::Oval));
            items.push(DocumentMutation::UpsertProp(new_id, PropKind::Parent, Some(PropValue::Reference(doc_id))));
            items.push(string_upsert(new_id, PropKind::Index, index));
            items.push(number_upsert(new_id, PropKind::PosX, pos.x));
            items.push(number_upsert(new_id, PropKind::PosY, pos.y));
            items.push(number_upsert(new_id, PropKind::RadiusH, r_h));
            items.push(number_upsert(new_id, PropKind::RadiusV, r_v));
            items.push(DocumentMutation::UpsertProp(new_id, PropKind::FillColor, Some(PropValue::Color(fill_color))));
            assert(items@[2]->UpsertProp_2->0->String_0@ == k);
            Ok(Transaction { id: tx_id, items })
        },
        DocumentCommand::CreateFrame { pos, w, h } => {
            let index = create_last_index_of_parent(doc, doc_id);
            let ghost k = index@;
            let mut items: Vec<DocumentMutation> = Vec::new();
            items.push(DocumentMutation::CreateObject(new_id, ObjectKind::Frame));
            items.push(DocumentMutation::UpsertProp(new_id, PropKind::Parent, Some(PropValue::Reference(doc_id))));
            items.push(string_upsert(new_id, PropKind::Index, index));
            items.push(number_upsert(new_id, PropKind::PosX, pos.x));
            items.push(number_upsert(new_id, PropKind::PosY, pos.y));
            items.push(number_upsert(new_id, PropKind::Width, w));
            items.push(number_upsert(new_id, PropKind::Height, h));
            assert(items@[2]->UpsertProp_2->0->String_0@ == k);
            Ok(Transaction { id: tx_id, items })
        },
        DocumentCommand::UpdatePosition { id, pos } => {
            let mut items: Vec<DocumentMutation> = Vec::new();
            items.push(number_upsert(id, PropKind::PosX, pos.x));
            items.push(number_upsert(id, PropKind::PosY, pos.y));
            assert(items@ =~= seq![
                upsert(id, PropKind::PosX, PropValue::Number(pos.x)),
                upsert(id, PropKind::PosY, PropValue::Number(pos.y)),
            ]);
            Ok(Transaction { id: tx_id, items })
        },
        DocumentCommand::UpdateName { id, name } => {
            let mut items: Vec<DocumentMutation> = Vec::new();
            items.push(DocumentMutation::UpsertProp(id, PropKind::Name, Some(PropValue::String(name))));
            Ok(Transaction { id: tx_id, items })
        },
        DocumentCommand::DeleteObject { id } => {
            let mut items: Vec<DocumentMutation> = Vec::new();
            let mut i: usize = 0;
            while i < 10
                invariant
                    doc.wf(),
                    i <= 10,
                    items@ == removals(doc.model(), id, i as int),
                decreases 10 - i,
            {
                let k = kind_of_position(i);
                if doc.get_prop(id, k).is_some() {
                    items.push(DocumentMutation::UpsertProp(id, k, None));
                }
                i = i + 1;
            }
            items.push(DocumentMutation::DeleteObject(id));
            Ok(Transaction { id: tx_id, items })
        },
        DocumentCommand::UpdateIndex { id, int_index } => {
            let parent = match doc.get_id_prop(id, PropKind::Parent) {
                Some(p) => p,
                None => {
                    return Err(CommandError::NoParent);
                },
            };
            let siblings = doc.get_children_indices(parent);
            let ghost s = listing_of(siblings@);
            assert(children_listing(doc.model(), parent, s));
            let n = siblings.len();
            if int_index > n || n == 0 {
                return Err(CommandError::IndexOutOfRange);
            }
            proof {
                assert(crate::tree::is_child(doc.model(), siblings@[0].0, parent));
                assert(crate::tree::is_child(doc.model(), siblings@[n - 1].0, parent));
            }
            let index = if int_index == 0 {
                avg_with_zero(siblings[0].1.as_str())
            } else if int_index == n {
                avg_with_one(siblings[n - 1].1.as_str())
            } else {
                if !avg_defined(siblings[int_index - 1].1.as_str(), siblings[int_index].1.as_str()) {
                    return Err(CommandError::IndexNotComputable);
                }
                crate::fractional_index::avg(
                    siblings[int_index - 1].1.as_str(),
                    siblings[int_index].1.as_str(),
                )
            };
            let mut items: Vec<DocumentMutation> = Vec::new();
            items.push(string_upsert(id, PropKind::Index, index));
            Ok(Transaction { id: tx_id, items })
        },
        DocumentCommand::UpdateParent { id, parent_id } => {
            let index = create_last_index_of_parent(doc, parent_id);
            let ghost k = index@;
            let current = doc.get_global_transform(id);
            let target = doc.get_global_transform(parent_id);
            let (gx, gy, px, py) = match (current, target) {
                (Some((gx, gy)), Some((px, py))) => (gx, gy, px, py),
                _ => {
                    return Err(CommandError::ParentChainTooLong);
                },
            };
            proof {
                crate::tree::lemma_global_position_bounds(doc.model(), id, MAX_DEPTH as nat);
                crate::tree::lemma_global_position_bounds(doc.model(), parent_id, MAX_DEPTH as nat);
            }
            let dx = gx - px;
            let dy = gy - py;
            if dx < i32::MIN as i64 || dx > i32::MAX as i64 || dy < i32::MIN as i64 || dy > i32::MAX as i64 {
                return Err(CommandError::PositionOutOfRange);
            }
            let mut items: Vec<DocumentMutation> = Vec::new();
            items.push(DocumentMutation::UpsertProp(id, PropKind::Parent, Some(PropValue::Reference(parent_id))));
            items.push(string_upsert(id, PropKind::Index, index));
            items.push(number_upsert(id, PropKind::PosX, dx as i32));
            items.push(number_upsert(id, PropKind::PosY, dy as i32));
            assert(items@[1]->UpsertProp_2->0->String_0@ == k);
            Ok(Transaction { id: tx_id, items })
        },
        DocumentCommand::Undo => Err(CommandError::NotAnEdit),
        DocumentCommand::Redo => Err(CommandError::NotAnEdit),
    }
}

/// Turns a command into a transaction under a fresh transaction id, naming a created
/// object with a fresh object id.
pub fn convert_command_to_tx(doc: &TransactionalDocument, command: DocumentCommand) -> (r: Result<
    Transaction,
    CommandError,
>)
    requires
        doc.wf(),
    ensures
        exists|new_id: ObjectId|
            command_outcome(doc.model(), doc.spec_document_id(), command, new_id, r),
{
    let tx_id = new_uuid();
    let new_id = new_uuid();
    convert_command(doc, command, tx_id, new_id)
}

} // verus!

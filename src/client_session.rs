use vstd::prelude::*;

use crate::client_follower_document::{
    add_unique, command_handled, invalidated, redo_effect, same_tx, undo_effect, without_id, ClientFollowerDocument,
    FollowerError, TransactionResult,
};
use crate::document_command::DocumentCommand;
use crate::document_storage::DocumentStorage;
use crate::message::{
    CommandId, CommandResult, IdentifiableCommand, IdentifiableEvent, LivePointerEvent, ObjectId,
    SessionCommand, SessionEvent, SessionSnapshot, Transaction,
};
use crate::model::apply_items;
use crate::server_state::next_u16;
use crate::transaction_manager::has_id;

verus! {

/// Why the client kernel could not handle a request.
#[derive(Debug, Clone, Copy, PartialEq, Eq, Structural)]
pub enum ClientSessionError {
    /// The document refused the request.
    Follower(FollowerError),
    /// The server reported an error for one of our commands.
    ServerError,
    /// An event that a joined session does not expect.
    Unexpected,
}

/// The client kernel: a follower document, and the queues that its host drains.
pub struct ClientSession {
    command_id_source: CommandId,
    pending_commands: Vec<IdentifiableCommand>,
    session_snapshot: SessionSnapshot,
    document: ClientFollowerDocument,
    invalidated_object_ids: Vec<ObjectId>,
    pending_live_pointer_events: Vec<LivePointerEvent>,
    terminated: bool,
}

/// Adds every id of `ids` to `v`, keeping each once.
fn add_all(v: &mut Vec<ObjectId>, ids: &Vec<ObjectId>)
    requires
        old(v)@.no_duplicates(),
    ensures
        final(v)@.no_duplicates(),
        forall|x: ObjectId| #[trigger] final(v)@.contains(x) <==> (old(v)@.contains(x) || ids@.contains(x)),
{
    let mut i: usize = 0;
    while i < ids.len()
        invariant
            i <= ids@.len(),
            v@.no_duplicates(),
            forall|x: ObjectId| #[trigger] v@.contains(x) <==> (old(v)@.contains(x) || exists|k: int| 0 <= k < i && ids@[k] == x),
        decreases ids@.len() - i,
    {
        add_unique(v, ids[i]);
        i = i + 1;
    }
    proof {
        assert forall|x: ObjectId| #[trigger] ids@.contains(x) <==> exists|k: int| 0 <= k < ids@.len() && ids@[k] == x by {}
    }
}

/// The session event that a server event carries; `None` for an error report.
pub open spec fn session_event_of(event: IdentifiableEvent) -> Option<SessionEvent> {
    match event {
        IdentifiableEvent::ByMyself { result: CommandResult::SessionEvent(e), .. } => Some(e),
        IdentifiableEvent::ByMyself { result: CommandResult::Error(_), .. } => None,
        IdentifiableEvent::BySystem { session_event } => Some(session_event),
    }
}

impl ClientSession {
    pub closed spec fn wf(&self) -> bool {
        self.document.wf() && self.invalidated_object_ids@.no_duplicates()
    }

    pub closed spec fn follower(&self) -> ClientFollowerDocument {
        self.document
    }

    /// Commands waiting for the host to send them, oldest first.
    pub closed spec fn queue(&self) -> Seq<IdentifiableCommand> {
        self.pending_commands@
    }

    pub closed spec fn invalidated(&self) -> Seq<ObjectId> {
        self.invalidated_object_ids@
    }

    pub closed spec fn pointers(&self) -> Seq<LivePointerEvent> {
        self.pending_live_pointer_events@
    }

    pub closed spec fn last_id(&self) -> CommandId {
        self.command_id_source
    }

    pub closed spec fn is_terminated(&self) -> bool {
        self.terminated
    }

    pub closed spec fn roster(&self) -> Seq<crate::message::ConnectionId> {
        self.session_snapshot.connections@
    }

    /// The kernel of a session that was just joined, over the document of its `Init`.
    pub fn new(storage: DocumentStorage, session_snapshot: SessionSnapshot) -> (r: ClientSession)
        requires
            storage.wf(),
        ensures
            r.wf(),
            r.follower().base() == storage@,
            r.follower().pending() == Seq::<Transaction>::empty(),
            r.queue() == Seq::<IdentifiableCommand>::empty(),
            r.invalidated() == Seq::<ObjectId>::empty(),
            r.pointers() == Seq::<LivePointerEvent>::empty(),
            r.last_id() == 0,
            !r.is_terminated(),
            r.roster() == session_snapshot.connections@,
    {
        ClientSession {
            command_id_source: 0,
            pending_commands: Vec::new(),
            session_snapshot,
            document: ClientFollowerDocument::new(storage),
            invalidated_object_ids: Vec::new(),
            pending_live_pointer_events: Vec::new(),
            terminated: false,
        }
    }

    pub fn document(&self) -> (r: &ClientFollowerDocument)
        ensures
            *r == self.follower(),
    {
        &self.document
    }

    pub fn session_snapshot(&self) -> (r: &SessionSnapshot)
        ensures
            r.connections@ == self.roster(),
    {
        &self.session_snapshot
    }

    pub fn terminated(&self) -> (r: bool)
        ensures
            r == self.is_terminated(),
    {
        self.terminated
    }

    pub fn last_command_id(&self) -> (r: CommandId)
        ensures
            r == self.last_id(),
    {
        self.command_id_source
    }

    /// Queues a transaction for the server under the next command id.
    fn enqueue(&mut self, tx: Transaction)
        requires
            old(self).wf(),
        ensures
            final(self).wf(),
            final(self).follower() == old(self).follower(),
            final(self).invalidated() == old(self).invalidated(),
            final(self).pointers() == old(self).pointers(),
            final(self).is_terminated() == old(self).is_terminated(),
            final(self).roster() == old(self).roster(),
            final(self).last_id() == next_u16(old(self).last_id()),
            final(self).queue().len() == old(self).queue().len() + 1,
            final(self).queue().drop_last() == old(self).queue(),
            final(self).queue().last().command_id == final(self).last_id(),
            final(self).queue().last().session_command == SessionCommand::Transaction(tx),
    {
        self.command_id_source = if self.command_id_source == u16::MAX {
            0
        } else {
            self.command_id_source + 1
        };
        self.pending_commands.push(IdentifiableCommand {
            command_id: self.command_id_source,
            session_command: SessionCommand::Transaction(tx),
        });
        assert(self.pending_commands@.drop_last() =~= old(self).pending_commands@);
    }

    fn record(&mut self, result: &TransactionResult)
        requires
            old(self).wf(),
            result.invalidated_object_ids@.no_duplicates(),
        ensures
            final(self).wf(),
            final(self).follower() == old(self).follower(),
            final(self).queue() == old(self).queue(),
            final(self).pointers() == old(self).pointers(),
            final(self).is_terminated() == old(self).is_terminated(),
            final(self).roster() == old(self).roster(),
            final(self).last_id() == old(self).last_id(),
            forall|x: ObjectId| #[trigger] final(self).invalidated().contains(x) <==> (old(self).invalidated().contains(x)
                || result.invalidated_object_ids@.contains(x)),
    {
        add_all(&mut self.invalidated_object_ids, &result.invalidated_object_ids);
    }

    /// Turns a command into a local edit and queues its transaction for the server.
    pub fn push_document_command(&mut self, command: DocumentCommand) -> (r: Result<(), ClientSessionError>)
        requires
            old(self).wf(),
        ensures
            final(self).wf(),
            final(self).pointers() == old(self).pointers(),
            final(self).roster() == old(self).roster(),
            r is Err ==> final(self).queue() == old(self).queue() && final(self).invalidated() == old(self).invalidated(),
            exists|res: Result<TransactionResult, FollowerError>|
                command_handled(old(self).follower(), final(self).follower(), command, res) && (r is Ok
                    <==> res is Ok) && (res matches Err(e) ==> r == Err::<(), ClientSessionError>(
                    ClientSessionError::Follower(e),
                )),
            r is Ok ==> {
                &&& final(self).queue().len() == old(self).queue().len() + 1
                &&& final(self).queue().drop_last() == old(self).queue()
                &&& final(self).queue().last().command_id == next_u16(old(self).last_id())
                &&& final(self).queue().last().session_command matches SessionCommand::Transaction(t)
                    && final(self).follower().pending().len() > 0 && same_tx(final(self).follower().pending().last(), t)
                    && (!(command is Undo) && !(command is Redo) ==> final(self).follower().model()
                        == apply_items(old(self).follower().model(), t.items@))
            },
    {
        let ghost cmd = command;
        let outcome = self.document.handle_command(command);
        let ghost effect = outcome;
        let r = match outcome {
            Ok(result) => {
                self.record(&result);
                self.enqueue(result.transaction);
                Ok(())
            },
            Err(e) => Err(ClientSessionError::Follower(e)),
        };
        assert(command_handled(old(self).follower(), self.follower(), cmd, effect));
        r
    }

    /// Undoes the last local edit and queues the undoing transaction.
    pub fn undo(&mut self) -> (r: Result<(), ClientSessionError>)
        requires
            old(self).wf(),
        ensures
            final(self).wf(),
            r is Err <==> old(self).follower().undo_stack().len() == 0,
            r is Err ==> final(self).queue() == old(self).queue(),
            exists|res: Result<TransactionResult, FollowerError>|
                undo_effect(old(self).follower(), final(self).follower(), res),
            r is Ok ==> final(self).queue().len() == old(self).queue().len() + 1 && final(self).queue().last().command_id == next_u16(old(self).last_id()),
    {
        let outcome = self.document.undo();
        let ghost effect = outcome;
        let r = match outcome {
            Ok(result) => {
                self.record(&result);
                self.enqueue(result.transaction);
                Ok(())
            },
            Err(e) => Err(ClientSessionError::Follower(e)),
        };
        assert(undo_effect(old(self).follower(), self.follower(), effect));
        r
    }

    /// Redoes the last undone edit and queues the redoing transaction.
    pub fn redo(&mut self) -> (r: Result<(), ClientSessionError>)
        requires
            old(self).wf(),
        ensures
            final(self).wf(),
            r is Err <==> old(self).follower().redo_stack().len() == 0,
            r is Err ==> final(self).queue() == old(self).queue(),
            exists|res: Result<TransactionResult, FollowerError>|
                redo_effect(old(self).follower(), final(self).follower(), res),
            r is Ok ==> final(self).queue().len() == old(self).queue().len() + 1 && final(self).queue().last().command_id == next_u16(old(self).last_id()),
    {
        let outcome = self.document.redo();
        let ghost effect = outcome;
        let r = match outcome {
            Ok(result) => {
                self.record(&result);
                self.enqueue(result.transaction);
                Ok(())
            },
            Err(e) => Err(ClientSessionError::Follower(e)),
        };
        assert(redo_effect(old(self).follower(), self.follower(), effect));
        r
    }

    /// Applies an event from the server: acknowledgements and refusals settle pending
    /// edits, peers' transactions are applied, the roster and pointer events are kept for
    /// the host, and termination is recorded.
    pub fn handle_event_from_server(&mut self, event: IdentifiableEvent) -> (r: Result<(), ClientSessionError>)
        requires
            old(self).wf(),
        ensures
            final(self).wf(),
            final(self).queue() == old(self).queue(),
            event matches IdentifiableEvent::ByMyself { result: CommandResult::Error(_), .. } ==> r == Err::<(), ClientSessionError>(ClientSessionError::ServerError),
            session_event_of(event) matches Some(SessionEvent::TransactionAck(id))
                ==> (r is Ok <==> has_id(old(self).follower().pending(), id)) && (r is Ok ==> exists|i: int|
                    0 <= i < old(self).follower().pending().len() && #[trigger] old(self).follower().pending()[i].id == id
                        && (forall|j: int| 0 <= j < i ==> old(self).follower().pending()[j].id != id)
                        && final(self).follower().pending() == old(self).follower().pending().remove(i)
                        && final(self).follower().base() == apply_items(
                        old(self).follower().base(),
                        old(self).follower().pending()[i].items@,
                    )),
            session_event_of(event) matches Some(SessionEvent::TransactionNack(id, _))
                ==> (r is Ok <==> has_id(old(self).follower().pending(), id)) && (r is Ok ==> exists|i: int|
                    0 <= i < old(self).follower().pending().len() && #[trigger] old(self).follower().pending()[i].id == id
                        && (forall|j: int| 0 <= j < i ==> old(self).follower().pending()[j].id != id)
                        && final(self).follower().pending() == old(self).follower().pending().remove(i)
                        && final(self).follower().base() == old(self).follower().base()
                        && final(self).follower().undo_stack() == without_id(old(self).follower().undo_stack(), id)
                        && final(self).follower().redo_stack() == without_id(old(self).follower().redo_stack(), id)),
            session_event_of(event) matches Some(SessionEvent::OthersTransaction(t))
                ==> r is Ok && final(self).follower().base() == apply_items(old(self).follower().base(), t.items@)
                    && final(self).follower().pending() == old(self).follower().pending()
                    && forall|x: ObjectId| #[trigger] final(self).invalidated().contains(x) <==> (old(self).invalidated().contains(x)
                        || invalidated(old(self).follower().model(), t.items@).contains(x)),
            session_event_of(event) matches Some(SessionEvent::LivePointer(p))
                ==> r is Ok && final(self).pointers() == old(self).pointers().push(p),
            session_event_of(event) matches Some(SessionEvent::SessionStateChanged(s))
                ==> r is Ok && final(self).roster() == s.connections@,
            session_event_of(event) matches Some(SessionEvent::TerminatedBySystem)
                ==> r is Ok && final(self).is_terminated(),
            session_event_of(event) matches Some(SessionEvent::Init { .. })
                ==> r == Err::<(), ClientSessionError>(ClientSessionError::Unexpected),
    {
        let session_event = match event {
            IdentifiableEvent::ByMyself { result, .. } => match result {
                CommandResult::SessionEvent(e) => e,
                CommandResult::Error(_) => {
                    return Err(ClientSessionError::ServerError);
                },
            },
            IdentifiableEvent::BySystem { session_event } => session_event,
        };
        match session_event {
            SessionEvent::TransactionAck(id) => match self.document.handle_ack(id) {
                Ok(result) => {
                    self.record(&result);
                    Ok(())
                },
                Err(e) => Err(ClientSessionError::Follower(e)),
            },
            SessionEvent::TransactionNack(id, _) => match self.document.handle_nack(id) {
                Ok(result) => {
                    let ghost before = old(self).document;
                    let ghost i = choose|i: int|
                        0 <= i < before.pending().len() && #[trigger] before.pending()[i] == result.transaction
                            && result.transaction.id == id && (forall|j: int|
                            0 <= j < i ==> before.pending()[j].id != id) && self.document.pending()
                            == before.pending().remove(i) && self.document.undo_stack() == without_id(
                            before.undo_stack(),
                            id,
                        ) && self.document.redo_stack() == without_id(before.redo_stack(), id)
                            && crate::client_follower_document::lists_set(
                            result.invalidated_object_ids@,
                            invalidated(before.model(), result.transaction.items@),
                        );
                    self.record(&result);
                    proof {
                        assert(before.pending()[i].id == id);
                        assert(0 <= i < old(self).follower().pending().len() && old(self).follower().pending()[i].id == id
                            && (forall|j: int| 0 <= j < i ==> old(self).follower().pending()[j].id != id)
                            && self.follower().pending() == old(self).follower().pending().remove(i)
                            && self.follower().base() == old(self).follower().base()
                            && self.follower().undo_stack() == without_id(old(self).follower().undo_stack(), id)
                            && self.follower().redo_stack() == without_id(old(self).follower().redo_stack(), id));
                    }
                    Ok(())
                },
                Err(e) => Err(ClientSessionError::Follower(e)),
            },
            SessionEvent::OthersTransaction(tx) => {
                let result = self.document.handle_transaction(tx);
                self.record(&result);
                Ok(())
            },
            SessionEvent::SessionStateChanged(snapshot) => {
                self.session_snapshot = snapshot;
                Ok(())
            },
            SessionEvent::LivePointer(p) => {
                self.pending_live_pointer_events.push(p);
                Ok(())
            },
            SessionEvent::TerminatedBySystem => {
                self.terminated = true;
                Ok(())
            },
            SessionEvent::Init { .. } => Err(ClientSessionError::Unexpected),
        }
    }

    /// Takes the oldest queued command.
    pub fn consume_pending_identifiable_command(&mut self) -> (r: Option<IdentifiableCommand>)
        requires
            old(self).wf(),
        ensures
            final(self).wf(),
            final(self).follower() == old(self).follower(),
            old(self).queue().len() == 0 ==> r is None && final(self).queue() == old(self).queue(),
            old(self).queue().len() > 0 ==> r == Some(old(self).queue()[0]) && final(self).queue() == old(self).queue().drop_first(),
    {
        if self.pending_commands.len() == 0 {
            None
        } else {
            let c = self.pending_commands.remove(0);
            assert(self.pending_commands@ =~= old(self).pending_commands@.drop_first());
            Some(c)
        }
    }

    /// Takes the ids whose rendering changed since the last call.
    pub fn consume_invalidated_object_ids(&mut self) -> (r: Vec<ObjectId>)
        requires
            old(self).wf(),
        ensures
            final(self).wf(),
            r@ == old(self).invalidated(),
            final(self).invalidated() == Seq::<ObjectId>::empty(),
            final(self).follower() == old(self).follower(),
            final(self).queue() == old(self).queue(),
    {
        let mut taken: Vec<ObjectId> = Vec::new();
        let mut i: usize = 0;
        while i < self.invalidated_object_ids.len()
            invariant
                i <= self.invalidated_object_ids@.len(),
                taken@ == self.invalidated_object_ids@.subrange(0, i as int),
            decreases self.invalidated_object_ids@.len() - i,
        {
            taken.push(self.invalidated_object_ids[i]);
            i = i + 1;
        }
        assert(self.invalidated_object_ids@.subrange(0, i as int) =~= old(self).invalidated_object_ids@);
        self.invalidated_object_ids = Vec::new();
        taken
    }

    /// Takes the pointer events received since the last call, oldest first.
    pub fn consume_live_pointer_events(&mut self) -> (r: Vec<LivePointerEvent>)
        requires
            old(self).wf(),
        ensures
            final(self).wf(),
            r@ == old(self).pointers(),
            final(self).pointers() == Seq::<LivePointerEvent>::empty(),
            final(self).queue() == old(self).queue(),
    {
        let mut taken: Vec<LivePointerEvent> = Vec::new();
        let mut i: usize = 0;
        while i < self.pending_live_pointer_events.len()
            invariant
                i <= self.pending_live_pointer_events@.len(),
                taken@ == self.pending_live_pointer_events@.subrange(0, i as int),
            decreases self.pending_live_pointer_events@.len() - i,
        {
            taken.push(self.pending_live_pointer_events[i]);
            i = i + 1;
        }
        assert(self.pending_live_pointer_events@.subrange(0, i as int) =~= old(self).pending_live_pointer_events@);
        self.pending_live_pointer_events = Vec::new();
        taken
    }
}

} // verus!

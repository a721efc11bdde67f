use vstd::prelude::*;

use crate::document_storage::DocumentStorage;
use crate::message::{
    CommandResult, ConnectionId, FatalError, FileId, IdentifiableCommand, IdentifiableEvent,
    LivePointerEvent, SessionCommand, SessionEvent, SessionId, SessionSnapshot,
};
use crate::server_state::{next_u16, next_u32, ServerState};
use crate::session::{
    without, PendingTransactionCommitError, PendingTransactionCommitResult, Session, SessionBehavior,
};

verus! {

/// What the server tells one connection's egress.
#[derive(Debug)]
pub enum ConnectionEvent {
    Connected { connection_id: ConnectionId },
    IdentifiableEvent(IdentifiableEvent),
    Disconnected { connection_id: ConnectionId },
}

/// Work that the orchestrator hands to its host, in order.
#[derive(Debug)]
#[allow(inconsistent_fields)]
pub enum ServerAction {
    /// Send an event to one connection.
    Send { to: ConnectionId, event: ConnectionEvent },
    /// Send the `Init` event of a session to one connection; the host adds the snapshot of
    /// the session's document.
    SendInit { to: ConnectionId, session_id: SessionId, session_snapshot: SessionSnapshot },
    /// Send a system event to each of these connections, in order.
    Broadcast { to: Vec<ConnectionId>, event: SessionEvent },
    /// Write the document of a session that ended to the file of that session.
    Persist { file_id: FileId, session: Session },
    /// Forget the egress of a connection.
    Unregister { connection_id: ConnectionId },
}

/// What an administrator learns of a file.
#[derive(Debug, Clone, Copy, PartialEq, Eq, Structural)]
pub enum FileDescription {
    /// A session serves the file.
    Online { behavior: SessionBehavior, has_pending_txs: bool },
    /// No session serves the file.
    Offline,
}

/// The connections of a session that a broadcast excluding `exclude` reaches.
pub open spec fn broadcast_targets(conns: Seq<ConnectionId>, exclude: Option<ConnectionId>) -> Seq<
    ConnectionId,
> {
    match exclude {
        Some(c) => without(conns, c),
        None => conns,
    }
}

/// Every automatic session has a connection: one whose last connection left is gone.
pub open spec fn auto_sessions_occupied(st: ServerState) -> bool {
    forall|sid: SessionId| #[trigger]
        st.sessions().contains_key(sid) && st.sessions()[sid].mode()
            == SessionBehavior::AutoTerminateWhenEmpty ==> st.sessions()[sid].conns().len() > 0
}

/// The single writer of all session state.
pub struct Server {
    state: ServerState,
}

impl Server {
    pub closed spec fn state(&self) -> ServerState {
        self.state
    }

    pub closed spec fn wf(&self) -> bool {
        self.state.wf() && auto_sessions_occupied(self.state)
    }

    pub fn new() -> (r: Server)
        ensures
            r.wf(),
            r.state().sessions() == Map::<SessionId, Session>::empty(),
    {
        Server { state: ServerState::new() }
    }

    pub fn state_ref(&self) -> (r: &ServerState)
        ensures
            *r == self.state(),
    {
        &self.state
    }

    /// Whether connecting to this file needs its document read first.
    pub fn needs_document(&self, file_id: FileId) -> (r: bool)
        requires
            self.wf(),
        ensures
            r == !self.state().files().contains_key(file_id),
    {
        self.state.session_id(file_id).is_none()
    }

    /// The connections a broadcast to session `sid` that excludes `exclude` reaches: every
    /// current connection of the session but the excluded one.
    pub fn broadcast_targets(&self, sid: SessionId, exclude: Option<ConnectionId>) -> (r: Vec<ConnectionId>)
        requires
            self.state().wf(),
        ensures
            self.state().sessions().contains_key(sid) ==> r@ == broadcast_targets(
                self.state().sessions()[sid].conns(),
                exclude,
            ),
            !self.state().sessions().contains_key(sid) ==> r@ == Seq::<ConnectionId>::empty(),
    {
        match self.state.connection_ids_in_session(sid) {
            Ok(mut conns) => {
                match exclude {
                    Some(c) => crate::session::remove_connection(&mut conns, c),
                    None => {},
                }
                conns
            },
            Err(_) => Vec::new(),
        }
    }

    /// A connection leaves its session. An automatic session left without connections
    /// ends: its members are told, it leaves the map, and its document is persisted.
    /// Otherwise the others get the new roster.
    fn leave(&mut self, c: ConnectionId, actions: &mut Vec<ServerAction>)
        requires
            old(self).wf(),
        ensures
            final(self).wf(),
            final(actions)@.len() >= old(actions)@.len(),
            final(actions)@.subrange(0, old(actions)@.len() as int) == old(actions)@,
            final(self).state().files().submap_of(old(self).state().files()),
            final(self).state().locations() == old(self).state().locations().remove(c),
            leave_outcome(old(self).state(), final(self).state(), c, final(actions)@.subrange(
                old(actions)@.len() as int,
                final(actions)@.len() as int,
            )),
    {
        let ghost before = actions@;
        let sid = match self.state.leave_session(c) {
            Some(sid) => sid,
            None => {
                assert(actions@.subrange(0, before.len() as int) =~= before);
                assert(self.state().locations() =~= old(self).state().locations().remove(c));
                return;
            },
        };
        let terminate = match self.state.get_session(sid) {
            Some(s) => s.should_terminate(),
            None => false,
        };
        if terminate {
            let targets = self.broadcast_targets(sid, None);
            actions.push(ServerAction::Broadcast { to: targets, event: SessionEvent::TerminatedBySystem });
            let session = self.state.terminate_session(sid);
            match session {
                Some(s) => {
                    let file_id = s.get_file_id();
                    actions.push(ServerAction::Persist { file_id, session: s });
                },
                None => {},
            }
            proof {
                assert forall|k: SessionId| #[trigger]
                    self.state.sessions().contains_key(k) && self.state.sessions()[k].mode()
                        == SessionBehavior::AutoTerminateWhenEmpty implies self.state.sessions()[k].conns().len() > 0 by {
                    assert(old(self).state.sessions().contains_key(k));
                }
                assert(self.state().files().submap_of(old(self).state().files()));
            }
        } else {
            match self.state.get_session(sid) {
                Some(s) => {
                    let snapshot = s.snapshot();
                    let targets = self.broadcast_targets(sid, Some(c));
                    proof {
                        crate::session::lemma_without_idempotent(old(self).state().sessions()[sid].conns(), c);
                    }
                    actions.push(ServerAction::Broadcast {
                        to: targets,
                        event: SessionEvent::SessionStateChanged(snapshot),
                    });
                },
                None => {
                    proof {
                        assert(self.state.sessions() =~= old(self).state.sessions());
                    }
                },
            }
            proof {
                assert forall|k: SessionId| #[trigger]
                    self.state.sessions().contains_key(k) && self.state.sessions()[k].mode()
                        == SessionBehavior::AutoTerminateWhenEmpty implies self.state.sessions()[k].conns().len() > 0 by {
                    assert(old(self).state.sessions().contains_key(k));
                }
            }
        }
        assert(actions@.subrange(0, before.len() as int) =~= before);
    }

    /// A connection opens a session on a file: the session is created first (automatic,
    /// over `document`) when the file has none. The connection gets `Connected`, then
    /// `Init`, and the others the new roster. `None`, changing no session, when the file
    /// has no session and no document was read, or when no connection id is free.
    pub fn connect(&mut self, file_id: FileId, document: Option<DocumentStorage>) -> (r: Option<(ConnectionId, Vec<ServerAction>)>)
        requires
            old(self).wf(),
            document matches Some(d) ==> d.wf(),
        ensures
            final(self).wf(),
            !old(self).state().files().contains_key(file_id) && document is None ==> r is None,
            (old(self).state().files().contains_key(file_id) || document is Some)
                && !old(self).state().locations().contains_key(next_u16(old(self).state().last_connection_id()))
                && (old(self).state().files().contains_key(file_id) || !old(self).state().sessions().contains_key(
                next_u32(old(self).state().last_session_id()),
            )) ==> r is Some,
            r is None ==> final(self).state().sessions() == old(self).state().sessions()
                && final(self).state().locations() == old(self).state().locations(),
            r matches Some((c, actions)) ==> {
                &&& !old(self).state().locations().contains_key(c)
                &&& final(self).state().locations().contains_key(c)
                &&& final(self).state().files().contains_key(file_id)
                &&& final(self).state().locations()[c] == final(self).state().files()[file_id]
                &&& final(self).state().sessions().contains_key(final(self).state().locations()[c])
                &&& final(self).state().sessions()[final(self).state().locations()[c]].conns() == (if old(self).state().files().contains_key(file_id) {
                    old(self).state().sessions()[old(self).state().files()[file_id]].conns()
                } else {
                    Seq::<ConnectionId>::empty()
                }).push(c)
                &&& !old(self).state().files().contains_key(file_id) ==> final(self).state().sessions()[final(self).state().locations()[c]].mode()
                    == SessionBehavior::AutoTerminateWhenEmpty
                &&& actions@.len() == 3
                &&& actions@[0] matches ServerAction::Send { to, event: ConnectionEvent::Connected { connection_id } } && to == c && connection_id == c
                &&& actions@[1] matches ServerAction::SendInit { to, session_id, .. } && to == c && session_id == final(self).state().locations()[c]
                &&& actions@[2] matches ServerAction::Broadcast { to, event: SessionEvent::SessionStateChanged(_) } && to@ == without(final(self).state().sessions()[final(self).state().locations()[c]].conns(), c)
            },
    {
        let mut created: Option<SessionId> = None;
        if self.state.session_id(file_id).is_none() {
            match document {
                Some(d) => {
                    match self.state.create_session(file_id, d, SessionBehavior::AutoTerminateWhenEmpty) {
                        Ok(sid) => {
                            created = Some(sid);
                        },
                        Err(_) => {
                            return None;
                        },
                    }
                },
                None => {
                    return None;
                },
            }
        }
        let ghost mid = self.state;
        match self.state.join_session(file_id) {
            Ok((sid, c)) => {
                let session_snapshot = match self.state.get_session(sid) {
                    Some(s) => s.snapshot(),
                    None => SessionSnapshot { connections: Vec::new() },
                };
                let targets = self.broadcast_targets(sid, Some(c));
                let snapshot_for_others = session_snapshot.clone();
                let mut actions: Vec<ServerAction> = Vec::new();
                actions.push(ServerAction::Send { to: c, event: ConnectionEvent::Connected { connection_id: c } });
                actions.push(ServerAction::SendInit { to: c, session_id: sid, session_snapshot });
                actions.push(ServerAction::Broadcast {
                    to: targets,
                    event: SessionEvent::SessionStateChanged(snapshot_for_others),
                });
                proof {
                    assert forall|k: SessionId| #[trigger]
                        self.state.sessions().contains_key(k) && self.state.sessions()[k].mode()
                            == SessionBehavior::AutoTerminateWhenEmpty implies self.state.sessions()[k].conns().len() > 0 by {
                        if k != sid {
                            assert(mid.sessions().contains_key(k));
                            if created != Some(k) {
                                assert(old(self).state.sessions().contains_key(k));
                            }
                        }
                    }
                }
                Some((c, actions))
            },
            Err(_) => {
                match created {
                    Some(sid) => {
                        let _ = self.state.terminate_session(sid);
                        proof {
                            assert(self.state.sessions() =~= old(self).state.sessions());
                        }
                    },
                    None => {},
                }
                None
            },
        }
    }

    /// The connection closed: it leaves its session and its egress is forgotten.
    pub fn disconnect(&mut self, from: ConnectionId) -> (r: Vec<ServerAction>)
        requires
            old(self).wf(),
        ensures
            final(self).wf(),
            final(self).state().locations() == old(self).state().locations().remove(from),
            leave_outcome(old(self).state(), final(self).state(), from, r@.drop_last()),
            r@.len() > 0,
            (r@.last() matches ServerAction::Unregister { connection_id } && connection_id == from),
    {
        let mut actions: Vec<ServerAction> = Vec::new();
        self.leave(from, &mut actions);
        let ghost leaving = actions@;
        actions.push(ServerAction::Unregister { connection_id: from });
        assert(actions@.drop_last() =~= leaving);
        assert(leaving.subrange(0, leaving.len() as int) =~= leaving);
        actions
    }

    /// The server drops a connection after a fatal error: it is told, it leaves its
    /// session, and its egress is forgotten.
    pub fn disconnect_from_server(&mut self, from: ConnectionId) -> (r: Vec<ServerAction>)
        requires
            old(self).wf(),
        ensures
            final(self).wf(),
            final(self).state().locations() == old(self).state().locations().remove(from),
            r@.len() >= 2,
            r@[0] matches ServerAction::Send { to, event: ConnectionEvent::Disconnected { connection_id } } && to == from && connection_id == from,
            r@.last() matches ServerAction::Unregister { connection_id } && connection_id == from,
            leave_outcome(old(self).state(), final(self).state(), from, r@.subrange(1, r@.len() - 1)),
    {
        let mut actions: Vec<ServerAction> = Vec::new();
        actions.push(ServerAction::Send { to: from, event: ConnectionEvent::Disconnected { connection_id: from } });
        let ghost first = actions@;
        self.leave(from, &mut actions);
        assert(actions@.subrange(0, 1)[0] == first[0]);
        let ghost second = actions@;
        actions.push(ServerAction::Unregister { connection_id: from });
        assert(actions@[0] == second[0]);
        assert(actions@.subrange(1, actions@.len() - 1) =~= second.subrange(1, second.len() as int));
        actions
    }

    /// A command from a connection. Pointer moves go to the other connections of its
    /// session. A transaction is handed to the session: when committed, the sender gets
    /// the acknowledgement first and the others the transaction; when queued, nothing is
    /// sent; when refused, the sender gets a refusal. A connection in no session is
    /// dropped.
    pub fn handle_identifiable_command(&mut self, from: ConnectionId, command: IdentifiableCommand) -> (r: Vec<ServerAction>)
        requires
            old(self).wf(),
        ensures
            final(self).wf(),
            !old(self).state().locations().contains_key(from) ==> r@.len() >= 2 && (r@[0] matches ServerAction::Send { to, event: ConnectionEvent::Disconnected { .. } } && to == from),
            old(self).state().locations().contains_key(from) && old(self).state().sessions().contains_key(old(self).state().locations()[from]) ==> {
                let sid = old(self).state().locations()[from];
                let s = old(self).state().sessions()[sid];
                &&& command.session_command matches SessionCommand::LivePointer(p) ==> r@.len() == 1 && (r@[0] matches ServerAction::Broadcast { to, event: SessionEvent::LivePointer(e) } && to@ == without(s.conns(), from) && e.connection_id == from && e.x == p.x && e.y == p.y)
                &&& command.session_command matches SessionCommand::Transaction(tx) ==> {
                    &&& s.mode() == SessionBehavior::AutoTerminateWhenEmpty ==> {
                        &&& final(self).state().sessions()[sid].model() == crate::model::apply_items(s.model(), tx.items@)
                        &&& r@.len() == 2
                        &&& r@[0] matches ServerAction::Send { to, event: ConnectionEvent::IdentifiableEvent(IdentifiableEvent::ByMyself { command_id, result: CommandResult::SessionEvent(SessionEvent::TransactionAck(id)) }) } && to == from && command_id == command.command_id && id == tx.id
                        &&& r@[1] matches ServerAction::Broadcast { to, event: SessionEvent::OthersTransaction(t) } && to@ == without(s.conns(), from) && t.id == tx.id && t.items@ == tx.items@
                    }
                    &&& s.mode() == SessionBehavior::ManualCommitByAdmin ==> r@.len() == 0 && final(self).state().sessions()[sid].queue().len() == s.queue().len() + 1
                }
            },
    {
        let sid = match self.state.get_session_id_of_connection(from) {
            Some(sid) => sid,
            None => {
                return self.disconnect_from_server(from);
            },
        };
        let command_id = command.command_id;
        match command.session_command {
            SessionCommand::LivePointer(p) => {
                let targets = self.broadcast_targets(sid, Some(from));
                let mut actions: Vec<ServerAction> = Vec::new();
                actions.push(ServerAction::Broadcast {
                    to: targets,
                    event: SessionEvent::LivePointer(LivePointerEvent { connection_id: from, x: p.x, y: p.y }),
                });
                actions
            },
            SessionCommand::Transaction(tx) => {
                let tx_id = tx.id;
                let ghost items = tx.items@;
                match self.state.handle_transaction(sid, from, tx) {
                    None => {
                        let mut actions: Vec<ServerAction> = Vec::new();
                        self.leave(from, &mut actions);
                        actions.push(ServerAction::Send {
                            to: from,
                            event: ConnectionEvent::IdentifiableEvent(IdentifiableEvent::ByMyself {
                                command_id,
                                result: CommandResult::SessionEvent(SessionEvent::TerminatedBySystem),
                            }),
                        });
                        actions
                    },
                    Some(Ok(Some(committed))) => {
                        proof {
                            assert forall|k: SessionId| #[trigger]
                                self.state.sessions().contains_key(k) && self.state.sessions()[k].mode()
                                    == SessionBehavior::AutoTerminateWhenEmpty implies self.state.sessions()[k].conns().len() > 0 by {
                                assert(old(self).state.sessions().contains_key(k));
                            }
                        }
                        let targets = self.broadcast_targets(sid, Some(from));
                        let mut actions: Vec<ServerAction> = Vec::new();
                        actions.push(ServerAction::Send {
                            to: from,
                            event: ConnectionEvent::IdentifiableEvent(IdentifiableEvent::ByMyself {
                                command_id,
                                result: CommandResult::SessionEvent(SessionEvent::TransactionAck(committed.id)),
                            }),
                        });
                        actions.push(ServerAction::Broadcast { to: targets, event: SessionEvent::OthersTransaction(committed) });
                        actions
                    },
                    Some(Ok(None)) => {
                        proof {
                            assert forall|k: SessionId| #[trigger]
                                self.state.sessions().contains_key(k) && self.state.sessions()[k].mode()
                                    == SessionBehavior::AutoTerminateWhenEmpty implies self.state.sessions()[k].conns().len() > 0 by {
                                assert(old(self).state.sessions().contains_key(k));
                            }
                        }
                        Vec::new()
                    },
                    Some(Err(reason)) => {
                        proof {
                            assert forall|k: SessionId| #[trigger]
                                self.state.sessions().contains_key(k) && self.state.sessions()[k].mode()
                                    == SessionBehavior::AutoTerminateWhenEmpty implies self.state.sessions()[k].conns().len() > 0 by {
                                assert(old(self).state.sessions().contains_key(k));
                            }
                        }
                        let mut actions: Vec<ServerAction> = Vec::new();
                        actions.push(ServerAction::Send {
                            to: from,
                            event: ConnectionEvent::IdentifiableEvent(IdentifiableEvent::ByMyself {
                                command_id,
                                result: CommandResult::SessionEvent(SessionEvent::TransactionNack(tx_id, reason)),
                            }),
                        });
                        actions
                    },
                }
            },
        }
    }

    /// Whether a session serves the file, with its behaviour and whether it has queued
    /// transactions.
    pub fn describe_file(&self, file_id: FileId) -> (r: FileDescription)
        requires
            self.wf(),
        ensures
            !self.state().files().contains_key(file_id) ==> r == FileDescription::Offline,
            self.state().files().contains_key(file_id) ==> {
                let s = self.state().sessions()[self.state().files()[file_id]];
                r == FileDescription::Online { behavior: s.mode(), has_pending_txs: s.queue().len() > 0 }
            },
    {
        match self.state.session_id(file_id) {
            Some(sid) => match self.state.get_session(sid) {
                Some(s) => FileDescription::Online {
                    behavior: s.get_behavior(),
                    has_pending_txs: s.has_pending_transactions(),
                },
                None => FileDescription::Offline,
            },
            None => FileDescription::Offline,
        }
    }

    /// Opens a manual-commit session over `document`; refused when the file has a session.
    pub fn open_manual_commit_session(&mut self, file_id: FileId, document: DocumentStorage) -> (r: Result<SessionId, ()>)
        requires
            old(self).wf(),
            document.wf(),
        ensures
            final(self).wf(),
            old(self).state().files().contains_key(file_id) ==> r is Err,
            !old(self).state().files().contains_key(file_id) && !old(self).state().sessions().contains_key(
                next_u32(old(self).state().last_session_id()),
            ) ==> r is Ok,
            r is Err ==> final(self).state().sessions() == old(self).state().sessions(),
            r matches Ok(sid) ==> final(self).state().files().contains_key(file_id) && final(self).state().files()[file_id] == sid
                && final(self).state().sessions()[sid].mode() == SessionBehavior::ManualCommitByAdmin
                && final(self).state().sessions()[sid].file() == file_id
                && final(self).state().sessions()[sid].conns().len() == 0
                && final(self).state().sessions()[sid].model() == document@
                && final(self).state().sessions()[sid].queue().len() == 0
                && final(self).state().locations() == old(self).state().locations(),
    {
        let r = self.state.create_session(file_id, document, SessionBehavior::ManualCommitByAdmin);
        proof {
            assert forall|k: SessionId| #[trigger]
                self.state.sessions().contains_key(k) && self.state.sessions()[k].mode()
                    == SessionBehavior::AutoTerminateWhenEmpty implies self.state.sessions()[k].conns().len() > 0 by {
                assert(old(self).state.sessions().contains_key(k));
            }
        }
        match r {
            Ok(sid) => Ok(sid),
            Err(_) => Err(()),
        }
    }

    /// Closes the manual-commit session of a file: its members are told, and its document
    /// is persisted. Refused when the file has no session or an automatic one.
    pub fn close_manual_commit_session(&mut self, file_id: FileId) -> (r: (Result<(), ()>, Vec<ServerAction>))
        requires
            old(self).wf(),
        ensures
            final(self).wf(),
            r.0 is Ok <==> old(self).state().files().contains_key(file_id) && old(self).state().sessions()[old(self).state().files()[file_id]].mode() == SessionBehavior::ManualCommitByAdmin,
            r.0 is Err ==> final(self).state().sessions() == old(self).state().sessions() && r.1@.len() == 0,
            r.0 is Ok ==> !final(self).state().files().contains_key(file_id) && !final(self).state().sessions().contains_key(old(self).state().files()[file_id])
                && r.1@.len() == 2 && (r.1@[0] matches ServerAction::Broadcast { to, event: SessionEvent::TerminatedBySystem }
                    && to@ == old(self).state().sessions()[old(self).state().files()[file_id]].conns())
                && (r.1@[1] matches ServerAction::Persist { file_id: f, session } && f == file_id
                    && session == old(self).state().sessions()[old(self).state().files()[file_id]]),
    {
        let sid = match self.state.session_id(file_id) {
            Some(sid) => sid,
            None => {
                return (Err(()), Vec::new());
            },
        };
        let manual = match self.state.get_session(sid) {
            Some(s) => s.get_behavior() == SessionBehavior::ManualCommitByAdmin,
            None => false,
        };
        if !manual {
            return (Err(()), Vec::new());
        }
        let targets = self.broadcast_targets(sid, None);
        let mut actions: Vec<ServerAction> = Vec::new();
        actions.push(ServerAction::Broadcast { to: targets, event: SessionEvent::TerminatedBySystem });
        match self.state.terminate_session(sid) {
            Some(s) => {
                actions.push(ServerAction::Persist { file_id, session: s });
            },
            None => {},
        }
        proof {
            assert forall|k: SessionId| #[trigger]
                self.state.sessions().contains_key(k) && self.state.sessions()[k].mode()
                    == SessionBehavior::AutoTerminateWhenEmpty implies self.state.sessions()[k].conns().len() > 0 by {
                assert(old(self).state.sessions().contains_key(k));
            }
        }
        (Ok(()), actions)
    }

    /// Commits the oldest queued transaction of a file's manual session: the sender gets
    /// the acknowledgement and the others the transaction, or the sender gets a refusal.
    /// Refused when the file has no session, or the session is automatic or has nothing
    /// queued.
    pub fn commit_manually(&mut self, file_id: FileId) -> (r: (Result<(), ()>, Vec<ServerAction>))
        requires
            old(self).wf(),
        ensures
            final(self).wf(),
            !old(self).state().files().contains_key(file_id) ==> r.0 is Err && r.1@.len() == 0,
            old(self).state().files().contains_key(file_id) ==> {
                let sid = old(self).state().files()[file_id];
                let s = old(self).state().sessions()[sid];
                &&& (s.mode() == SessionBehavior::ManualCommitByAdmin && s.queue().len() > 0) <==> r.0 is Ok
                &&& r.0 is Ok ==> {
                    &&& final(self).state().sessions()[sid].model() == crate::model::apply_items(s.model(), s.queue()[0].tx.items@)
                    &&& final(self).state().sessions()[sid].queue() == s.queue().drop_first()
                    &&& r.1@.len() == 2
                    &&& r.1@[0] matches ServerAction::Send { to, event: ConnectionEvent::IdentifiableEvent(IdentifiableEvent::BySystem { session_event: SessionEvent::TransactionAck(id) }) } && to == s.queue()[0].from && id == s.queue()[0].tx.id
                    &&& r.1@[1] matches ServerAction::Broadcast { to, event: SessionEvent::OthersTransaction(t) } && to@ == without(s.conns(), s.queue()[0].from) && t.id == s.queue()[0].tx.id
                }
            },
    {
        let sid = match self.state.session_id(file_id) {
            Some(sid) => sid,
            None => {
                return (Err(()), Vec::new());
            },
        };
        let result = self.state.commit_pending_transaction(sid);
        proof {
            assert forall|k: SessionId| #[trigger]
                self.state.sessions().contains_key(k) && self.state.sessions()[k].mode()
                    == SessionBehavior::AutoTerminateWhenEmpty implies self.state.sessions()[k].conns().len() > 0 by {
                assert(old(self).state.sessions().contains_key(k));
            }
        }
        match result {
            Ok(Some(PendingTransactionCommitResult { from, tx })) => {
                let targets = self.broadcast_targets(sid, Some(from));
                let mut actions: Vec<ServerAction> = Vec::new();
                actions.push(ServerAction::Send {
                    to: from,
                    event: ConnectionEvent::IdentifiableEvent(IdentifiableEvent::BySystem {
                        session_event: SessionEvent::TransactionAck(tx.id),
                    }),
                });
                actions.push(ServerAction::Broadcast { to: targets, event: SessionEvent::OthersTransaction(tx) });
                (Ok(()), actions)
            },
            Ok(None) => (Err(()), Vec::new()),
            Err(PendingTransactionCommitError::Rollback { from, tx_id }) => {
                let mut actions: Vec<ServerAction> = Vec::new();
                actions.push(ServerAction::Send {
                    to: from,
                    event: ConnectionEvent::IdentifiableEvent(IdentifiableEvent::BySystem {
                        session_event: SessionEvent::TransactionNack(tx_id, crate::message::RollbackReason::Something),
                    }),
                });
                (Ok(()), actions)
            },
            Err(PendingTransactionCommitError::InvalidRequest) => (Err(()), Vec::new()),
        }
    }
}

/// In every state the orchestrator keeps, an automatic session in the map has at least
/// one connection; with `leave_outcome`, the one whose last connection leaves is removed
/// and its document persisted.
pub proof fn lemma_auto_sessions_occupied(s: Server)
    requires
        s.wf(),
    ensures
        auto_sessions_occupied(s.state()),
{
}

/// What a connection leaving does to the sessions: when it was in a session, that session
/// loses it; an automatic session left without connections is removed, and the actions
/// end with persisting its document. Other sessions are untouched.
pub open spec fn leave_outcome(before: ServerState, after: ServerState, c: ConnectionId, actions: Seq<ServerAction>) -> bool {
    if !before.locations().contains_key(c) || !before.sessions().contains_key(before.locations()[c]) {
        after.sessions() == before.sessions() && actions.len() == 0
    } else {
        let sid = before.locations()[c];
        let s = before.sessions()[sid];
        &&& forall|k: SessionId| k != sid ==> (#[trigger] after.sessions().contains_key(k) <==> before.sessions().contains_key(k))
        &&& forall|k: SessionId| k != sid && #[trigger] before.sessions().contains_key(k) ==> after.sessions()[k] == before.sessions()[k]
        &&& if s.mode() == SessionBehavior::AutoTerminateWhenEmpty && without(s.conns(), c).len() == 0 {
            &&& !after.sessions().contains_key(sid)
            &&& !after.files().contains_key(s.file())
            &&& actions.len() == 2
            &&& actions[0] matches ServerAction::Broadcast { to, event: SessionEvent::TerminatedBySystem } && to@ == without(s.conns(), c)
            &&& actions[1] matches ServerAction::Persist { file_id, session } && file_id == s.file()
                && session.file() == s.file() && session.mode() == s.mode() && session.model() == s.model()
                && session.queue() == s.queue() && session.conns() == without(s.conns(), c)
        } else {
            &&& after.sessions().contains_key(sid)
            &&& after.sessions()[sid].conns() == without(s.conns(), c)
            &&& after.sessions()[sid].model() == s.model()
            &&& actions.len() == 1
            &&& actions[0] matches ServerAction::Broadcast { to, event: SessionEvent::SessionStateChanged(_) } && to@ == without(s.conns(), c)
        }
    }
}

} // verus!

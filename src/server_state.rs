use vstd::prelude::*;

use crate::document_storage::DocumentStorage;
use crate::message::{ConnectionId, FileId, RollbackReason, SessionId, Transaction};
use crate::session::{
    pending_committed, transaction_handled, without, PendingTransactionCommitError,
    PendingTransactionCommitResult, Session, SessionBehavior,
};
use crate::table::{
    keys_unique, lemma_to_map_contains, lemma_to_map_get, lemma_to_map_push,
    lemma_to_map_swap_remove, to_map,
};

verus! {

#[derive(Debug, Clone, Copy, PartialEq, Eq, Structural)]
pub enum ServerError {
    NoSessionForFile,
    SessionAlreadyCreatedForFileId,
    InvalidSessionId,
    InvalidCommandForState,
}

/// Sessions by id, the session of each file, and the session of each connection.
pub struct ServerState {
    connection_id_source: u16,
    connection_locations: Vec<(ConnectionId, SessionId)>,
    session_id_source: u32,
    sessions: Vec<(SessionId, Session)>,
    file_sessions: Vec<(FileId, SessionId)>,
}

pub open spec fn next_u16(x: u16) -> u16 {
    if x == u16::MAX {
        0
    } else {
        (x + 1) as u16
    }
}

pub open spec fn next_u32(x: u32) -> u32 {
    if x == u32::MAX {
        0
    } else {
        (x + 1) as u32
    }
}

/// Two session maps that agree everywhere but at `sid`.
pub open spec fn same_except(a: Map<SessionId, Session>, b: Map<SessionId, Session>, sid: SessionId) -> bool {
    &&& a.dom() == b.dom()
    &&& forall|k: SessionId| #[trigger] a.contains_key(k) && k != sid ==> a[k] == b[k]
}

impl ServerState {
    pub closed spec fn sessions(&self) -> Map<SessionId, Session> {
        to_map(self.sessions@)
    }

    pub closed spec fn files(&self) -> Map<FileId, SessionId> {
        to_map(self.file_sessions@)
    }

    pub closed spec fn locations(&self) -> Map<ConnectionId, SessionId> {
        to_map(self.connection_locations@)
    }

    pub closed spec fn last_connection_id(&self) -> ConnectionId {
        self.connection_id_source
    }

    pub closed spec fn last_session_id(&self) -> SessionId {
        self.session_id_source
    }

    pub closed spec fn tables_ok(&self) -> bool {
        &&& keys_unique(self.connection_locations@)
        &&& keys_unique(self.sessions@)
        &&& keys_unique(self.file_sessions@)
    }

    /// Each session is well formed, and the file index and the sessions agree both ways.
    pub open spec fn wf(&self) -> bool {
        &&& self.tables_ok()
        &&& forall|sid: SessionId| #[trigger]
            self.sessions().contains_key(sid) ==> self.sessions()[sid].wf()
        &&& forall|sid: SessionId| #[trigger]
            self.sessions().contains_key(sid) ==> self.files().contains_key(
                self.sessions()[sid].file(),
            ) && self.files()[self.sessions()[sid].file()] == sid
        &&& forall|f: FileId| #[trigger]
            self.files().contains_key(f) ==> self.sessions().contains_key(self.files()[f])
                && self.sessions()[self.files()[f]].file() == f
        &&& forall|c: ConnectionId| #[trigger]
            self.locations().contains_key(c) ==> self.sessions().contains_key(self.locations()[c])
                && self.sessions()[self.locations()[c]].conns().contains(c)
        &&& forall|sid: SessionId, c: ConnectionId|
            self.sessions().contains_key(sid) && #[trigger] self.sessions()[sid].conns().contains(c)
                ==> self.locations().contains_key(c) && self.locations()[c] == sid
    }

    pub fn new() -> (r: ServerState)
        ensures
            r.wf(),
            r.sessions() == Map::<SessionId, Session>::empty(),
            r.files() == Map::<FileId, SessionId>::empty(),
            r.locations() == Map::<ConnectionId, SessionId>::empty(),
    {
        let r = ServerState {
            connection_id_source: 0,
            connection_locations: Vec::new(),
            session_id_source: 0,
            sessions: Vec::new(),
            file_sessions: Vec::new(),
        };
        assert(r.sessions() =~= Map::<SessionId, Session>::empty());
        assert(r.files() =~= Map::<FileId, SessionId>::empty());
        assert(r.locations() =~= Map::<ConnectionId, SessionId>::empty());
        r
    }

    fn find_session(&self, sid: SessionId) -> (r: Option<usize>)
        ensures
            match r {
                Some(i) => i < self.sessions@.len() && self.sessions@[i as int].0 == sid,
                None => forall|i: int| 0 <= i < self.sessions@.len() ==> self.sessions@[i].0 != sid,
            },
    {
        let mut i: usize = 0;
        while i < self.sessions.len()
            invariant
                i <= self.sessions@.len(),
                forall|j: int| 0 <= j < i ==> self.sessions@[j].0 != sid,
            decreases self.sessions@.len() - i,
        {
            if self.sessions[i].0 == sid {
                return Some(i);
            }
            i = i + 1;
        }
        None
    }

    fn find_file(&self, f: FileId) -> (r: Option<usize>)
        ensures
            match r {
                Some(i) => i < self.file_sessions@.len() && self.file_sessions@[i as int].0 == f,
                None => forall|i: int| 0 <= i < self.file_sessions@.len() ==> self.file_sessions@[i].0 != f,
            },
    {
        let mut i: usize = 0;
        while i < self.file_sessions.len()
            invariant
                i <= self.file_sessions@.len(),
                forall|j: int| 0 <= j < i ==> self.file_sessions@[j].0 != f,
            decreases self.file_sessions@.len() - i,
        {
            if self.file_sessions[i].0 == f {
                return Some(i);
            }
            i = i + 1;
        }
        None
    }

    fn find_location(&self, c: ConnectionId) -> (r: Option<usize>)
        ensures
            match r {
                Some(i) => i < self.connection_locations@.len() && self.connection_locations@[i as int].0 == c,
                None => forall|i: int|
                    0 <= i < self.connection_locations@.len() ==> self.connection_locations@[i].0 != c,
            },
    {
        let mut i: usize = 0;
        while i < self.connection_locations.len()
            invariant
                i <= self.connection_locations@.len(),
                forall|j: int| 0 <= j < i ==> self.connection_locations@[j].0 != c,
            decreases self.connection_locations@.len() - i,
        {
            if self.connection_locations[i].0 == c {
                return Some(i);
            }
            i = i + 1;
        }
        None
    }

    /// The session of a file.
    pub fn session_id(&self, file_id: FileId) -> (r: Option<SessionId>)
        requires
            self.wf(),
        ensures
            r == crate::model::map_get(self.files(), file_id),
    {
        proof {
            lemma_to_map_get(self.file_sessions@, file_id);
        }
        match self.find_file(file_id) {
            Some(i) => Some(self.file_sessions[i].1),
            None => None,
        }
    }

    /// The session a connection joined.
    pub fn get_session_id_of_connection(&self, c: ConnectionId) -> (r: Option<SessionId>)
        requires
            self.wf(),
        ensures
            r == crate::model::map_get(self.locations(), c),
    {
        proof {
            lemma_to_map_get(self.connection_locations@, c);
        }
        match self.find_location(c) {
            Some(i) => Some(self.connection_locations[i].1),
            None => None,
        }
    }

    pub fn get_session(&self, sid: SessionId) -> (r: Option<&Session>)
        requires
            self.wf(),
        ensures
            r is Some <==> self.sessions().contains_key(sid),
            r matches Some(s) ==> *s == self.sessions()[sid],
    {
        proof {
            lemma_to_map_get(self.sessions@, sid);
        }
        match self.find_session(sid) {
            Some(i) => Some(&self.sessions[i].1),
            None => None,
        }
    }

    /// The connections of a session, in the order they joined.
    pub fn connection_ids_in_session(&self, sid: SessionId) -> (r: Result<Vec<ConnectionId>, ServerError>)
        requires
            self.wf(),
        ensures
            r is Err <==> !self.sessions().contains_key(sid),
            r is Err ==> r == Err::<Vec<ConnectionId>, ServerError>(ServerError::InvalidCommandForState),
            r matches Ok(v) ==> v@ == self.sessions()[sid].conns(),
    {
        match self.get_session(sid) {
            Some(s) => Ok(s.connection_ids()),
            None => Err(ServerError::InvalidCommandForState),
        }
    }

    /// Takes the session at index `i` out of the table.
    fn take_session(&mut self, i: usize) -> (r: (SessionId, Session))
        requires
            keys_unique(old(self).sessions@),
            i < old(self).sessions@.len(),
        ensures
            r == old(self).sessions@[i as int],
            keys_unique(final(self).sessions@),
            final(self).sessions() == old(self).sessions().remove(r.0),
            final(self).file_sessions == old(self).file_sessions,
            final(self).connection_locations == old(self).connection_locations,
            final(self).connection_id_source == old(self).connection_id_source,
            final(self).session_id_source == old(self).session_id_source,
            old(self).sessions().contains_key(r.0) && old(self).sessions()[r.0] == r.1,
    {
        proof {
            lemma_to_map_swap_remove(self.sessions@, i as int);
            crate::table::lemma_to_map_index(self.sessions@, i as int);
        }
        self.sessions.swap_remove(i)
    }

    /// Puts a session back under an id that is not in the table.
    fn put_session(&mut self, sid: SessionId, s: Session)
        requires
            keys_unique(old(self).sessions@),
            !old(self).sessions().contains_key(sid),
        ensures
            keys_unique(final(self).sessions@),
            final(self).sessions() == old(self).sessions().insert(sid, s),
            final(self).file_sessions == old(self).file_sessions,
            final(self).connection_locations == old(self).connection_locations,
            final(self).connection_id_source == old(self).connection_id_source,
            final(self).session_id_source == old(self).session_id_source,
    {
        proof {
            lemma_to_map_contains(self.sessions@, sid);
            lemma_to_map_push(self.sessions@, sid, s);
        }
        self.sessions.push((sid, s));
    }

    /// Creates a session for a file that has none, under a fresh session id.
    pub fn create_session(&mut self, file_id: FileId, storage: DocumentStorage, behavior: SessionBehavior) -> (r: Result<SessionId, ServerError>)
        requires
            old(self).wf(),
            storage.wf(),
        ensures
            final(self).wf(),
            final(self).locations() == old(self).locations(),
            final(self).last_connection_id() == old(self).last_connection_id(),
            final(self).last_session_id() == next_u32(old(self).last_session_id()),
            old(self).files().contains_key(file_id) ==> r == Err::<SessionId, ServerError>(
                ServerError::SessionAlreadyCreatedForFileId,
            ),
            !old(self).files().contains_key(file_id) && old(self).sessions().contains_key(
                next_u32(old(self).last_session_id()),
            ) ==> r == Err::<SessionId, ServerError>(ServerError::InvalidSessionId),
            !old(self).files().contains_key(file_id) && !old(self).sessions().contains_key(
                next_u32(old(self).last_session_id()),
            ) ==> r is Ok,
            r is Err ==> final(self).sessions() == old(self).sessions() && final(self).files() == old(self).files(),
            r matches Ok(sid) ==> {
                &&& sid == next_u32(old(self).last_session_id())
                &&& !old(self).sessions().contains_key(sid)
                &&& !old(self).files().contains_key(file_id)
                &&& final(self).sessions().dom() == old(self).sessions().dom().insert(sid)
                &&& forall|k: SessionId| #[trigger]
                    old(self).sessions().contains_key(k) ==> final(self).sessions()[k] == old(self).sessions()[k]
                &&& final(self).sessions()[sid].file() == file_id
                &&& final(self).sessions()[sid].mode() == behavior
                &&& final(self).sessions()[sid].conns() == Seq::<ConnectionId>::empty()
                &&& final(self).sessions()[sid].model() == storage@
                &&& final(self).sessions()[sid].queue().len() == 0
                &&& final(self).files() == old(self).files().insert(file_id, sid)
            },
    {
        self.session_id_source = if self.session_id_source == u32::MAX {
            0
        } else {
            self.session_id_source + 1
        };
        let sid = self.session_id_source;
        if self.find_file(file_id).is_some() {
            proof {
                lemma_to_map_contains(self.file_sessions@, file_id);
                assert(self.sessions() == old(self).sessions());
                assert(self.files() == old(self).files());
                assert(self.locations() == old(self).locations());
            }
            return Err(ServerError::SessionAlreadyCreatedForFileId);
        }
        proof {
            lemma_to_map_contains(self.file_sessions@, file_id);
        }
        if self.find_session(sid).is_some() {
            proof {
                lemma_to_map_contains(self.sessions@, sid);
                assert(self.sessions() == old(self).sessions());
                assert(self.files() == old(self).files());
                assert(self.locations() == old(self).locations());
            }
            return Err(ServerError::InvalidSessionId);
        }
        proof {
            lemma_to_map_contains(self.sessions@, sid);
        }
        let ghost old_sessions = old(self).sessions();
        let ghost old_files = old(self).files();
        let session = Session::new(file_id, storage, behavior);
        self.put_session(sid, session);
        proof {
            lemma_to_map_push(self.file_sessions@, file_id, sid);
        }
        self.file_sessions.push((file_id, sid));
        proof {
            assert(self.sessions().dom() =~= old_sessions.dom().insert(sid));
            assert forall|k: SessionId| #[trigger] self.sessions().contains_key(k) implies self.sessions()[k].wf() by {
                if k != sid {
                    assert(old_sessions.contains_key(k));
                }
            }
            assert forall|k: SessionId| #[trigger] self.sessions().contains_key(k) implies self.files().contains_key(
                self.sessions()[k].file(),
            ) && self.files()[self.sessions()[k].file()] == k by {
                if k != sid {
                    assert(old_sessions.contains_key(k));
                    assert(old_files.contains_key(old_sessions[k].file()));
                }
            }
            assert forall|f: FileId| #[trigger] self.files().contains_key(f) implies self.sessions().contains_key(self.files()[f])
                && self.sessions()[self.files()[f]].file() == f by {
                if f != file_id {
                    assert(old_files.contains_key(f));
                    assert(old_sessions.contains_key(old_files[f]));
                }
            }
            assert forall|c: ConnectionId| #[trigger] self.locations().contains_key(c) implies self.sessions().contains_key(self.locations()[c])
                && self.sessions()[self.locations()[c]].conns().contains(c) by {
                assert(old(self).locations().contains_key(c));
                assert(old_sessions.contains_key(old(self).locations()[c]));
            }
            assert forall|k: SessionId, c: ConnectionId|
                self.sessions().contains_key(k) && #[trigger] self.sessions()[k].conns().contains(c) implies self.locations().contains_key(c)
                && self.locations()[c] == k by {
                if k != sid {
                    assert(old_sessions.contains_key(k));
                    assert(old_sessions[k].conns().contains(c));
                }
            }
        }
        Ok(sid)
    }

    /// Adds a fresh connection to the session of a file.
    pub fn join_session(&mut self, file_id: FileId) -> (r: Result<(SessionId, ConnectionId), ServerError>)
        requires
            old(self).wf(),
        ensures
            final(self).wf(),
            final(self).files() == old(self).files(),
            final(self).last_session_id() == old(self).last_session_id(),
            !old(self).files().contains_key(file_id) ==> r == Err::<(SessionId, ConnectionId), ServerError>(
                ServerError::NoSessionForFile,
            ) && final(self).last_connection_id() == old(self).last_connection_id(),
            old(self).files().contains_key(file_id) ==> final(self).last_connection_id() == next_u16(
                old(self).last_connection_id(),
            ),
            old(self).files().contains_key(file_id) && old(self).locations().contains_key(
                next_u16(old(self).last_connection_id()),
            ) ==> r == Err::<(SessionId, ConnectionId), ServerError>(ServerError::InvalidCommandForState),
            old(self).files().contains_key(file_id) && !old(self).locations().contains_key(
                next_u16(old(self).last_connection_id()),
            ) ==> r is Ok,
            r is Err ==> final(self).sessions() == old(self).sessions() && final(self).locations() == old(self).locations(),
            r matches Ok((sid, c)) ==> {
                &&& old(self).files().contains_key(file_id) && sid == old(self).files()[file_id]
                &&& c == next_u16(old(self).last_connection_id())
                &&& !old(self).locations().contains_key(c)
                &&& final(self).locations() == old(self).locations().insert(c, sid)
                &&& same_except(final(self).sessions(), old(self).sessions(), sid)
                &&& final(self).sessions()[sid].conns() == old(self).sessions()[sid].conns().push(c)
                &&& final(self).sessions()[sid].file() == old(self).sessions()[sid].file()
                &&& final(self).sessions()[sid].mode() == old(self).sessions()[sid].mode()
                &&& final(self).sessions()[sid].model() == old(self).sessions()[sid].model()
                &&& final(self).sessions()[sid].queue() == old(self).sessions()[sid].queue()
            },
    {
        let sid = match self.session_id(file_id) {
            Some(sid) => sid,
            None => {
                return Err(ServerError::NoSessionForFile);
            },
        };
        self.connection_id_source = if self.connection_id_source == u16::MAX {
            0
        } else {
            self.connection_id_source + 1
        };
        let c = self.connection_id_source;
        if self.find_location(c).is_some() {
            proof {
                lemma_to_map_contains(self.connection_locations@, c);
                assert(self.sessions() == old(self).sessions());
                assert(self.locations() == old(self).locations());
            }
            return Err(ServerError::InvalidCommandForState);
        }
        proof {
            lemma_to_map_contains(self.connection_locations@, c);
        }
        let i = match self.find_session(sid) {
            Some(i) => i,
            None => {
                proof {
                    lemma_to_map_contains(self.sessions@, sid);
                }
                return Err(ServerError::InvalidSessionId);
            },
        };
        let ghost old_sessions = old(self).sessions();
        let ghost old_files = old(self).files();
        let (sid, mut session) = self.take_session(i);
        session.add_connection(c);
        self.put_session(sid, session);
        proof {
            lemma_to_map_push(self.connection_locations@, c, sid);
        }
        self.connection_locations.push((c, sid));
        proof {
            assert(self.sessions().dom() =~= old_sessions.dom());
            assert forall|k: SessionId| #[trigger] self.sessions().contains_key(k) implies self.sessions()[k].wf() by {
                if k != sid {
                    assert(old_sessions.contains_key(k));
                }
            }
            assert forall|k: SessionId| #[trigger] self.sessions().contains_key(k) implies self.files().contains_key(
                self.sessions()[k].file(),
            ) && self.files()[self.sessions()[k].file()] == k by {
                assert(old_sessions.contains_key(k));
            }
            assert forall|f: FileId| #[trigger] self.files().contains_key(f) implies self.sessions().contains_key(self.files()[f])
                && self.sessions()[self.files()[f]].file() == f by {
                assert(old_files.contains_key(f));
                assert(old_sessions.contains_key(old_files[f]));
            }
            let old_locs = old(self).locations();
            assert forall|c2: ConnectionId| #[trigger] self.locations().contains_key(c2) implies self.sessions().contains_key(self.locations()[c2])
                && self.sessions()[self.locations()[c2]].conns().contains(c2) by {
                if c2 == c {
                    assert(self.sessions()[sid].conns()[old_sessions[sid].conns().len() as int] == c);
                } else {
                    assert(old_locs.contains_key(c2));
                    let s0 = old_locs[c2];
                    assert(old_sessions.contains_key(s0) && old_sessions[s0].conns().contains(c2));
                    if s0 == sid {
                        crate::transaction_manager::lemma_push_keeps(old_sessions[sid].conns(), c);
                    }
                }
            }
            assert forall|k: SessionId, c2: ConnectionId|
                self.sessions().contains_key(k) && #[trigger] self.sessions()[k].conns().contains(c2) implies self.locations().contains_key(c2)
                && self.locations()[c2] == k by {
                assert(old_sessions.contains_key(k));
                if k == sid {
                    let rs = old_sessions[sid].conns();
                    let j = choose|j: int| 0 <= j < rs.push(c).len() && rs.push(c)[j] == c2;
                    if j < rs.len() {
                        assert(rs[j] == c2);
                        assert(rs.contains(c2));
                    }
                } else {
                    assert(old_sessions[k].conns().contains(c2));
                }
            }
        }
        Ok((sid, c))
    }

    /// Takes a connection out of its session: out of the location table, and out of the
    /// session's roster when the session still exists.
    pub fn leave_session(&mut self, c: ConnectionId) -> (r: Option<SessionId>)
        requires
            old(self).wf(),
        ensures
            final(self).wf(),
            final(self).files() == old(self).files(),
            final(self).last_connection_id() == old(self).last_connection_id(),
            final(self).last_session_id() == old(self).last_session_id(),
            r is None <==> !old(self).locations().contains_key(c),
            r is None ==> final(self).sessions() == old(self).sessions() && final(self).locations()
                == old(self).locations(),
            r matches Some(sid) ==> {
                &&& sid == old(self).locations()[c]
                &&& final(self).locations() == old(self).locations().remove(c)
                &&& same_except(final(self).sessions(), old(self).sessions(), sid)
                &&& old(self).sessions().contains_key(sid) ==> {
                    &&& final(self).sessions()[sid].conns() == without(old(self).sessions()[sid].conns(), c)
                    &&& final(self).sessions()[sid].file() == old(self).sessions()[sid].file()
                    &&& final(self).sessions()[sid].mode() == old(self).sessions()[sid].mode()
                    &&& final(self).sessions()[sid].model() == old(self).sessions()[sid].model()
                    &&& final(self).sessions()[sid].queue() == old(self).sessions()[sid].queue()
                }
            },
    {
        let li = match self.find_location(c) {
            Some(li) => li,
            None => {
                proof {
                    lemma_to_map_contains(self.connection_locations@, c);
                }
                return None;
            },
        };
        proof {
            crate::table::lemma_to_map_index(self.connection_locations@, li as int);
            lemma_to_map_swap_remove(self.connection_locations@, li as int);
        }
        let (_, sid) = self.connection_locations.swap_remove(li);
        let ghost old_sessions = old(self).sessions();
        let ghost old_files = old(self).files();
        match self.find_session(sid) {
            Some(i) => {
                let (sid2, mut session) = self.take_session(i);
                session.drop_connection(c);
                self.put_session(sid2, session);
                proof {
                    assert(self.sessions().dom() =~= old_sessions.dom());
                }
            },
            None => {
                proof {
                    lemma_to_map_contains(self.sessions@, sid);
                    assert(old(self).locations().contains_key(c));
                    assert(false);
                }
            },
        }
        proof {
            assert forall|k: SessionId| #[trigger] self.sessions().contains_key(k) implies self.sessions()[k].wf() by {
                assert(old_sessions.contains_key(k));
            }
            let old_locs = old(self).locations();
            assert(old_locs[c] == sid);
            assert forall|c2: ConnectionId| #[trigger] self.locations().contains_key(c2) implies self.sessions().contains_key(self.locations()[c2])
                && self.sessions()[self.locations()[c2]].conns().contains(c2) by {
                assert(old_locs.contains_key(c2) && c2 != c);
                let s0 = old_locs[c2];
                assert(old_sessions.contains_key(s0) && old_sessions[s0].conns().contains(c2));
                if s0 == sid {
                    crate::session::lemma_without_contains(old_sessions[sid].conns(), c, c2);
                }
            }
            assert forall|k: SessionId, c2: ConnectionId|
                self.sessions().contains_key(k) && #[trigger] self.sessions()[k].conns().contains(c2) implies self.locations().contains_key(c2)
                && self.locations()[c2] == k by {
                assert(old_sessions.contains_key(k));
                if k == sid {
                    crate::session::lemma_without_contains(old_sessions[sid].conns(), c, c2);
                } else {
                    assert(old_sessions[k].conns().contains(c2));
                }
            }
            assert forall|k: SessionId| #[trigger] self.sessions().contains_key(k) implies self.files().contains_key(
                self.sessions()[k].file(),
            ) && self.files()[self.sessions()[k].file()] == k by {
                assert(old_sessions.contains_key(k));
            }
            assert forall|f: FileId| #[trigger] self.files().contains_key(f) implies self.sessions().contains_key(self.files()[f])
                && self.sessions()[self.files()[f]].file() == f by {
                assert(old_files.contains_key(f));
                assert(old_sessions.contains_key(old_files[f]));
            }
        }
        Some(sid)
    }

    /// Forgets the location of every connection in `roster`.
    fn forget_locations(&mut self, roster: &Vec<ConnectionId>)
        requires
            keys_unique(old(self).connection_locations@),
        ensures
            keys_unique(final(self).connection_locations@),
            final(self).sessions == old(self).sessions,
            final(self).file_sessions == old(self).file_sessions,
            final(self).connection_id_source == old(self).connection_id_source,
            final(self).session_id_source == old(self).session_id_source,
            forall|c: ConnectionId| #[trigger] final(self).locations().contains_key(c) <==> (old(self).locations().contains_key(c) && !roster@.contains(c)),
            forall|c: ConnectionId| #[trigger] final(self).locations().contains_key(c) ==> final(self).locations()[c] == old(self).locations()[c],
    {
        let mut i: usize = 0;
        while i < roster.len()
            invariant
                i <= roster@.len(),
                keys_unique(self.connection_locations@),
                self.sessions == old(self).sessions,
                self.file_sessions == old(self).file_sessions,
                self.connection_id_source == old(self).connection_id_source,
                self.session_id_source == old(self).session_id_source,
                forall|c: ConnectionId| #[trigger] self.locations().contains_key(c) <==> (old(self).locations().contains_key(c)
                    && !(exists|j: int| 0 <= j < i && roster@[j] == c)),
                forall|c: ConnectionId| #[trigger] self.locations().contains_key(c) ==> self.locations()[c] == old(self).locations()[c],
            decreases roster@.len() - i,
        {
            let c = roster[i];
            let ghost before = self.locations();
            match self.find_location(c) {
                Some(li) => {
                    proof {
                        crate::table::lemma_to_map_index(self.connection_locations@, li as int);
                        lemma_to_map_swap_remove(self.connection_locations@, li as int);
                    }
                    self.connection_locations.swap_remove(li);
                    assert(self.locations() == before.remove(c));
                },
                None => {
                    proof {
                        lemma_to_map_contains(self.connection_locations@, c);
                    }
                },
            }
            proof {
                assert forall|x: ConnectionId| #[trigger] self.locations().contains_key(x) <==> (old(self).locations().contains_key(x)
                    && !(exists|j: int| 0 <= j < i + 1 && roster@[j] == x)) by {
                    if exists|j: int| 0 <= j < i + 1 && roster@[j] == x {
                        let j = choose|j: int| 0 <= j < i + 1 && roster@[j] == x;
                        if j < i {
                            assert(exists|j2: int| 0 <= j2 < i && roster@[j2] == x);
                        }
                    }
                    if x == c {
                        assert(roster@[i as int] == x);
                    }
                }
            }
            i = i + 1;
        }
        proof {
            assert forall|x: ConnectionId| #[trigger] roster@.contains(x) <==> exists|j: int| 0 <= j < roster@.len() && roster@[j] == x by {}
        }
    }

    /// Removes a session and its file's entry, forgets where its connections were, and
    /// hands the session back.
    pub fn terminate_session(&mut self, sid: SessionId) -> (r: Option<Session>)
        requires
            old(self).wf(),
        ensures
            final(self).wf(),
            r is None ==> final(self).locations() == old(self).locations(),
            r matches Some(s) ==> forall|c: ConnectionId| #[trigger] final(self).locations().contains_key(c)
                <==> (old(self).locations().contains_key(c) && !s.conns().contains(c)),
            forall|c: ConnectionId| #[trigger] final(self).locations().contains_key(c) ==> final(self).locations()[c] == old(self).locations()[c],
            final(self).last_connection_id() == old(self).last_connection_id(),
            final(self).last_session_id() == old(self).last_session_id(),
            r is None <==> !old(self).sessions().contains_key(sid),
            r is None ==> final(self).sessions() == old(self).sessions() && final(self).files() == old(self).files(),
            r matches Some(s) ==> {
                &&& s == old(self).sessions()[sid]
                &&& final(self).sessions() == old(self).sessions().remove(sid)
                &&& final(self).files() == old(self).files().remove(s.file())
            },
    {
        let i = match self.find_session(sid) {
            Some(i) => i,
            None => {
                proof {
                    lemma_to_map_contains(self.sessions@, sid);
                }
                return None;
            },
        };
        let ghost old_sessions = self.sessions();
        let ghost old_files = self.files();
        let (_, session) = self.take_session(i);
        let fi = match self.find_file(session.get_file_id()) {
            Some(fi) => fi,
            None => {
                proof {
                    lemma_to_map_contains(self.file_sessions@, session.file());
                    assert(false);
                }
                return None;
            },
        };
        proof {
            lemma_to_map_swap_remove(self.file_sessions@, fi as int);
        }
        self.file_sessions.swap_remove(fi);
        let roster = session.connection_ids();
        self.forget_locations(&roster);
        proof {
            let old_locs = old(self).locations();
            assert forall|c2: ConnectionId| #[trigger] self.locations().contains_key(c2) implies self.sessions().contains_key(self.locations()[c2])
                && self.sessions()[self.locations()[c2]].conns().contains(c2) by {
                assert(old_locs.contains_key(c2));
                let s0 = old_locs[c2];
                assert(old_sessions.contains_key(s0) && old_sessions[s0].conns().contains(c2));
                if s0 == sid {
                    assert(session.conns().contains(c2));
                }
            }
            assert forall|k: SessionId, c2: ConnectionId|
                self.sessions().contains_key(k) && #[trigger] self.sessions()[k].conns().contains(c2) implies self.locations().contains_key(c2)
                && self.locations()[c2] == k by {
                assert(old_sessions.contains_key(k) && old_sessions[k].conns().contains(c2));
                assert(old_locs[c2] == k);
                if session.conns().contains(c2) {
                    assert(old_sessions[sid].conns().contains(c2));
                }
            }
            assert forall|k: SessionId| #[trigger] self.sessions().contains_key(k) implies self.sessions()[k].wf() by {
                assert(old_sessions.contains_key(k));
            }
            assert forall|k: SessionId| #[trigger] self.sessions().contains_key(k) implies self.files().contains_key(
                self.sessions()[k].file(),
            ) && self.files()[self.sessions()[k].file()] == k by {
                assert(old_sessions.contains_key(k));
                assert(old_files[old_sessions[k].file()] == k);
            }
            assert forall|f: FileId| #[trigger] self.files().contains_key(f) implies self.sessions().contains_key(self.files()[f])
                && self.sessions()[self.files()[f]].file() == f by {
                assert(old_files.contains_key(f));
                assert(old_sessions.contains_key(old_files[f]));
            }
        }
        Some(session)
    }

    /// Hands a transaction to a session; `None` when there is no such session.
    pub fn handle_transaction(&mut self, sid: SessionId, from: ConnectionId, tx: Transaction) -> (r: Option<
        Result<Option<Transaction>, RollbackReason>,
    >)
        requires
            old(self).wf(),
        ensures
            final(self).wf(),
            final(self).files() == old(self).files(),
            final(self).locations() == old(self).locations(),
            final(self).last_connection_id() == old(self).last_connection_id(),
            final(self).last_session_id() == old(self).last_session_id(),
            r is None <==> !old(self).sessions().contains_key(sid),
            r is None ==> final(self).sessions() == old(self).sessions(),
            r matches Some(res) ==> same_except(final(self).sessions(), old(self).sessions(), sid)
                && transaction_handled(old(self).sessions()[sid], final(self).sessions()[sid], from, tx, res),
    {
        let i = match self.find_session(sid) {
            Some(i) => i,
            None => {
                proof {
                    lemma_to_map_contains(self.sessions@, sid);
                }
                return None;
            },
        };
        let ghost old_sessions = self.sessions();
        let ghost old_files = self.files();
        let (sid2, mut session) = self.take_session(i);
        let res = session.handle_transaction(from, tx);
        self.put_session(sid2, session);
        proof {
            assert(self.sessions().dom() =~= old_sessions.dom());
            assert forall|k: SessionId| #[trigger] self.sessions().contains_key(k) implies self.sessions()[k].wf() by {
                assert(old_sessions.contains_key(k));
            }
            assert forall|k: SessionId| #[trigger] self.sessions().contains_key(k) implies self.files().contains_key(
                self.sessions()[k].file(),
            ) && self.files()[self.sessions()[k].file()] == k by {
                assert(old_sessions.contains_key(k));
            }
            assert forall|f: FileId| #[trigger] self.files().contains_key(f) implies self.sessions().contains_key(self.files()[f])
                && self.sessions()[self.files()[f]].file() == f by {
                assert(old_files.contains_key(f));
                assert(old_sessions.contains_key(old_files[f]));
            }
        }
        proof {
            let old_locs = old(self).locations();
            assert forall|c2: ConnectionId| #[trigger] self.locations().contains_key(c2) implies self.sessions().contains_key(self.locations()[c2])
                && self.sessions()[self.locations()[c2]].conns().contains(c2) by {
                assert(old_locs.contains_key(c2));
                let s0 = old_locs[c2];
                assert(old_sessions.contains_key(s0) && old_sessions[s0].conns().contains(c2));
            }
            assert forall|k: SessionId, c2: ConnectionId|
                self.sessions().contains_key(k) && #[trigger] self.sessions()[k].conns().contains(c2) implies self.locations().contains_key(c2)
                && self.locations()[c2] == k by {
                assert(old_sessions.contains_key(k) && old_sessions[k].conns().contains(c2));
            }
        }
        Some(res)
    }

    /// Commits the oldest queued transaction of a session; `InvalidRequest` when there is
    /// no such session.
    pub fn commit_pending_transaction(&mut self, sid: SessionId) -> (r: Result<
        Option<PendingTransactionCommitResult>,
        PendingTransactionCommitError,
    >)
        requires
            old(self).wf(),
        ensures
            final(self).wf(),
            final(self).files() == old(self).files(),
            final(self).locations() == old(self).locations(),
            final(self).last_connection_id() == old(self).last_connection_id(),
            final(self).last_session_id() == old(self).last_session_id(),
            !old(self).sessions().contains_key(sid) ==> r == Err::<
                Option<PendingTransactionCommitResult>,
                PendingTransactionCommitError,
            >(PendingTransactionCommitError::InvalidRequest) && final(self).sessions() == old(self).sessions(),
            old(self).sessions().contains_key(sid) ==> same_except(final(self).sessions(), old(self).sessions(), sid)
                && pending_committed(old(self).sessions()[sid], final(self).sessions()[sid], r),
    {
        let i = match self.find_session(sid) {
            Some(i) => i,
            None => {
                proof {
                    lemma_to_map_contains(self.sessions@, sid);
                }
                return Err(PendingTransactionCommitError::InvalidRequest);
            },
        };
        let ghost old_sessions = self.sessions();
        let ghost old_files = self.files();
        let (sid2, mut session) = self.take_session(i);
        let res = session.commit_pending_transaction();
        self.put_session(sid2, session);
        proof {
            assert(self.sessions().dom() =~= old_sessions.dom());
            assert forall|k: SessionId| #[trigger] self.sessions().contains_key(k) implies self.sessions()[k].wf() by {
                assert(old_sessions.contains_key(k));
            }
            assert forall|k: SessionId| #[trigger] self.sessions().contains_key(k) implies self.files().contains_key(
                self.sessions()[k].file(),
            ) && self.files()[self.sessions()[k].file()] == k by {
                assert(old_sessions.contains_key(k));
            }
            assert forall|f: FileId| #[trigger] self.files().contains_key(f) implies self.sessions().contains_key(self.files()[f])
                && self.sessions()[self.files()[f]].file() == f by {
                assert(old_files.contains_key(f));
                assert(old_sessions.contains_key(old_files[f]));
            }
        }
        proof {
            let old_locs = old(self).locations();
            assert forall|c2: ConnectionId| #[trigger] self.locations().contains_key(c2) implies self.sessions().contains_key(self.locations()[c2])
                && self.sessions()[self.locations()[c2]].conns().contains(c2) by {
                assert(old_locs.contains_key(c2));
                let s0 = old_locs[c2];
                assert(old_sessions.contains_key(s0) && old_sessions[s0].conns().contains(c2));
            }
            assert forall|k: SessionId, c2: ConnectionId|
                self.sessions().contains_key(k) && #[trigger] self.sessions()[k].conns().contains(c2) implies self.locations().contains_key(c2)
                && self.locations()[c2] == k by {
                assert(old_sessions.contains_key(k) && old_sessions[k].conns().contains(c2));
            }
        }
        res
    }
}

/// At most one session serves a file: two sessions of the same file are the same session.
pub proof fn lemma_single_session_per_file(st: ServerState, s1: SessionId, s2: SessionId)
    requires
        st.wf(),
        st.sessions().contains_key(s1),
        st.sessions().contains_key(s2),
        st.sessions()[s1].file() == st.sessions()[s2].file(),
    ensures
        s1 == s2,
{
}

} // verus!

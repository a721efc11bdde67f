use vstd::prelude::*;

use crate::client_follower_document::same_tx;
use crate::document_storage::DocumentStorage;
use crate::message::{ConnectionId, FileId, RollbackReason, SessionSnapshot, Transaction, TransactionId};
use crate::model::{apply_items, DocModel};
use crate::server_leader_document::ServerLeaderDocument;

verus! {

#[derive(Debug, Clone, Copy, PartialEq, Eq, Structural)]
pub enum SessionBehavior {
    /// Transactions commit at once; the session ends when its last connection leaves.
    AutoTerminateWhenEmpty,
    /// Transactions queue until an administrator commits them one by one.
    ManualCommitByAdmin,
}

/// A transaction waiting for an administrator, with the connection it came from.
#[derive(Debug)]
pub struct PendingTransactionItem {
    pub from: ConnectionId,
    pub tx: Transaction,
}

#[derive(Debug)]
pub struct PendingTransactionCommitResult {
    pub from: ConnectionId,
    pub tx: Transaction,
}

#[derive(Debug, Clone, Copy, PartialEq, Eq, Structural)]
pub enum PendingTransactionCommitError {
    InvalidRequest,
    Rollback { from: ConnectionId, tx_id: TransactionId },
}

/// The connections of one file, its authoritative document, and its commit policy.
#[derive(Debug)]
pub struct Session {
    pub file_id: FileId,
    pub connections: Vec<ConnectionId>,
    document: ServerLeaderDocument,
    pub behavior: SessionBehavior,
    pending_txs: Vec<PendingTransactionItem>,
}

/// The sequence without the element `c`.
pub open spec fn without(s: Seq<ConnectionId>, c: ConnectionId) -> Seq<ConnectionId>
    decreases s.len(),
{
    if s.len() == 0 {
        s
    } else if s.last() == c {
        without(s.drop_last(), c)
    } else {
        without(s.drop_last(), c).push(s.last())
    }
}

pub proof fn lemma_without_idempotent(s: Seq<ConnectionId>, c: ConnectionId)
    ensures
        without(without(s, c), c) == without(s, c),
    decreases s.len(),
{
    if s.len() > 0 {
        lemma_without_idempotent(s.drop_last(), c);
        if s.last() != c {
            let w = without(s.drop_last(), c);
            assert(w.push(s.last()).drop_last() =~= w);
        }
    }
}

/// What stays after removing `c`: exactly the other elements.
pub proof fn lemma_without_contains(s: Seq<ConnectionId>, c: ConnectionId, x: ConnectionId)
    ensures
        without(s, c).contains(x) <==> (s.contains(x) && x != c),
    decreases s.len(),
{
    if s.len() > 0 {
        let d = s.drop_last();
        lemma_without_contains(d, c, x);
        let w = without(d, c);
        if s.contains(x) && x != c {
            let i = choose|i: int| 0 <= i < s.len() && s[i] == x;
            if i < s.len() - 1 {
                assert(d[i] == x);
            }
        }
        if d.contains(x) {
            let i = choose|i: int| 0 <= i < d.len() && d[i] == x;
            assert(s[i] == x);
        }
        if s.last() != c {
            let w2 = w.push(s.last());
            if w2.contains(x) {
                let i = choose|i: int| 0 <= i < w2.len() && w2[i] == x;
                if i < w.len() {
                    assert(w[i] == x);
                } else {
                    assert(s[s.len() - 1] == x);
                }
            }
            if w.contains(x) {
                let i = choose|i: int| 0 <= i < w.len() && w[i] == x;
                assert(w2[i] == x);
            }
            if x == s.last() && x != c {
                assert(w2[w.len() as int] == x);
            }
        }
    }
}

/// Removes every occurrence of `c`, keeping the order of the rest.
pub fn remove_connection(v: &mut Vec<ConnectionId>, c: ConnectionId)
    ensures
        final(v)@ == without(old(v)@, c),
{
    let mut r: Vec<ConnectionId> = Vec::new();
    let mut i: usize = 0;
    while i < v.len()
        invariant
            i <= v@.len(),
            v@ == old(v)@,
            r@ == without(v@.subrange(0, i as int), c),
        decreases v@.len() - i,
    {
        assert(v@.subrange(0, i + 1).drop_last() =~= v@.subrange(0, i as int));
        if v[i] != c {
            r.push(v[i]);
        }
        i = i + 1;
    }
    assert(v@.subrange(0, v@.len() as int) =~= v@);
    *v = r;
}

impl Session {
    pub closed spec fn wf(&self) -> bool {
        self.document.wf()
    }

    pub closed spec fn file(&self) -> FileId {
        self.file_id
    }

    pub closed spec fn conns(&self) -> Seq<ConnectionId> {
        self.connections@
    }

    pub closed spec fn mode(&self) -> SessionBehavior {
        self.behavior
    }

    /// The committed document.
    pub closed spec fn model(&self) -> DocModel {
        self.document.model()
    }

    /// Transactions waiting for an administrator, oldest first.
    pub closed spec fn queue(&self) -> Seq<PendingTransactionItem> {
        self.pending_txs@
    }

    pub fn new(file_id: FileId, storage: DocumentStorage, behavior: SessionBehavior) -> (r: Session)
        requires
            storage.wf(),
        ensures
            r.wf(),
            r.file() == file_id,
            r.conns() == Seq::<ConnectionId>::empty(),
            r.mode() == behavior,
            r.model() == storage@,
            r.queue() == Seq::<PendingTransactionItem>::empty(),
    {
        Session {
            file_id,
            connections: Vec::new(),
            document: ServerLeaderDocument::new(storage),
            behavior,
            pending_txs: Vec::new(),
        }
    }

    pub fn get_file_id(&self) -> (r: FileId)
        ensures
            r == self.file(),
    {
        self.file_id
    }

    pub fn get_behavior(&self) -> (r: SessionBehavior)
        ensures
            r == self.mode(),
    {
        self.behavior
    }

    /// The roster, in the order the connections joined.
    pub fn connection_ids(&self) -> (r: Vec<ConnectionId>)
        ensures
            r@ == self.conns(),
    {
        self.connections.clone()
    }

    pub fn snapshot(&self) -> (r: SessionSnapshot)
        ensures
            r.connections@ == self.conns(),
    {
        SessionSnapshot { connections: self.connections.clone() }
    }

    /// True exactly for an automatic session without connections.
    pub fn should_terminate(&self) -> (r: bool)
        ensures
            r == (self.mode() == SessionBehavior::AutoTerminateWhenEmpty && self.conns().len() == 0),
    {
        match self.behavior {
            SessionBehavior::AutoTerminateWhenEmpty => self.connections.len() == 0,
            _ => false,
        }
    }

    /// Adds a connection at the end of the roster.
    pub fn add_connection(&mut self, c: ConnectionId)
        requires
            old(self).wf(),
        ensures
            final(self).wf(),
            final(self).file() == old(self).file(),
            final(self).mode() == old(self).mode(),
            final(self).model() == old(self).model(),
            final(self).queue() == old(self).queue(),
            final(self).conns() == old(self).conns().push(c),
    {
        self.connections.push(c);
    }

    /// Takes every occurrence of a connection out of the roster.
    pub fn drop_connection(&mut self, c: ConnectionId)
        requires
            old(self).wf(),
        ensures
            final(self).wf(),
            final(self).file() == old(self).file(),
            final(self).mode() == old(self).mode(),
            final(self).model() == old(self).model(),
            final(self).queue() == old(self).queue(),
            final(self).conns() == without(old(self).conns(), c),
    {
        remove_connection(&mut self.connections, c);
    }

    pub fn document(&self) -> (r: &ServerLeaderDocument)
        ensures
            self.wf() ==> r.wf(),
            r.model() == self.model(),
    {
        &self.document
    }

    pub fn has_pending_transactions(&self) -> (r: bool)
        ensures
            r == (self.queue().len() > 0),
    {
        self.pending_txs.len() > 0
    }

    /// An automatic session commits the transaction and returns it for acknowledgement and
    /// broadcast; a manual one queues it and returns `None`.
    pub fn handle_transaction(&mut self, from: ConnectionId, tx: Transaction) -> (r: Result<
        Option<Transaction>,
        RollbackReason,
    >)
        requires
            old(self).wf(),
        ensures
            final(self).wf(),
            transaction_handled(*old(self), *final(self), from, tx, r),
    {
        match self.behavior {
            SessionBehavior::AutoTerminateWhenEmpty => {
                match self.document.process_transaction(tx) {
                    Ok(t) => Ok(Some(t)),
                    Err(e) => Err(e),
                }
            },
            SessionBehavior::ManualCommitByAdmin => {
                self.pending_txs.push(PendingTransactionItem { from, tx });
                assert(self.pending_txs@.drop_last() =~= old(self).pending_txs@);
                Ok(None)
            },
        }
    }

    /// Commits the oldest queued transaction of a manual session. Fails with
    /// `InvalidRequest`, changing nothing, for an automatic session or an empty queue.
    pub fn commit_pending_transaction(&mut self) -> (r: Result<
        Option<PendingTransactionCommitResult>,
        PendingTransactionCommitError,
    >)
        requires
            old(self).wf(),
        ensures
            final(self).wf(),
            pending_committed(*old(self), *final(self), r),
    {
        match self.behavior {
            SessionBehavior::AutoTerminateWhenEmpty => Err(
                PendingTransactionCommitError::InvalidRequest,
            ),
            SessionBehavior::ManualCommitByAdmin => {
                if self.pending_txs.len() == 0 {
                    return Err(PendingTransactionCommitError::InvalidRequest);
                }
                let item = self.pending_txs.remove(0);
                assert(self.pending_txs@ =~= old(self).pending_txs@.drop_first());
                let from = item.from;
                let tx_id = item.tx.id;
                match self.document.process_transaction(item.tx) {
                    Ok(tx) => Ok(Some(PendingTransactionCommitResult { from, tx })),
                    Err(_) => Err(PendingTransactionCommitError::Rollback { from, tx_id }),
                }
            },
        }
    }
}

/// What `Session::handle_transaction` does.
pub open spec fn transaction_handled(
    before: Session,
    after: Session,
    from: ConnectionId,
    tx: Transaction,
    r: Result<Option<Transaction>, RollbackReason>,
) -> bool {
    &&& after.file() == before.file()
    &&& after.conns() == before.conns()
    &&& after.mode() == before.mode()
    &&& before.mode() == SessionBehavior::AutoTerminateWhenEmpty ==> {
        &&& r matches Ok(Some(t)) && same_tx(t, tx)
        &&& after.model() == apply_items(before.model(), tx.items@)
        &&& after.queue() == before.queue()
    }
    &&& before.mode() == SessionBehavior::ManualCommitByAdmin ==> {
        &&& r == Ok::<Option<Transaction>, RollbackReason>(None)
        &&& after.model() == before.model()
        &&& after.queue().len() == before.queue().len() + 1
        &&& after.queue().drop_last() == before.queue()
        &&& after.queue().last().from == from
        &&& after.queue().last().tx == tx
    }
}

/// What `Session::commit_pending_transaction` does.
pub open spec fn pending_committed(
    before: Session,
    after: Session,
    r: Result<Option<PendingTransactionCommitResult>, PendingTransactionCommitError>,
) -> bool {
    &&& after.file() == before.file()
    &&& after.conns() == before.conns()
    &&& after.mode() == before.mode()
    &&& (before.mode() == SessionBehavior::AutoTerminateWhenEmpty || before.queue().len() == 0)
        ==> r == Err::<Option<PendingTransactionCommitResult>, PendingTransactionCommitError>(
        PendingTransactionCommitError::InvalidRequest,
    ) && after.model() == before.model() && after.queue() == before.queue()
    &&& (before.mode() == SessionBehavior::ManualCommitByAdmin && before.queue().len() > 0) ==> {
        let head = before.queue()[0];
        &&& r matches Ok(Some(c)) && c.from == head.from && same_tx(c.tx, head.tx)
        &&& after.model() == apply_items(before.model(), head.tx.items@)
        &&& after.queue() == before.queue().drop_first()
    }
}

} // verus!

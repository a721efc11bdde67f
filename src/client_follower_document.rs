use vstd::prelude::*;

use crate::document_command::{command_outcome, convert_command_to_tx, CommandError, DocumentCommand};
use crate::document_storage::DocumentStorage;
use crate::inversion::{inverted_items, lemma_inverse_never_recreates, lemma_inversion_items};
use crate::message::{DocumentMutation, ObjectId, PropKind, PropValue, Transaction, TransactionId};
use crate::model::{apply_items, apply_txs, equivalent, lemma_apply_txs_push, DocModel};
use crate::transaction_manager::{has_id, lemma_push_keeps};
use crate::transactional_document::TransactionalDocument;
use crate::tree::parent_of;

verus! {

/// The objects whose rendering a transaction affects.
pub struct TransactionResult {
    /// No id occurs twice.
    pub invalidated_object_ids: Vec<ObjectId>,
    pub transaction: Transaction,
}

/// Why the follower could not handle a request.
#[derive(Debug, Clone, Copy, PartialEq, Eq, Structural)]
pub enum FollowerError {
    Command(CommandError),
    NothingToUndo,
    NothingToRedo,
    UnknownTransaction,
}

pub open spec fn parent_set(m: DocModel, id: ObjectId) -> Set<ObjectId> {
    match parent_of(m, id) {
        Some(p) => set![p],
        None => Set::empty(),
    }
}

/// The objects one mutation invalidates, read against the state before the transaction.
pub open spec fn invalidated_by_item(m: DocModel, item: DocumentMutation) -> Set<ObjectId> {
    match item {
        DocumentMutation::UpsertProp(id, PropKind::Parent, Some(PropValue::Reference(new_parent))) => parent_set(
            m,
            id,
        ).insert(new_parent),
        DocumentMutation::UpsertProp(id, PropKind::Index, _) => parent_set(m, id),
        DocumentMutation::DeleteObject(id) => parent_set(m, id),
        DocumentMutation::UpsertProp(id, _, _) => set![id],
        DocumentMutation::CreateObject(_, _) => Set::empty(),
    }
}

pub open spec fn invalidated_prefix(m: DocModel, items: Seq<DocumentMutation>, n: int) -> Set<ObjectId>
    decreases n,
{
    if n <= 0 || n > items.len() {
        Set::empty()
    } else {
        invalidated_prefix(m, items, n - 1).union(invalidated_by_item(m, items[n - 1]))
    }
}

/// The invalidation set of a transaction against the state `m` before it.
pub open spec fn invalidated(m: DocModel, items: Seq<DocumentMutation>) -> Set<ObjectId> {
    invalidated_prefix(m, items, items.len() as int)
}

/// The stack without the entries that carry id `id`.
pub open spec fn without_id(s: Seq<Transaction>, id: TransactionId) -> Seq<Transaction>
    decreases s.len(),
{
    if s.len() == 0 {
        s
    } else if s.last().id == id {
        without_id(s.drop_last(), id)
    } else {
        without_id(s.drop_last(), id).push(s.last())
    }
}

/// `t` is the inverse of `of`, read against `m`.
pub open spec fn inverse_of(t: Transaction, of: Transaction, m: DocModel) -> bool {
    t.id == of.id && t.items@ == inverted_items(m, of.items@)
}

/// `r` lists the set `s`, each element once.
pub open spec fn lists_set(r: Seq<ObjectId>, s: Set<ObjectId>) -> bool {
    r.no_duplicates() && forall|x: ObjectId| #[trigger] r.contains(x) <==> s.contains(x)
}

pub(crate) fn add_unique(v: &mut Vec<ObjectId>, x: ObjectId)
    requires
        old(v)@.no_duplicates(),
    ensures
        final(v)@.no_duplicates(),
        forall|y: ObjectId| #[trigger] final(v)@.contains(y) <==> (old(v)@.contains(y) || y == x),
{
    let mut i: usize = 0;
    while i < v.len()
        invariant
            i <= v@.len(),
            v@ == old(v)@,
            v@.no_duplicates(),
            forall|j: int| 0 <= j < i ==> v@[j] != x,
        decreases v@.len() - i,
    {
        if v[i] == x {
            assert(v@[i as int] == x);
            return;
        }
        i = i + 1;
    }
    let ghost before = v@;
    v.push(x);
    proof {
        lemma_push_keeps(before, x);
        assert forall|a: int, b: int| 0 <= a < v@.len() && 0 <= b < v@.len() && a != b implies v@[a] != v@[b] by {
            if a < before.len() && b < before.len() {
                assert(before[a] != before[b]);
            }
        }
        assert forall|y: ObjectId| #[trigger] v@.contains(y) implies (before.contains(y) || y == x) by {
            let j = choose|j: int| 0 <= j < v@.len() && v@[j] == y;
            if j < before.len() {
                assert(before[j] == y);
            }
        }
    }
}

fn retain_without_id(s: &mut Vec<Transaction>, id: TransactionId)
    ensures
        final(s)@ == without_id(old(s)@, id),
{
    let ghost orig = s@;
    let mut r: Vec<Transaction> = Vec::new();
    let ghost mut i: int = 0;
    while s.len() > 0
        invariant
            0 <= i <= orig.len(),
            orig.len() == i + s@.len(),
            s@ == orig.subrange(i as int, orig.len() as int),
            r@ == without_id(orig.subrange(0, i as int), id),
        decreases s@.len(),
    {
        let t = s.remove(0);
        assert(t == orig[i]);
        assert(orig.subrange(0, i + 1).drop_last() =~= orig.subrange(0, i));
        assert(orig.subrange(0, i + 1).last() == orig[i]);
        if t.id != id {
            r.push(t);
        }
        proof {
            i = i + 1;
        }
        assert(s@ =~= orig.subrange(i as int, orig.len() as int));
    }
    assert(orig.subrange(0, i as int) =~= orig);
    *s = r;
}

/// Two transactions with the same id and the same items.
pub open spec fn same_tx(a: Transaction, b: Transaction) -> bool {
    a.id == b.id && a.items@ == b.items@
}

/// The client's optimistic replica: a transactional document with undo and redo stacks.
pub struct ClientFollowerDocument {
    document: TransactionalDocument,
    undo_stack: Vec<Transaction>,
    redo_stack: Vec<Transaction>,
}

impl ClientFollowerDocument {
    pub closed spec fn wf(&self) -> bool {
        self.document.wf()
    }

    pub closed spec fn base(&self) -> DocModel {
        self.document.base()
    }

    pub closed spec fn pending(&self) -> Seq<Transaction> {
        self.document.pending()
    }

    pub closed spec fn model(&self) -> DocModel {
        self.document.model()
    }

    pub closed spec fn doc_id(&self) -> ObjectId {
        self.document.spec_document_id()
    }

    pub closed spec fn undo_stack(&self) -> Seq<Transaction> {
        self.undo_stack@
    }

    pub closed spec fn redo_stack(&self) -> Seq<Transaction> {
        self.redo_stack@
    }

    /// A follower over a committed store, with nothing pending and empty stacks.
    pub fn new(storage: DocumentStorage) -> (r: ClientFollowerDocument)
        requires
            storage.wf(),
        ensures
            r.wf(),
            r.base() == storage@,
            r.pending() == Seq::<Transaction>::empty(),
            r.doc_id() == storage.spec_document_id(),
            r.undo_stack() == Seq::<Transaction>::empty(),
            r.redo_stack() == Seq::<Transaction>::empty(),
    {
        ClientFollowerDocument {
            document: TransactionalDocument::from_storage(storage),
            undo_stack: Vec::new(),
            redo_stack: Vec::new(),
        }
    }

    /// The reader that materialization and conversion go through.
    pub fn document(&self) -> (r: &TransactionalDocument)
        ensures
            r.wf() == self.wf(),
            r.model() == self.model(),
            r.base() == self.base(),
            r.pending() == self.pending(),
            r.spec_document_id() == self.doc_id(),
    {
        &self.document
    }

    pub fn undo_len(&self) -> (r: usize)
        ensures
            r == self.undo_stack().len(),
    {
        self.undo_stack.len()
    }

    pub fn redo_len(&self) -> (r: usize)
        ensures
            r == self.redo_stack().len(),
    {
        self.redo_stack.len()
    }

    /// Whether some entry of the undo or redo stack carries this id.
    pub fn stacks_mention(&self, tx_id: TransactionId) -> (r: bool)
        ensures
            r == (has_id(self.undo_stack(), tx_id) || has_id(self.redo_stack(), tx_id)),
    {
        let mut i: usize = 0;
        while i < self.undo_stack.len()
            invariant
                i <= self.undo_stack@.len(),
                forall|j: int| 0 <= j < i ==> self.undo_stack@[j].id != tx_id,
            decreases self.undo_stack@.len() - i,
        {
            if self.undo_stack[i].id == tx_id {
                return true;
            }
            i = i + 1;
        }
        let mut i: usize = 0;
        while i < self.redo_stack.len()
            invariant
                i <= self.redo_stack@.len(),
                forall|j: int| 0 <= j < self.undo_stack@.len() ==> self.undo_stack@[j].id != tx_id,
                forall|j: int| 0 <= j < i ==> self.redo_stack@[j].id != tx_id,
            decreases self.redo_stack@.len() - i,
        {
            if self.redo_stack[i].id == tx_id {
                return true;
            }
            i = i + 1;
        }
        false
    }

    /// The invalidation set of `tx`, read against the current state; call it before the
    /// transaction begins or is applied.
    pub fn invalidated_object_ids(&self, tx: &Transaction) -> (r: Vec<ObjectId>)
        requires
            self.wf(),
        ensures
            lists_set(r@, invalidated(self.model(), tx.items@)),
    {
        let ghost m = self.model();
        let mut r: Vec<ObjectId> = Vec::new();
        let mut i: usize = 0;
        while i < tx.items.len()
            invariant
                self.wf(),
                m == self.model(),
                i <= tx.items@.len(),
                lists_set(r@, invalidated_prefix(m, tx.items@, i as int)),
            decreases tx.items@.len() - i,
        {
            match &tx.items[i] {
                DocumentMutation::UpsertProp(id, k, v) => {
                    let is_reparent = match (k, v) {
                        (PropKind::Parent, Some(PropValue::Reference(_))) => true,
                        _ => false,
                    };
                    if is_reparent || *k == PropKind::Index {
                        if let Some(p) = self.document.get_id_prop(*id, PropKind::Parent) {
                            add_unique(&mut r, p);
                        }
                        if let (PropKind::Parent, Some(PropValue::Reference(np))) = (k, v) {
                            add_unique(&mut r, *np);
                        }
                    } else {
                        add_unique(&mut r, *id);
                    }
                },
                DocumentMutation::DeleteObject(id) => {
                    if let Some(p) = self.document.get_id_prop(*id, PropKind::Parent) {
                        add_unique(&mut r, p);
                    }
                },
                DocumentMutation::CreateObject(_, _) => {},
            }
            i = i + 1;
            assert(forall|x: ObjectId| #[trigger] r@.contains(x) <==> invalidated_prefix(m, tx.items@, i as int).contains(x));
        }
        r
    }

    /// Converts a command, records its inverse for undo, clears the redo stack and begins
    /// the transaction. Undo and redo commands go to `undo` and `redo`.
    pub fn handle_command(&mut self, command: DocumentCommand) -> (r: Result<TransactionResult, FollowerError>)
        requires
            old(self).wf(),
        ensures
            final(self).wf(),
            final(self).doc_id() == old(self).doc_id(),
            command_handled(*old(self), *final(self), command, r),
    {
        let ghost cmd = command;
        match command {
            DocumentCommand::Undo => {
                return self.undo();
            },
            DocumentCommand::Redo => {
                return self.redo();
            },
            _ => {},
        }
        let converted = convert_command_to_tx(&self.document, command);
        let ghost conv = converted;
        let tx = match converted {
            Ok(tx) => tx,
            Err(e) => {
                proof {
                    let new_id = choose|new_id: ObjectId|
                        command_outcome(
                            self.document.model(),
                            self.document.spec_document_id(),
                            cmd,
                            new_id,
                            converted,
                        );
                    assert(converted == Err::<Transaction, CommandError>(e));
                    assert(command_outcome(old(self).model(), old(self).doc_id(), cmd, new_id, Err::<Transaction, CommandError>(e)));
                }
                return Err(FollowerError::Command(e));
            },
        };
        let ghost new_id = choose|new_id: ObjectId|
            command_outcome(self.document.model(), self.document.spec_document_id(), cmd, new_id, conv);
        assert(conv == Ok::<Transaction, CommandError>(tx));
        assert(command_outcome(old(self).model(), old(self).doc_id(), cmd, new_id, Ok::<Transaction, CommandError>(tx)));
        let inverse = tx.inverted(&self.document);
        let invalidated_object_ids = self.invalidated_object_ids(&tx);
        self.undo_stack.push(inverse);
        self.redo_stack.clear();
        let pending_copy = tx.clone();
        self.document.begin(pending_copy);
        proof {
            crate::model::lemma_apply_txs_push(old(self).base(), old(self).pending(), pending_copy);
        }
        let transaction = tx;
        assert(self.document.pending().drop_last() =~= old(self).document.pending());
        assert(self.redo_stack@ =~= Seq::<Transaction>::empty());
        assert(self.undo_stack@.drop_last() =~= old(self).undo_stack@);
        Ok(TransactionResult { invalidated_object_ids, transaction })
    }

    /// Applies a peer's committed transaction to the base.
    pub fn handle_transaction(&mut self, tx: Transaction) -> (r: TransactionResult)
        requires
            old(self).wf(),
        ensures
            final(self).wf(),
            final(self).doc_id() == old(self).doc_id(),
            final(self).base() == apply_items(old(self).base(), tx.items@),
            final(self).pending() == old(self).pending(),
            final(self).undo_stack() == old(self).undo_stack(),
            final(self).redo_stack() == old(self).redo_stack(),
            r.transaction == tx,
            lists_set(r.invalidated_object_ids@, invalidated(old(self).model(), tx.items@)),
    {
        let invalidated_object_ids = self.invalidated_object_ids(&tx);
        self.document.commit_directly(&tx);
        TransactionResult { invalidated_object_ids, transaction: tx }
    }

    /// The server accepted the oldest pending transaction with this id: it moves into the
    /// base.
    pub fn handle_ack(&mut self, tx_id: TransactionId) -> (r: Result<TransactionResult, FollowerError>)
        requires
            old(self).wf(),
        ensures
            final(self).wf(),
            final(self).doc_id() == old(self).doc_id(),
            final(self).undo_stack() == old(self).undo_stack(),
            final(self).redo_stack() == old(self).redo_stack(),
            r is Err <==> !has_id(old(self).pending(), tx_id),
            r is Err ==> r == Err::<TransactionResult, FollowerError>(FollowerError::UnknownTransaction)
                && final(self).pending() == old(self).pending() && final(self).base() == old(self).base(),
            r matches Ok(res) ==> exists|i: int|
                0 <= i < old(self).pending().len() && #[trigger] old(self).pending()[i] == res.transaction
                    && res.transaction.id == tx_id && (forall|j: int|
                    0 <= j < i ==> old(self).pending()[j].id != tx_id) && final(self).pending()
                    == old(self).pending().remove(i) && final(self).base() == apply_items(
                    old(self).base(),
                    res.transaction.items@,
                ) && lists_set(
                    res.invalidated_object_ids@,
                    invalidated(old(self).model(), res.transaction.items@),
                ),
    {
        let tx = match self.document.get_tx(tx_id) {
            Some(tx) => tx,
            None => {
                return Err(FollowerError::UnknownTransaction);
            },
        };
        let invalidated_object_ids = self.invalidated_object_ids(&tx);
        let ghost m = self.model();
        match self.document.finish(tx_id, true) {
            Ok(transaction) => {
                proof {
                    let i = choose|i: int|
                        0 <= i < old(self).pending().len() && #[trigger] old(self).pending()[i]
                            == transaction && transaction.id == tx_id && (forall|j: int|
                            0 <= j < i ==> old(self).pending()[j].id != tx_id);
                    let i2 = choose|i2: int|
                        0 <= i2 < old(self).pending().len() && old(self).pending()[i2].id == tx_id
                            && tx.id == tx_id && tx.items@ == #[trigger] old(self).pending()[i2].items@
                            && forall|j: int| 0 <= j < i2 ==> old(self).pending()[j].id != tx_id;
                    assert(i == i2);
                }
                Ok(TransactionResult { invalidated_object_ids, transaction })
            },
            Err(_) => Err(FollowerError::UnknownTransaction),
        }
    }

    /// The server refused the oldest pending transaction with this id: it is dropped, and
    /// so are the undo and redo entries that carry its id.
    pub fn handle_nack(&mut self, tx_id: TransactionId) -> (r: Result<TransactionResult, FollowerError>)
        requires
            old(self).wf(),
        ensures
            final(self).wf(),
            final(self).doc_id() == old(self).doc_id(),
            final(self).base() == old(self).base(),
            r is Err <==> !has_id(old(self).pending(), tx_id),
            r is Err ==> r == Err::<TransactionResult, FollowerError>(FollowerError::UnknownTransaction)
                && final(self).pending() == old(self).pending() && final(self).undo_stack() == old(
                self,
            ).undo_stack() && final(self).redo_stack() == old(self).redo_stack(),
            r matches Ok(res) ==> exists|i: int|
                0 <= i < old(self).pending().len() && #[trigger] old(self).pending()[i] == res.transaction
                    && res.transaction.id == tx_id && (forall|j: int|
                    0 <= j < i ==> old(self).pending()[j].id != tx_id) && final(self).pending()
                    == old(self).pending().remove(i) && final(self).undo_stack() == without_id(
                    old(self).undo_stack(),
                    tx_id,
                ) && final(self).redo_stack() == without_id(old(self).redo_stack(), tx_id)
                    && lists_set(
                    res.invalidated_object_ids@,
                    invalidated(old(self).model(), res.transaction.items@),
                ),
    {
        let tx = match self.document.get_tx(tx_id) {
            Some(tx) => tx,
            None => {
                return Err(FollowerError::UnknownTransaction);
            },
        };
        let invalidated_object_ids = self.invalidated_object_ids(&tx);
        match self.document.finish(tx_id, false) {
            Ok(transaction) => {
                retain_without_id(&mut self.undo_stack, tx_id);
                retain_without_id(&mut self.redo_stack, tx_id);
                proof {
                    let i = choose|i: int|
                        0 <= i < old(self).pending().len() && #[trigger] old(self).pending()[i]
                            == transaction && transaction.id == tx_id && (forall|j: int|
                            0 <= j < i ==> old(self).pending()[j].id != tx_id);
                    let i2 = choose|i2: int|
                        0 <= i2 < old(self).pending().len() && old(self).pending()[i2].id == tx_id
                            && tx.id == tx_id && tx.items@ == #[trigger] old(self).pending()[i2].items@
                            && forall|j: int| 0 <= j < i2 ==> old(self).pending()[j].id != tx_id;
                    assert(i == i2);
                }
                Ok(TransactionResult { invalidated_object_ids, transaction })
            },
            Err(_) => Err(FollowerError::UnknownTransaction),
        }
    }

    /// Begins the top undo entry as a local edit, and pushes its inverse onto the redo
    /// stack.
    pub fn undo(&mut self) -> (r: Result<TransactionResult, FollowerError>)
        requires
            old(self).wf(),
        ensures
            final(self).wf(),
            final(self).doc_id() == old(self).doc_id(),
            undo_effect(*old(self), *final(self), r),
    {
        let tx = match self.undo_stack.pop() {
            Some(tx) => tx,
            None => {
                return Err(FollowerError::NothingToUndo);
            },
        };
        let inverse = tx.inverted(&self.document);
        let invalidated_object_ids = self.invalidated_object_ids(&tx);
        self.redo_stack.push(inverse);
        let transaction = tx.clone();
        self.document.begin(tx);
        assert(self.redo_stack@.drop_last() =~= old(self).redo_stack@);
        Ok(TransactionResult { invalidated_object_ids, transaction })
    }

    /// Begins the top redo entry as a local edit, and pushes its inverse onto the undo
    /// stack.
    pub fn redo(&mut self) -> (r: Result<TransactionResult, FollowerError>)
        requires
            old(self).wf(),
        ensures
            final(self).wf(),
            final(self).doc_id() == old(self).doc_id(),
            redo_effect(*old(self), *final(self), r),
    {
        let tx = match self.redo_stack.pop() {
            Some(tx) => tx,
            None => {
                return Err(FollowerError::NothingToRedo);
            },
        };
        let inverse = tx.inverted(&self.document);
        let invalidated_object_ids = self.invalidated_object_ids(&tx);
        self.undo_stack.push(inverse);
        let transaction = tx.clone();
        self.document.begin(tx);
        assert(self.undo_stack@.drop_last() =~= old(self).undo_stack@);
        Ok(TransactionResult { invalidated_object_ids, transaction })
    }
}

/// `handle_command(command)` took `pre` to `a` and succeeded, then `undo` took `a` to `b`
/// and `redo` took `b` to `c`, with nothing in between: both succeed, the reader of `c`
/// cannot be told from the reader right after the command, and the undo stack is back to
/// its size right after the command.
pub proof fn lemma_undo_redo(
    pre: ClientFollowerDocument,
    a: ClientFollowerDocument,
    b: ClientFollowerDocument,
    c: ClientFollowerDocument,
    command: DocumentCommand,
    r0: Result<TransactionResult, FollowerError>,
    r1: Result<TransactionResult, FollowerError>,
    r2: Result<TransactionResult, FollowerError>,
)
    requires
        !(command is Undo),
        !(command is Redo),
        command_handled(pre, a, command, r0),
        r0 is Ok,
        undo_effect(a, b, r1),
        redo_effect(b, c, r2),
    ensures
        r1 is Ok,
        r2 is Ok,
        equivalent(c.model(), a.model()),
        c.undo_stack().len() == a.undo_stack().len(),
{
    let tx = r0->Ok_0.transaction;
    let u = a.undo_stack().last();
    let r = b.redo_stack().last();
    lemma_apply_txs_push(a.base(), a.pending(), u);
    lemma_apply_txs_push(b.base(), b.pending(), r);
    lemma_inverse_never_recreates(pre.model(), tx.items@);
    lemma_inversion_items(a.model(), u.items@);
}

proof fn lemma_without_id(s: Seq<Transaction>, id: TransactionId)
    ensures
        !has_id(without_id(s, id), id),
    decreases s.len(),
{
    if s.len() > 0 {
        lemma_without_id(s.drop_last(), id);
        let w = without_id(s.drop_last(), id);
        if s.last().id != id {
            assert forall|i: int| 0 <= i < w.push(s.last()).len() implies #[trigger] w.push(s.last())[i].id != id by {
                if i < w.len() {
                    assert(w.push(s.last())[i] == w[i]);
                }
            }
        }
    }
}

/// With `tx` begun on top of `pending` (whose ids differ from its own), taking out the
/// oldest pending transaction with its id takes out `tx` itself. Refused, the reader is
/// back where it was before the command, and no undo or redo entry carries its id;
/// acknowledged with nothing else pending, the reader is where applying `tx` to the base
/// directly leaves it.
pub proof fn lemma_ack_nack(
    base: DocModel,
    pending: Seq<Transaction>,
    tx: Transaction,
    i: int,
    undo: Seq<Transaction>,
    redo: Seq<Transaction>,
)
    requires
        !has_id(pending, tx.id),
        0 <= i < pending.len() + 1,
        pending.push(tx)[i].id == tx.id,
        forall|j: int| 0 <= j < i ==> pending.push(tx)[j].id != tx.id,
    ensures
        pending.push(tx)[i] == tx,
        pending.push(tx).remove(i) == pending,
        apply_txs(base, pending.push(tx).remove(i)) == apply_txs(base, pending),
        pending.len() == 0 ==> apply_txs(apply_items(base, tx.items@), pending.push(tx).remove(i))
            == apply_items(base, tx.items@),
        !has_id(without_id(undo, tx.id), tx.id),
        !has_id(without_id(redo, tx.id), tx.id),
{
    if i < pending.len() {
        assert(pending[i].id == tx.id);
    }
    assert(pending.push(tx).remove(i) =~= pending);
    lemma_without_id(undo, tx.id);
    lemma_without_id(redo, tx.id);
}

/// What `handle_command` does: undo and redo go to `undo_effect` and `redo_effect`; any
/// other command is converted and begun, or refused with the conversion's error.
pub open spec fn command_handled(
    before: ClientFollowerDocument,
    after: ClientFollowerDocument,
    command: DocumentCommand,
    r: Result<TransactionResult, FollowerError>,
) -> bool {
    &&& (command is Undo ==> undo_effect(before, after, r))
    &&& (command is Redo ==> redo_effect(before, after, r))
    &&& (!(command is Undo) && !(command is Redo) ==> match r {
                Ok(res) => {
                    &&& exists|new_id: ObjectId|
                        command_outcome(
                            before.model(),
                            before.doc_id(),
                            command,
                            new_id,
                            Ok(res.transaction),
                        )
                    &&& after.base() == before.base()
                    &&& after.pending().len() == before.pending().len() + 1
                    &&& after.pending().drop_last() == before.pending()
                    &&& same_tx(after.pending().last(), res.transaction)
                    &&& after.model() == apply_items(before.model(), res.transaction.items@)
                    &&& after.undo_stack().len() == before.undo_stack().len() + 1
                    &&& after.undo_stack().drop_last() == before.undo_stack()
                    &&& inverse_of(after.undo_stack().last(), res.transaction, before.model())
                    &&& after.redo_stack() == Seq::<Transaction>::empty()
                    &&& lists_set(
                        res.invalidated_object_ids@,
                        invalidated(before.model(), res.transaction.items@),
                    )
                },
                Err(e) => {
                    &&& e matches FollowerError::Command(ce) && exists|new_id: ObjectId|
                        command_outcome(
                            before.model(),
                            before.doc_id(),
                            command,
                            new_id,
                            Err(ce),
                        )
                    &&& after.base() == before.base()
                    &&& after.pending() == before.pending()
                    &&& after.undo_stack() == before.undo_stack()
                    &&& after.redo_stack() == before.redo_stack()
                },
            })
}

/// What `undo` does: with an empty undo stack it fails and changes nothing; otherwise it
/// begins the top entry as a local edit and moves that entry's inverse onto the redo
/// stack.
pub open spec fn undo_effect(
    before: ClientFollowerDocument,
    after: ClientFollowerDocument,
    r: Result<TransactionResult, FollowerError>,
) -> bool {
    if before.undo_stack().len() == 0 {
        &&& r == Err::<TransactionResult, FollowerError>(FollowerError::NothingToUndo)
        &&& after.base() == before.base() && after.pending() == before.pending()
        &&& after.undo_stack() == before.undo_stack() && after.redo_stack() == before.redo_stack()
    } else {
        r matches Ok(res) && {
            let u = before.undo_stack().last();
            &&& same_tx(res.transaction, u)
            &&& after.base() == before.base()
            &&& after.pending() == before.pending().push(u)
            &&& after.undo_stack() == before.undo_stack().drop_last()
            &&& after.redo_stack().len() == before.redo_stack().len() + 1
            &&& after.redo_stack().drop_last() == before.redo_stack()
            &&& inverse_of(after.redo_stack().last(), u, before.model())
            &&& lists_set(res.invalidated_object_ids@, invalidated(before.model(), u.items@))
        }
    }
}

/// What `redo` does: the mirror image of `undo_effect`.
pub open spec fn redo_effect(
    before: ClientFollowerDocument,
    after: ClientFollowerDocument,
    r: Result<TransactionResult, FollowerError>,
) -> bool {
    if before.redo_stack().len() == 0 {
        &&& r == Err::<TransactionResult, FollowerError>(FollowerError::NothingToRedo)
        &&& after.base() == before.base() && after.pending() == before.pending()
        &&& after.undo_stack() == before.undo_stack() && after.redo_stack() == before.redo_stack()
    } else {
        r matches Ok(res) && {
            let u = before.redo_stack().last();
            &&& same_tx(res.transaction, u)
            &&& after.base() == before.base()
            &&& after.pending() == before.pending().push(u)
            &&& after.redo_stack() == before.redo_stack().drop_last()
            &&& after.undo_stack().len() == before.undo_stack().len() + 1
            &&& after.undo_stack().drop_last() == before.undo_stack()
            &&& inverse_of(after.undo_stack().last(), u, before.model())
            &&& lists_set(res.invalidated_object_ids@, invalidated(before.model(), u.items@))
        }
    }
}

} // verus!

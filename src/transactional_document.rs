use vstd::prelude::*;

use crate::document_storage::DocumentStorage;
use crate::message::{Color, ObjectId, ObjectKind, PropKind, PropValue, Transaction, TransactionId};
use crate::model::{
    apply_items, apply_txs, deleted_after, is_live, kind_after, last_life_event_txs,
    last_prop_write_txs, lemma_life_after_txs, lemma_prop_after_txs, map_get, read_deleted,
    read_kind, read_prop, value_after, DocModel,
};
use crate::transaction_manager::{has_id, TransactionManager};

verus! {

/// The kind an overlay of pending transactions shows: the newest pending create or delete
/// of the object decides, and without one the base does. A pending delete that a later
/// pending create undoes therefore reads as not deleted.
pub open spec fn layered_kind(base: DocModel, txs: Seq<Transaction>, id: ObjectId) -> Option<
    ObjectKind,
> {
    kind_after(last_life_event_txs(txs, txs.len() as int, id), read_kind(base, id))
}

pub open spec fn layered_deleted(base: DocModel, txs: Seq<Transaction>, id: ObjectId) -> Option<
    bool,
> {
    deleted_after(last_life_event_txs(txs, txs.len() as int, id), read_deleted(base, id))
}

/// The property an overlay shows: the newest pending write decides, and without one the
/// base does; tombstoned objects show none.
pub open spec fn layered_prop(base: DocModel, txs: Seq<Transaction>, id: ObjectId, k: PropKind) -> Option<
    PropValue,
> {
    if layered_deleted(base, txs, id) != Some(true) {
        value_after(last_prop_write_txs(txs, txs.len() as int, id, k), map_get(base.props, (id, k)))
    } else {
        None
    }
}

/// Reading through the pending layer gives, for every object and property, what reading
/// the base with all pending transactions applied in order gives.
pub proof fn lemma_layered_read(base: DocModel, txs: Seq<Transaction>, id: ObjectId, k: PropKind)
    ensures
        layered_kind(base, txs, id) == read_kind(apply_txs(base, txs), id),
        layered_deleted(base, txs, id) == read_deleted(apply_txs(base, txs), id),
        layered_prop(base, txs, id, k) == read_prop(apply_txs(base, txs), id, k),
{
    lemma_life_after_txs(base, txs, txs.len() as int, id);
    lemma_prop_after_txs(base, txs, txs.len() as int, id, k);
}

/// A committed base store under an ordered layer of pending transactions.
#[derive(Debug)]
pub struct TransactionalDocument {
    storage: DocumentStorage,
    manager: TransactionManager,
}

impl TransactionalDocument {
    pub closed spec fn wf(&self) -> bool {
        self.storage.wf()
    }

    /// The committed base.
    pub closed spec fn base(&self) -> DocModel {
        self.storage@
    }

    /// The pending transactions, oldest first.
    pub closed spec fn pending(&self) -> Seq<Transaction> {
        self.manager@
    }

    pub closed spec fn spec_document_id(&self) -> ObjectId {
        self.storage.spec_document_id()
    }

    /// What a reader of this document sees.
    pub open spec fn model(&self) -> DocModel {
        apply_txs(self.base(), self.pending())
    }

    pub fn new() -> (r: TransactionalDocument)
        ensures
            r.wf(),
            r.pending() == Seq::<Transaction>::empty(),
            r.base().objects == Map::<ObjectId, ObjectKind>::empty().insert(
                r.spec_document_id(),
                ObjectKind::Document,
            ),
            r.base().deleted == Set::<ObjectId>::empty(),
            r.base().props == Map::<(ObjectId, PropKind), PropValue>::empty(),
    {
        TransactionalDocument { storage: DocumentStorage::new(), manager: TransactionManager::new() }
    }

    /// A document whose base is the given store, with nothing pending.
    pub fn from_storage(storage: DocumentStorage) -> (r: TransactionalDocument)
        requires
            storage.wf(),
        ensures
            r.wf(),
            r.base() == storage@,
            r.pending() == Seq::<Transaction>::empty(),
            r.spec_document_id() == storage.spec_document_id(),
    {
        TransactionalDocument { storage, manager: TransactionManager::new() }
    }

    pub fn storage(&self) -> (r: &DocumentStorage)
        ensures
            r@ == self.base(),
            r.wf() == self.wf(),
            r.spec_document_id() == self.spec_document_id(),
    {
        &self.storage
    }

    pub fn document_id(&self) -> (r: ObjectId)
        ensures
            r == self.spec_document_id(),
    {
        self.storage.document_id()
    }

    /// The pending transaction with this id.
    pub fn get_tx(&self, tx_id: TransactionId) -> (r: Option<Transaction>)
        ensures
            match r {
                Some(t) => exists|i: int|
                    0 <= i < self.pending().len() && self.pending()[i].id == tx_id && t.id == tx_id
                        && t.items@ == #[trigger] self.pending()[i].items@ && forall|j: int|
                        0 <= j < i ==> self.pending()[j].id != tx_id,
                None => !has_id(self.pending(), tx_id),
            },
    {
        let r = self.manager.get(tx_id);
        proof {
            if r is Some {
                let t = r->0;
                let i = choose|i: int|
                    0 <= i < self.manager@.len() && self.manager@[i].id == tx_id && t.id == tx_id
                        && t.items@ == #[trigger] self.manager@[i].items@ && forall|j: int|
                        0 <= j < i ==> self.manager@[j].id != tx_id;
                assert(self.pending()[i].items@ == t.items@);
            }
        }
        r
    }

    pub fn is_pending(&self, tx_id: TransactionId) -> (r: bool)
        ensures
            r == has_id(self.pending(), tx_id),
    {
        self.manager.contains(tx_id)
    }

    /// Adds a transaction to the pending layer; readers see it at once.
    pub fn begin(&mut self, tx: Transaction)
        ensures
            final(self).wf() == old(self).wf(),
            final(self).base() == old(self).base(),
            final(self).spec_document_id() == old(self).spec_document_id(),
            final(self).pending() == old(self).pending().push(tx),
    {
        self.manager.push(tx);
    }

    /// Applies an already committed transaction straight to the base.
    pub fn commit_directly(&mut self, tx: &Transaction)
        requires
            old(self).wf(),
        ensures
            final(self).wf(),
            final(self).base() == apply_items(old(self).base(), tx.items@),
            final(self).pending() == old(self).pending(),
            final(self).spec_document_id() == old(self).spec_document_id(),
    {
        let _ = self.storage.process(tx);
    }

    /// Takes a pending transaction out of the layer; on commit its mutations are applied
    /// to the base. Fails, changing nothing, when no transaction has this id.
    pub fn finish(&mut self, tx_id: TransactionId, commit: bool) -> (r: Result<Transaction, ()>)
        requires
            old(self).wf(),
        ensures
            final(self).wf(),
            final(self).spec_document_id() == old(self).spec_document_id(),
            r is Err <==> !has_id(old(self).pending(), tx_id),
            r is Err ==> final(self).pending() == old(self).pending() && final(self).base() == old(
                self,
            ).base(),
            match r {
                Ok(t) => exists|i: int|
                    0 <= i < old(self).pending().len() && #[trigger] old(self).pending()[i] == t && t.id
                        == tx_id && final(self).pending() == old(self).pending().remove(i)
                        && (forall|j: int| 0 <= j < i ==> old(self).pending()[j].id != tx_id)
                        && final(self).base() == (if commit {
                        apply_items(old(self).base(), t.items@)
                    } else {
                        old(self).base()
                    }),
                Err(_) => true,
            },
    {
        let ghost old_pending = self.manager@;
        let ghost old_base = self.storage@;
        match self.manager.remove(tx_id) {
            Some(tx) => {
                let ghost i = choose|i: int|
                    0 <= i < old_pending.len() && old_pending[i] == tx && tx.id == tx_id
                        && self.manager@ == old_pending.remove(i) && forall|j: int|
                        0 <= j < i ==> old_pending[j].id != tx_id;
                if commit {
                    let _ = self.storage.process(&tx);
                }
                assert(old_pending[i] == tx);
                assert(old(self).pending() == old_pending);
                assert(self.pending() == old_pending.remove(i));
                assert(self.base() == (if commit {
                    apply_items(old_base, tx.items@)
                } else {
                    old_base
                }));
                Ok(tx)
            },
            None => Err(()),
        }
    }

    /// Every object that holds a property of kind `k` in the base or is written one by a
    /// pending transaction, possibly with repeats.
    pub fn objects_with_prop(&self, k: PropKind) -> (r: Vec<ObjectId>)
        requires
            self.wf(),
        ensures
            forall|id: ObjectId| #[trigger] read_prop(self.model(), id, k) is Some ==> r@.contains(id),
    {
        let mut r = self.storage.objects_with_prop(k);
        let pending = self.manager.objects_with_prop(k);
        let ghost base_part = r@;
        let mut i: usize = 0;
        while i < pending.len()
            invariant
                i <= pending@.len(),
                forall|x: ObjectId| base_part.contains(x) ==> #[trigger] r@.contains(x),
                forall|j: int| 0 <= j < i ==> r@.contains(#[trigger] pending@[j]),
            decreases pending@.len() - i,
        {
            let ghost before = r@;
            r.push(pending[i]);
            proof {
                crate::transaction_manager::lemma_push_keeps(before, pending@[i as int]);
            }
            i = i + 1;
        }
        proof {
            assert forall|id: ObjectId| #[trigger] read_prop(self.model(), id, k) is Some implies r@.contains(id) by {
                lemma_prop_after_txs(self.base(), self.pending(), self.pending().len() as int, id, k);
                if last_prop_write_txs(self.pending(), self.pending().len() as int, id, k) is Some {
                    crate::model::lemma_last_write_txs_exists(
                        self.pending(),
                        self.pending().len() as int,
                        id,
                        k,
                    );
                    let (t, j) = choose|t: int, j: int|
                        0 <= t < self.pending().len() && 0 <= j < self.pending()[t].items@.len()
                            && #[trigger] crate::model::writes_prop(
                            self.pending()[t].items@[j],
                            id,
                            k,
                        );
                    assert(crate::model::writes_prop(self.manager@[t].items@[j], id, k));
                    let m = choose|m: int| 0 <= m < pending@.len() && pending@[m] == id;
                    assert(r@.contains(pending@[m]));
                }
            }
        }
        r
    }

    pub fn get_object_kind(&self, id: ObjectId) -> (r: Option<ObjectKind>)
        requires
            self.wf(),
        ensures
            r == read_kind(self.model(), id),
    {
        proof {
            lemma_layered_read(self.base(), self.pending(), id, PropKind::Name);
        }
        match self.manager.find_life_event(id) {
            Some(crate::message::DocumentMutation::CreateObject(_, k)) => Some(k),
            Some(_) => None,
            None => self.storage.get_object_kind(id),
        }
    }

    pub fn is_deleted(&self, id: ObjectId) -> (r: Option<bool>)
        requires
            self.wf(),
        ensures
            r == read_deleted(self.model(), id),
    {
        proof {
            lemma_layered_read(self.base(), self.pending(), id, PropKind::Name);
        }
        match self.manager.find_life_event(id) {
            Some(crate::message::DocumentMutation::CreateObject(_, _)) => Some(false),
            Some(_) => Some(true),
            None => self.storage.is_deleted(id),
        }
    }

    pub fn get_prop(&self, id: ObjectId, k: PropKind) -> (r: Option<PropValue>)
        requires
            self.wf(),
        ensures
            r == read_prop(self.model(), id, k),
    {
        proof {
            lemma_layered_read(self.base(), self.pending(), id, k);
        }
        match self.is_deleted(id) {
            Some(true) => {
                return None;
            },
            _ => {},
        }
        match self.manager.find_prop_write(id, k) {
            Some(v) => v,
            None => self.storage.get_raw_prop(id, k),
        }
    }

    pub fn get_string_prop(&self, id: ObjectId, k: PropKind) -> (r: Option<String>)
        requires
            self.wf(),
        ensures
            r == (match read_prop(self.model(), id, k) {
                Some(PropValue::String(s)) => Some(s),
                _ => None,
            }),
    {
        match self.get_prop(id, k) {
            Some(PropValue::String(s)) => Some(s),
            _ => None,
        }
    }

    pub fn get_id_prop(&self, id: ObjectId, k: PropKind) -> (r: Option<ObjectId>)
        requires
            self.wf(),
        ensures
            r == (match read_prop(self.model(), id, k) {
                Some(PropValue::Reference(p)) => Some(p),
                _ => None,
            }),
    {
        match self.get_prop(id, k) {
            Some(PropValue::Reference(p)) => Some(p),
            _ => None,
        }
    }

    pub fn get_number_prop(&self, id: ObjectId, k: PropKind) -> (r: Option<i32>)
        requires
            self.wf(),
        ensures
            r == (match read_prop(self.model(), id, k) {
                Some(PropValue::Number(n)) => Some(n),
                _ => None,
            }),
    {
        match self.get_prop(id, k) {
            Some(PropValue::Number(n)) => Some(n),
            _ => None,
        }
    }

    pub fn get_color_prop(&self, id: ObjectId, k: PropKind) -> (r: Option<Color>)
        requires
            self.wf(),
        ensures
            r == (match read_prop(self.model(), id, k) {
                Some(PropValue::Color(c)) => Some(c),
                _ => None,
            }),
    {
        match self.get_prop(id, k) {
            Some(PropValue::Color(c)) => Some(c),
            _ => None,
        }
    }
}

} // verus!

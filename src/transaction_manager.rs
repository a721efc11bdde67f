use vstd::prelude::*;

use crate::message::{
    clone_opt_value, DocumentMutation, ObjectId, ObjectKind, PropKind, PropValue, Transaction,
    TransactionId,
};
use crate::model::{
    deleted_after, is_life_event, kind_after, last_life_event, last_life_event_txs,
    last_prop_write, last_prop_write_txs, value_after, writes_prop,
};

verus! {

/// Pushing onto a sequence keeps what it contained and adds the new element.
pub proof fn lemma_push_keeps<T>(s: Seq<T>, x: T)
    ensures
        s.push(x).contains(x),
        forall|y: T| s.contains(y) ==> #[trigger] s.push(x).contains(y),
{
    assert(s.push(x)[s.len() as int] == x);
    assert forall|y: T| s.contains(y) implies #[trigger] s.push(x).contains(y) by {
        let m = choose|m: int| 0 <= m < s.len() && s[m] == y;
        assert(s.push(x)[m] == y);
    }
}

/// Some pending transaction deletes `id`.
pub open spec fn pending_deletes(txs: Seq<Transaction>, id: ObjectId) -> bool {
    exists|t: int, j: int|
        0 <= t < txs.len() && 0 <= j < txs[t].items@.len() && #[trigger] txs[t].items@[j]
            == DocumentMutation::DeleteObject(id)
}

/// No two transactions share an id.
pub open spec fn ids_unique(txs: Seq<Transaction>) -> bool {
    forall|i: int, j: int| 0 <= i < txs.len() && 0 <= j < txs.len() && i != j ==> txs[i].id != txs[j].id
}

pub open spec fn has_id(txs: Seq<Transaction>, id: TransactionId) -> bool {
    exists|i: int| 0 <= i < txs.len() && #[trigger] txs[i].id == id
}

/// The ordered list of pending transactions.
#[derive(Debug)]
pub struct TransactionManager {
    txs: Vec<Transaction>,
}

impl View for TransactionManager {
    type V = Seq<Transaction>;

    closed spec fn view(&self) -> Seq<Transaction> {
        self.txs@
    }
}

impl TransactionManager {
    pub fn new() -> (r: TransactionManager)
        ensures
            r@ == Seq::<Transaction>::empty(),
    {
        TransactionManager { txs: Vec::new() }
    }

    fn position(&self, tx_id: TransactionId) -> (r: Option<usize>)
        ensures
            match r {
                Some(i) => i < self@.len() && self@[i as int].id == tx_id && forall|j: int|
                    0 <= j < i ==> self@[j].id != tx_id,
                None => !has_id(self@, tx_id),
            },
    {
        let mut i: usize = 0;
        while i < self.txs.len()
            invariant
                i <= self.txs@.len(),
                forall|j: int| 0 <= j < i ==> self.txs@[j].id != tx_id,
            decreases self.txs@.len() - i,
        {
            if self.txs[i].id == tx_id {
                return Some(i);
            }
            i = i + 1;
        }
        None
    }

    pub fn contains(&self, tx_id: TransactionId) -> (r: bool)
        ensures
            r == has_id(self@, tx_id),
    {
        self.position(tx_id).is_some()
    }

    /// The pending transaction with this id.
    pub fn get(&self, tx_id: TransactionId) -> (r: Option<Transaction>)
        ensures
            match r {
                Some(t) => exists|i: int|
                    0 <= i < self@.len() && self@[i].id == tx_id && t.id == tx_id && t.items@
                        == #[trigger] self@[i].items@ && forall|j: int|
                        0 <= j < i ==> self@[j].id != tx_id,
                None => !has_id(self@, tx_id),
            },
    {
        match self.position(tx_id) {
            Some(i) => Some(self.txs[i].clone()),
            None => None,
        }
    }

    /// Appends a transaction. Its id may already be pending: the undo of an edit that the
    /// server has not acknowledged yet keeps that edit's id (an inverse keeps the id of
    /// what it inverts), and is begun as a local edit all the same. Acknowledgements and
    /// refusals then take the oldest pending transaction with the id first, in the order
    /// the server answers.
    pub fn push(&mut self, tx: Transaction)
        ensures
            final(self)@ == old(self)@.push(tx),
    {
        self.txs.push(tx);
    }

    /// Removes the transaction with this id, keeping the order of the others.
    pub fn remove(&mut self, tx_id: TransactionId) -> (r: Option<Transaction>)
        ensures
            match r {
                Some(t) => exists|i: int|
                    0 <= i < old(self)@.len() && old(self)@[i] == t && t.id == tx_id
                        && final(self)@ == old(self)@.remove(i) && forall|j: int|
                        0 <= j < i ==> old(self)@[j].id != tx_id,
                None => !has_id(old(self)@, tx_id) && final(self)@ == old(self)@,
            },
    {
        match self.position(tx_id) {
            Some(i) => Some(self.txs.remove(i)),
            None => None,
        }
    }

    /// The newest write to `(id, k)`: `Some(None)` when it removed the property.
    pub fn find_prop_write(&self, id: ObjectId, k: PropKind) -> (r: Option<Option<PropValue>>)
        ensures
            r == last_prop_write_txs(self@, self@.len() as int, id, k),
    {
        let mut t: usize = self.txs.len();
        while t > 0
            invariant
                t <= self.txs@.len(),
                last_prop_write_txs(self.txs@, self.txs@.len() as int, id, k)
                    == last_prop_write_txs(self.txs@, t as int, id, k),
            decreases t,
        {
            let items = &self.txs[t - 1].items;
            let mut j: usize = items.len();
            while j > 0
                invariant
                    0 < t <= self.txs@.len(),
                    items@ == self.txs@[t - 1].items@,
                    last_prop_write_txs(self.txs@, self.txs@.len() as int, id, k)
                        == last_prop_write_txs(self.txs@, t as int, id, k),
                    j <= items@.len(),
                    last_prop_write(items@, items@.len() as int, id, k) == last_prop_write(
                        items@,
                        j as int,
                        id,
                        k,
                    ),
                decreases j,
            {
                match &items[j - 1] {
                    DocumentMutation::UpsertProp(i2, k2, v) => {
                        if *i2 == id && *k2 == k {
                            return Some(clone_opt_value(v));
                        }
                    },
                    _ => {},
                }
                j = j - 1;
            }
            t = t - 1;
        }
        None
    }

    /// The newest create or delete of `id`.
    pub fn find_life_event(&self, id: ObjectId) -> (r: Option<DocumentMutation>)
        ensures
            r == last_life_event_txs(self@, self@.len() as int, id),
    {
        let mut t: usize = self.txs.len();
        while t > 0
            invariant
                t <= self.txs@.len(),
                last_life_event_txs(self.txs@, self.txs@.len() as int, id) == last_life_event_txs(
                    self.txs@,
                    t as int,
                    id,
                ),
            decreases t,
        {
            let items = &self.txs[t - 1].items;
            let mut j: usize = items.len();
            while j > 0
                invariant
                    0 < t <= self.txs@.len(),
                    items@ == self.txs@[t - 1].items@,
                    last_life_event_txs(self.txs@, self.txs@.len() as int, id)
                        == last_life_event_txs(self.txs@, t as int, id),
                    j <= items@.len(),
                    last_life_event(items@, items@.len() as int, id) == last_life_event(
                        items@,
                        j as int,
                        id,
                    ),
                decreases j,
            {
                match &items[j - 1] {
                    DocumentMutation::CreateObject(i2, k) => {
                        if *i2 == id {
                            return Some(DocumentMutation::CreateObject(*i2, *k));
                        }
                    },
                    DocumentMutation::DeleteObject(i2) => {
                        if *i2 == id {
                            return Some(DocumentMutation::DeleteObject(*i2));
                        }
                    },
                    _ => {},
                }
                j = j - 1;
            }
            t = t - 1;
        }
        None
    }

    /// Every object that some pending item writes a property of kind `k` for, possibly with
    /// repeats.
    pub fn objects_with_prop(&self, k: PropKind) -> (r: Vec<ObjectId>)
        ensures
            forall|t: int, j: int, id: ObjectId|
                0 <= t < self@.len() && 0 <= j < self@[t].items@.len() && #[trigger] writes_prop(
                    self@[t].items@[j],
                    id,
                    k,
                ) ==> r@.contains(id),
    {
        let mut r: Vec<ObjectId> = Vec::new();
        let mut t: usize = 0;
        while t < self.txs.len()
            invariant
                t <= self.txs@.len(),
                forall|t2: int, j: int, id: ObjectId|
                    0 <= t2 < t && 0 <= j < self.txs@[t2].items@.len() && #[trigger] writes_prop(
                        self.txs@[t2].items@[j],
                        id,
                        k,
                    ) ==> r@.contains(id),
            decreases self.txs@.len() - t,
        {
            let items = &self.txs[t].items;
            let mut j: usize = 0;
            while j < items.len()
                invariant
                    t < self.txs@.len(),
                    items@ == self.txs@[t as int].items@,
                    j <= items@.len(),
                    forall|t2: int, j2: int, id: ObjectId|
                        0 <= t2 < t && 0 <= j2 < self.txs@[t2].items@.len() && #[trigger] writes_prop(
                            self.txs@[t2].items@[j2],
                            id,
                            k,
                        ) ==> r@.contains(id),
                    forall|j2: int, id: ObjectId|
                        0 <= j2 < j && #[trigger] writes_prop(items@[j2], id, k) ==> r@.contains(
                            id,
                        ),
                decreases items@.len() - j,
            {
                match &items[j] {
                    DocumentMutation::UpsertProp(id, k2, _) => {
                        if *k2 == k {
                            let id = *id;
                            let ghost before = r@;
                            r.push(id);
                            proof {
                                lemma_push_keeps(before, id);
                            }
                        }
                    },
                    _ => {},
                }
                j = j + 1;
            }
            t = t + 1;
        }
        r
    }

    /// The value of the newest pending write to `(id, k)`.
    pub fn get_prop(&self, id: ObjectId, k: PropKind) -> (r: Option<PropValue>)
        ensures
            r == value_after(last_prop_write_txs(self@, self@.len() as int, id, k), None),
    {
        match self.find_prop_write(id, k) {
            Some(v) => v,
            None => None,
        }
    }

    /// The newest pending string value of `(id, k)`.
    pub fn get_string_prop(&self, id: ObjectId, k: PropKind) -> (r: Option<String>)
        ensures
            r == (match value_after(last_prop_write_txs(self@, self@.len() as int, id, k), None) {
                Some(PropValue::String(s)) => Some(s),
                _ => None,
            }),
    {
        match self.get_prop(id, k) {
            Some(PropValue::String(s)) => Some(s),
            _ => None,
        }
    }

    /// The kind given by the newest pending create, unless a later delete follows it.
    pub fn get_object_kind(&self, id: ObjectId) -> (r: Option<ObjectKind>)
        ensures
            r == kind_after(last_life_event_txs(self@, self@.len() as int, id), None),
    {
        match self.find_life_event(id) {
            Some(DocumentMutation::CreateObject(_, k)) => Some(k),
            _ => None,
        }
    }

    /// `Some(true)` when some pending transaction deletes `id`, `None` otherwise. The
    /// pending layer alone never reports an object as present. (A reader over the base
    /// and this layer goes by the newest pending create or delete instead, so that an
    /// undone delete lifts the tombstone.)
    pub fn is_deleted(&self, id: ObjectId) -> (r: Option<bool>)
        ensures
            r == (if pending_deletes(self@, id) {
                Some(true)
            } else {
                None
            }),
    {
        let mut t: usize = 0;
        while t < self.txs.len()
            invariant
                t <= self.txs@.len(),
                forall|t2: int, j: int|
                    0 <= t2 < t && 0 <= j < self.txs@[t2].items@.len() ==> #[trigger] self.txs@[t2].items@[j]
                        != DocumentMutation::DeleteObject(id),
            decreases self.txs@.len() - t,
        {
            let items = &self.txs[t].items;
            let mut j: usize = 0;
            while j < items.len()
                invariant
                    t < self.txs@.len(),
                    items@ == self.txs@[t as int].items@,
                    j <= items@.len(),
                    forall|t2: int, j2: int|
                        0 <= t2 < t && 0 <= j2 < self.txs@[t2].items@.len() ==> #[trigger] self.txs@[t2].items@[j2]
                            != DocumentMutation::DeleteObject(id),
                    forall|j2: int| 0 <= j2 < j ==> #[trigger] items@[j2] != DocumentMutation::DeleteObject(id),
                decreases items@.len() - j,
            {
                match &items[j] {
                    DocumentMutation::DeleteObject(i2) => {
                        if *i2 == id {
                            assert(self.txs@[t as int].items@[j as int] == DocumentMutation::DeleteObject(id));
                            return Some(true);
                        }
                    },
                    _ => {},
                }
                j = j + 1;
            }
            t = t + 1;
        }
        None
    }
}

} // verus!

use vstd::prelude::*;

use crate::message::{DocumentMutation, ObjectId, PropKind, Transaction};
use crate::model::{
    apply_items, equivalent, is_life_event, is_live, last_life_event, last_prop_write,
    lemma_last_write_exists, lemma_life_after, lemma_prop_after, read_deleted, read_kind, read_prop, writes_prop, DocModel,
};
use crate::transactional_document::TransactionalDocument;

verus! {

/// The mutation that undoes `m`, read against the state `s` before the transaction.
pub open spec fn invert_item(s: DocModel, m: DocumentMutation) -> DocumentMutation {
    match m {
        DocumentMutation::CreateObject(id, _) => DocumentMutation::DeleteObject(id),
        DocumentMutation::DeleteObject(id) => match read_kind(s, id) {
            Some(k) => DocumentMutation::CreateObject(id, k),
            None => DocumentMutation::DeleteObject(id),
        },
        DocumentMutation::UpsertProp(id, k, _) => DocumentMutation::UpsertProp(
            id,
            k,
            read_prop(s, id, k),
        ),
    }
}

/// The inverses of the items, in reverse order.
pub open spec fn inverted_items(s: DocModel, items: Seq<DocumentMutation>) -> Seq<DocumentMutation> {
    Seq::new(items.len(), |j: int| invert_item(s, items[items.len() - 1 - j]))
}

/// The index of the first create or delete of `id` at or after `start`.
pub open spec fn first_life_from(items: Seq<DocumentMutation>, start: int, id: ObjectId) -> Option<
    int,
>
    decreases items.len() - start,
{
    if start < 0 || start >= items.len() {
        None
    } else if is_life_event(items[start], id) {
        Some(start)
    } else {
        first_life_from(items, start + 1, id)
    }
}

/// The transaction creates an object that is live in `s` before any delete of it:
/// its inverse would delete that object.
pub open spec fn recreates_live_object(s: DocModel, items: Seq<DocumentMutation>) -> bool {
    exists|i: int|
        0 <= i < items.len() && #[trigger] items[i] is CreateObject && is_live(
            s,
            items[i]->CreateObject_0,
        ) && forall|j: int| 0 <= j < i ==> !is_life_event(items[j], items[i]->CreateObject_0)
}

/// The object a mutation is about.
pub open spec fn target_of(m: DocumentMutation) -> ObjectId {
    match m {
        DocumentMutation::CreateObject(id, _) => id,
        DocumentMutation::DeleteObject(id) => id,
        DocumentMutation::UpsertProp(id, _, _) => id,
    }
}

/// The transaction creates or deletes an object of which `s` has no record (no kind and
/// no tombstone) but which has properties in `s`: its inverse can only leave that object
/// tombstoned, hiding those properties.
pub open spec fn touches_unrecorded_object_with_props(s: DocModel, items: Seq<DocumentMutation>) -> bool {
    exists|i: int, k: PropKind|
        0 <= i < items.len() && !(#[trigger] items[i] is UpsertProp) && read_deleted(
            s,
            target_of(items[i]),
        ) is None && #[trigger] s.props.contains_key((target_of(items[i]), k))
}

proof fn lemma_first_life_from(items: Seq<DocumentMutation>, start: int, id: ObjectId)
    requires
        0 <= start,
    ensures
        match first_life_from(items, start, id) {
            Some(f) => start <= f < items.len() && is_life_event(items[f], id) && forall|j: int|
                start <= j < f ==> !is_life_event(items[j], id),
            None => forall|j: int| start <= j < items.len() ==> !is_life_event(items[j], id),
        },
    decreases items.len() - start,
{
    if start < items.len() && !is_life_event(items[start], id) {
        lemma_first_life_from(items, start + 1, id);
    }
}

proof fn lemma_inverse_life(s: DocModel, items: Seq<DocumentMutation>, n: int, id: ObjectId)
    requires
        0 <= n <= items.len(),
    ensures
        last_life_event(inverted_items(s, items), n, id) == match first_life_from(
            items,
            items.len() - n,
            id,
        ) {
            Some(f) => Some(invert_item(s, items[f])),
            None => None,
        },
    decreases n,
{
    if n > 0 {
        lemma_inverse_life(s, items, n - 1, id);
    }
}

proof fn lemma_inverse_prop(s: DocModel, items: Seq<DocumentMutation>, n: int, id: ObjectId, k: PropKind)
    requires
        0 <= n <= items.len(),
    ensures
        last_prop_write(inverted_items(s, items), n, id, k) == if exists|j: int|
            items.len() - n <= j < items.len() && writes_prop(#[trigger] items[j], id, k) {
            Some(read_prop(s, id, k))
        } else {
            None
        },
    decreases n,
{
    if n > 0 {
        lemma_inverse_prop(s, items, n - 1, id, k);
        let j0 = items.len() - n;
        if !writes_prop(items[j0], id, k) {
            if exists|j: int| items.len() - n <= j < items.len() && writes_prop(#[trigger] items[j], id, k) {
                let j = choose|j: int|
                    items.len() - n <= j < items.len() && writes_prop(#[trigger] items[j], id, k);
                assert(j != j0);
            }
        }
    }
}

/// Applying a transaction and then its inverse (read against the state before it) gives a
/// state that no reader can tell from the one before it, unless the transaction re-creates an
/// object that was live, or creates or deletes an object with properties but no record.
/// The inverse keeps the transaction's id.
pub proof fn lemma_inversion(r: DocModel, t: Transaction)
    requires
        !recreates_live_object(r, t.items@),
        !touches_unrecorded_object_with_props(r, t.items@),
    ensures
        equivalent(apply_items(apply_items(r, t.items@), inverted_items(r, t.items@)), r),
{
    lemma_inversion_items(r, t.items@);
}

/// The inversion law, stated over a list of items.
pub proof fn lemma_inversion_items(r: DocModel, items: Seq<DocumentMutation>)
    requires
        !recreates_live_object(r, items),
        !touches_unrecorded_object_with_props(r, items),
    ensures
        equivalent(apply_items(apply_items(r, items), inverted_items(r, items)), r),
{
    let inv = inverted_items(r, items);
    let mid = apply_items(r, items);
    let fin = apply_items(mid, inv);
    assert forall|id: ObjectId| #[trigger] read_kind(fin, id) == read_kind(r, id) by {
        lemma_life_after(r, items, items.len() as int, id);
        lemma_life_after(mid, inv, inv.len() as int, id);
        lemma_inverse_life(r, items, items.len() as int, id);
        lemma_first_life_from(items, 0, id);
        match first_life_from(items, 0, id) {
            Some(f) => {
                lemma_inverse_life(r, items, items.len() as int, id);
                if items[f] is CreateObject {
                    assert(!is_live(r, id));
                }
            },
            None => {
                lemma_last_life_none(items, items.len() as int, id);
            },
        }
    }
    assert forall|id: ObjectId, k: PropKind| #[trigger] read_prop(fin, id, k) == read_prop(r, id, k) by {
        lemma_life_after(r, items, items.len() as int, id);
        lemma_life_after(mid, inv, inv.len() as int, id);
        lemma_inverse_life(r, items, items.len() as int, id);
        lemma_first_life_from(items, 0, id);
        match first_life_from(items, 0, id) {
            Some(f) => {
                if items[f] is CreateObject {
                    assert(!is_live(r, id));
                }
                if read_deleted(r, id) is None && r.props.contains_key((id, k)) {
                    assert(!(items[f] is UpsertProp));
                    assert(target_of(items[f]) == id);
                }
            },
            None => {
                lemma_last_life_none(items, items.len() as int, id);
            },
        }
        lemma_prop_after(r, items, items.len() as int, id, k);
        lemma_prop_after(mid, inv, inv.len() as int, id, k);
        lemma_inverse_prop(r, items, items.len() as int, id, k);
        lemma_last_write_exists(items, items.len() as int, id, k);
    }
}

proof fn lemma_last_life_none(items: Seq<DocumentMutation>, n: int, id: ObjectId)
    requires
        0 <= n <= items.len(),
        forall|j: int| 0 <= j < items.len() ==> !is_life_event(items[j], id),
    ensures
        last_life_event(items, n, id) is None,
    decreases n,
{
    if n > 0 {
        lemma_last_life_none(items, n - 1, id);
    }
}

proof fn lemma_last_life_is(items: Seq<DocumentMutation>, n: int, k: int, id: ObjectId)
    requires
        0 <= k < n <= items.len(),
        is_life_event(items[k], id),
        forall|j: int| k < j < n ==> !is_life_event(items[j], id),
    ensures
        last_life_event(items, n, id) == Some(items[k]),
    decreases n,
{
    if n - 1 > k {
        lemma_last_life_is(items, n - 1, k, id);
    }
}

proof fn lemma_last_life_some(items: Seq<DocumentMutation>, n: int, k: int, id: ObjectId)
    requires
        0 <= k < n <= items.len(),
        is_life_event(items[k], id),
    ensures
        last_life_event(items, n, id) is Some,
    decreases n,
{
    if n - 1 > k && !is_life_event(items[n - 1], id) {
        lemma_last_life_some(items, n - 1, k, id);
    }
}

/// An inverse, applied right after the transaction it inverts, never re-creates an object
/// that is live at that point, and every object it creates or deletes has a record there.
pub proof fn lemma_inverse_never_recreates(m: DocModel, items: Seq<DocumentMutation>)
    ensures
        !recreates_live_object(apply_items(m, items), inverted_items(m, items)),
        !touches_unrecorded_object_with_props(apply_items(m, items), inverted_items(m, items)),
{
    let u0 = inverted_items(m, items);
    let n0 = items.len() as int;
    if touches_unrecorded_object_with_props(apply_items(m, items), u0) {
        let (i, k) = choose|i: int, k: PropKind|
            0 <= i < u0.len() && !(#[trigger] u0[i] is UpsertProp) && read_deleted(
                apply_items(m, items),
                target_of(u0[i]),
            ) is None && #[trigger] apply_items(m, items).props.contains_key((target_of(u0[i]), k));
        let x = target_of(u0[i]);
        assert(u0[i] == invert_item(m, items[n0 - 1 - i]));
        assert(is_life_event(items[n0 - 1 - i], x));
        lemma_last_life_some(items, n0, n0 - 1 - i, x);
        lemma_life_after(m, items, n0, x);
    }
    let u = inverted_items(m, items);
    let n = items.len() as int;
    if recreates_live_object(apply_items(m, items), u) {
        let i = choose|i: int|
            0 <= i < u.len() && #[trigger] u[i] is CreateObject && is_live(
                apply_items(m, items),
                u[i]->CreateObject_0,
            ) && forall|j: int| 0 <= j < i ==> !is_life_event(u[j], u[i]->CreateObject_0);
        let x = u[i]->CreateObject_0;
        let k = n - 1 - i;
        assert(items[k] is DeleteObject);
        assert forall|j: int| k < j < n implies !is_life_event(items[j], x) by {
            assert(u[n - 1 - j] == invert_item(m, items[j]));
            assert(!is_life_event(u[n - 1 - j], x));
        }
        lemma_last_life_is(items, n, k, x);
        lemma_life_after(m, items, n, x);
    }
}

impl Transaction {
    /// The transaction that undoes this one when applied after it, read against `doc`
    /// before this one is applied. It keeps this transaction's id.
    pub fn inverted(&self, doc: &TransactionalDocument) -> (r: Transaction)
        requires
            doc.wf(),
        ensures
            r.id == self.id,
            r.items@ == inverted_items(doc.model(), self.items@),
    {
        let n = self.items.len();
        let mut items: Vec<DocumentMutation> = Vec::new();
        let mut j: usize = 0;
        while j < n
            invariant
                n == self.items@.len(),
                j <= n,
                doc.wf(),
                items@ == inverted_items(doc.model(), self.items@).subrange(0, j as int),
            decreases n - j,
        {
            let inverse = match &self.items[n - 1 - j] {
                DocumentMutation::CreateObject(id, _) => DocumentMutation::DeleteObject(*id),
                DocumentMutation::DeleteObject(id) => match doc.get_object_kind(*id) {
                    Some(k) => DocumentMutation::CreateObject(*id, k),
                    None => DocumentMutation::DeleteObject(*id),
                },
                DocumentMutation::UpsertProp(id, k, _) => DocumentMutation::UpsertProp(
                    *id,
                    *k,
                    doc.get_prop(*id, *k),
                ),
            };
            items.push(inverse);
            j = j + 1;
            assert(items@ =~= inverted_items(doc.model(), self.items@).subrange(0, j as int));
        }
        assert(items@ =~= inverted_items(doc.model(), self.items@));
        Transaction { id: self.id, items }
    }
}

} // verus!

use vstd::prelude::*;

use crate::message::{DocumentMutation, ObjectId, ObjectKind, PropKind, PropValue, Transaction};

verus! {

/// The abstract state of a document: an object-kind table, the set of tombstoned
/// objects, and the property table.
pub struct DocModel {
    pub objects: Map<ObjectId, ObjectKind>,
    pub deleted: Set<ObjectId>,
    pub props: Map<(ObjectId, PropKind), PropValue>,
}

pub open spec fn map_get<K, V>(m: Map<K, V>, k: K) -> Option<V> {
    if m.contains_key(k) {
        Some(m[k])
    } else {
        None
    }
}

/// The effect of one mutation. Creating an object also lifts its tombstone.
pub open spec fn apply_mutation(s: DocModel, m: DocumentMutation) -> DocModel {
    match m {
        DocumentMutation::CreateObject(id, k) => DocModel {
            objects: s.objects.insert(id, k),
            deleted: s.deleted.remove(id),
            props: s.props,
        },
        DocumentMutation::DeleteObject(id) => DocModel {
            objects: s.objects,
            deleted: s.deleted.insert(id),
            props: s.props,
        },
        DocumentMutation::UpsertProp(id, k, v) => DocModel {
            objects: s.objects,
            deleted: s.deleted,
            props: match v {
                Some(v) => s.props.insert((id, k), v),
                None => s.props.remove((id, k)),
            },
        },
    }
}

/// The state after applying the first `n` items in order.
pub open spec fn apply_prefix(s: DocModel, items: Seq<DocumentMutation>, n: int) -> DocModel
    decreases n,
{
    if n <= 0 || n > items.len() {
        s
    } else {
        apply_mutation(apply_prefix(s, items, n - 1), items[n - 1])
    }
}

pub open spec fn apply_items(s: DocModel, items: Seq<DocumentMutation>) -> DocModel {
    apply_prefix(s, items, items.len() as int)
}

/// The state after applying the first `n` transactions in order.
pub open spec fn apply_txs_prefix(s: DocModel, txs: Seq<Transaction>, n: int) -> DocModel
    decreases n,
{
    if n <= 0 || n > txs.len() {
        s
    } else {
        apply_items(apply_txs_prefix(s, txs, n - 1), txs[n - 1].items@)
    }
}

pub open spec fn apply_txs(s: DocModel, txs: Seq<Transaction>) -> DocModel {
    apply_txs_prefix(s, txs, txs.len() as int)
}

proof fn lemma_apply_txs_prefix_stable(s: DocModel, txs: Seq<Transaction>, t: Transaction, n: int)
    requires
        0 <= n <= txs.len(),
    ensures
        apply_txs_prefix(s, txs.push(t), n) == apply_txs_prefix(s, txs, n),
    decreases n,
{
    if n > 0 {
        lemma_apply_txs_prefix_stable(s, txs, t, n - 1);
        assert(txs.push(t)[n - 1] == txs[n - 1]);
    }
}

/// Applying one more transaction at the end.
pub proof fn lemma_apply_txs_push(s: DocModel, txs: Seq<Transaction>, t: Transaction)
    ensures
        apply_txs(s, txs.push(t)) == apply_items(apply_txs(s, txs), t.items@),
{
    lemma_apply_txs_prefix_stable(s, txs, t, txs.len() as int);
    assert(txs.push(t)[txs.len() as int] == t);
}

/// An object is live when it has a kind and no tombstone.
pub open spec fn is_live(s: DocModel, id: ObjectId) -> bool {
    s.objects.contains_key(id) && !s.deleted.contains(id)
}

pub open spec fn read_kind(s: DocModel, id: ObjectId) -> Option<ObjectKind> {
    if is_live(s, id) {
        Some(s.objects[id])
    } else {
        None
    }
}

/// `Some(true)` for a tombstoned object, `Some(false)` for a live one, `None` when unknown.
pub open spec fn read_deleted(s: DocModel, id: ObjectId) -> Option<bool> {
    if s.deleted.contains(id) {
        Some(true)
    } else if s.objects.contains_key(id) {
        Some(false)
    } else {
        None
    }
}

/// Property reads of a tombstoned object return `None`; any other object, created or
/// not yet, reads what was written.
pub open spec fn read_prop(s: DocModel, id: ObjectId, k: PropKind) -> Option<PropValue> {
    if s.deleted.contains(id) {
        None
    } else {
        map_get(s.props, (id, k))
    }
}

/// Two states that no kind or property query can tell apart.
pub open spec fn equivalent(a: DocModel, b: DocModel) -> bool {
    &&& forall|id: ObjectId| #[trigger] read_kind(a, id) == read_kind(b, id)
    &&& forall|id: ObjectId, k: PropKind| #[trigger] read_prop(a, id, k) == read_prop(b, id, k)
}

pub open spec fn writes_prop(m: DocumentMutation, id: ObjectId, k: PropKind) -> bool {
    match m {
        DocumentMutation::UpsertProp(i, kk, _) => i == id && kk == k,
        _ => false,
    }
}

/// A create or a delete of `id`.
pub open spec fn is_life_event(m: DocumentMutation, id: ObjectId) -> bool {
    match m {
        DocumentMutation::CreateObject(i, _) => i == id,
        DocumentMutation::DeleteObject(i) => i == id,
        _ => false,
    }
}

/// The value written by the last upsert of `(id, k)` among the first `n` items.
pub open spec fn last_prop_write(
    items: Seq<DocumentMutation>,
    n: int,
    id: ObjectId,
    k: PropKind,
) -> Option<Option<PropValue>>
    decreases n,
{
    if n <= 0 || n > items.len() {
        None
    } else if writes_prop(items[n - 1], id, k) {
        Some(items[n - 1]->UpsertProp_2)
    } else {
        last_prop_write(items, n - 1, id, k)
    }
}

/// The last create or delete of `id` among the first `n` items.
pub open spec fn last_life_event(items: Seq<DocumentMutation>, n: int, id: ObjectId) -> Option<
    DocumentMutation,
>
    decreases n,
{
    if n <= 0 || n > items.len() {
        None
    } else if is_life_event(items[n - 1], id) {
        Some(items[n - 1])
    } else {
        last_life_event(items, n - 1, id)
    }
}

/// The last upsert of `(id, k)` in the first `n` transactions, newest first.
pub open spec fn last_prop_write_txs(txs: Seq<Transaction>, n: int, id: ObjectId, k: PropKind) -> Option<
    Option<PropValue>,
>
    decreases n,
{
    if n <= 0 || n > txs.len() {
        None
    } else {
        match last_prop_write(txs[n - 1].items@, txs[n - 1].items@.len() as int, id, k) {
            Some(v) => Some(v),
            None => last_prop_write_txs(txs, n - 1, id, k),
        }
    }
}

/// The last create or delete of `id` in the first `n` transactions, newest first.
pub open spec fn last_life_event_txs(txs: Seq<Transaction>, n: int, id: ObjectId) -> Option<
    DocumentMutation,
>
    decreases n,
{
    if n <= 0 || n > txs.len() {
        None
    } else {
        match last_life_event(txs[n - 1].items@, txs[n - 1].items@.len() as int, id) {
            Some(m) => Some(m),
            None => last_life_event_txs(txs, n - 1, id),
        }
    }
}

/// How a layer's last life event decides an object's kind.
pub open spec fn kind_after(event: Option<DocumentMutation>, below: Option<ObjectKind>) -> Option<
    ObjectKind,
> {
    match event {
        Some(DocumentMutation::CreateObject(_, k)) => Some(k),
        Some(_) => None,
        None => below,
    }
}

/// How a layer's last life event decides an object's deletion status.
pub open spec fn deleted_after(event: Option<DocumentMutation>, below: Option<bool>) -> Option<bool> {
    match event {
        Some(DocumentMutation::CreateObject(_, _)) => Some(false),
        Some(_) => Some(true),
        None => below,
    }
}

/// How a layer's last write decides a raw property value.
pub open spec fn value_after(write: Option<Option<PropValue>>, below: Option<PropValue>) -> Option<
    PropValue,
> {
    match write {
        Some(v) => v,
        None => below,
    }
}

/// The raw property table after some items is decided by the last write to each key.
pub proof fn lemma_prop_after(s: DocModel, items: Seq<DocumentMutation>, n: int, id: ObjectId, k: PropKind)
    requires
        0 <= n <= items.len(),
    ensures
        map_get(apply_prefix(s, items, n).props, (id, k)) == value_after(
            last_prop_write(items, n, id, k),
            map_get(s.props, (id, k)),
        ),
    decreases n,
{
    if n > 0 {
        lemma_prop_after(s, items, n - 1, id, k);
    }
}

/// Kinds and deletion status after some items are decided by the last life event.
pub proof fn lemma_life_after(s: DocModel, items: Seq<DocumentMutation>, n: int, id: ObjectId)
    requires
        0 <= n <= items.len(),
    ensures
        read_kind(apply_prefix(s, items, n), id) == kind_after(
            last_life_event(items, n, id),
            read_kind(s, id),
        ),
        read_deleted(apply_prefix(s, items, n), id) == deleted_after(
            last_life_event(items, n, id),
            read_deleted(s, id),
        ),
    decreases n,
{
    if n > 0 {
        lemma_life_after(s, items, n - 1, id);
    }
}

/// The transaction-level form of `lemma_prop_after`.
pub proof fn lemma_prop_after_txs(s: DocModel, txs: Seq<Transaction>, n: int, id: ObjectId, k: PropKind)
    requires
        0 <= n <= txs.len(),
    ensures
        map_get(apply_txs_prefix(s, txs, n).props, (id, k)) == value_after(
            last_prop_write_txs(txs, n, id, k),
            map_get(s.props, (id, k)),
        ),
    decreases n,
{
    if n > 0 {
        lemma_prop_after_txs(s, txs, n - 1, id, k);
        let items = txs[n - 1].items@;
        lemma_prop_after(apply_txs_prefix(s, txs, n - 1), items, items.len() as int, id, k);
    }
}

/// The transaction-level form of `lemma_life_after`.
pub proof fn lemma_life_after_txs(s: DocModel, txs: Seq<Transaction>, n: int, id: ObjectId)
    requires
        0 <= n <= txs.len(),
    ensures
        read_kind(apply_txs_prefix(s, txs, n), id) == kind_after(
            last_life_event_txs(txs, n, id),
            read_kind(s, id),
        ),
        read_deleted(apply_txs_prefix(s, txs, n), id) == deleted_after(
            last_life_event_txs(txs, n, id),
            read_deleted(s, id),
        ),
    decreases n,
{
    if n > 0 {
        lemma_life_after_txs(s, txs, n - 1, id);
        let items = txs[n - 1].items@;
        lemma_life_after(apply_txs_prefix(s, txs, n - 1), items, items.len() as int, id);
    }
}

/// The last write to a key exists exactly when some item writes that key.
pub proof fn lemma_last_write_exists(items: Seq<DocumentMutation>, n: int, id: ObjectId, k: PropKind)
    requires
        0 <= n <= items.len(),
    ensures
        last_prop_write(items, n, id, k) is Some <==> exists|j: int|
            0 <= j < n && writes_prop(#[trigger] items[j], id, k),
    decreases n,
{
    if n > 0 {
        lemma_last_write_exists(items, n - 1, id, k);
        if exists|j: int| 0 <= j < n && writes_prop(#[trigger] items[j], id, k) {
            let j = choose|j: int| 0 <= j < n && writes_prop(#[trigger] items[j], id, k);
            if j < n - 1 {
                assert(exists|j2: int| 0 <= j2 < n - 1 && writes_prop(#[trigger] items[j2], id, k));
            }
        }
    }
}

/// A transaction-level last write exists only where some pending item writes that key.
pub proof fn lemma_last_write_txs_exists(txs: Seq<Transaction>, n: int, id: ObjectId, k: PropKind)
    requires
        0 <= n <= txs.len(),
        last_prop_write_txs(txs, n, id, k) is Some,
    ensures
        exists|t: int, j: int|
            0 <= t < n && 0 <= j < txs[t].items@.len() && writes_prop(
                #[trigger] txs[t].items@[j],
                id,
                k,
            ),
    decreases n,
{
    let items = txs[n - 1].items@;
    if last_prop_write(items, items.len() as int, id, k) is Some {
        lemma_last_write_exists(items, items.len() as int, id, k);
        let j = choose|j: int| 0 <= j < items.len() && writes_prop(#[trigger] items[j], id, k);
        assert(writes_prop(txs[n - 1].items@[j], id, k));
    } else {
        lemma_last_write_txs_exists(txs, n - 1, id, k);
        let (t, j) = choose|t: int, j: int|
            0 <= t < n - 1 && 0 <= j < txs[t].items@.len() && writes_prop(
                #[trigger] txs[t].items@[j],
                id,
                k,
            );
        assert(writes_prop(txs[t].items@[j], id, k));
    }
}

} // verus!

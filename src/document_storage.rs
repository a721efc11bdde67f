use vstd::prelude::*;

use crate::ids::new_uuid;
use crate::message::{DocumentMutation, ObjectId, ObjectKind, PropKind, PropValue, Transaction};
use crate::model::{
    apply_items, apply_mutation, apply_prefix, is_live, map_get, read_deleted, read_kind,
    read_prop, DocModel,
};
use crate::table::{
    keys_unique, lemma_to_map_get, lemma_to_map_push, lemma_to_map_swap_remove,
    lemma_to_map_update, to_map,
};

verus! {

/// What the store knows of one object id: its kind, if it was ever created, and its tombstone.
#[derive(Debug, Clone, Copy, PartialEq, Eq, Structural)]
pub struct ObjectEntry {
    pub kind: Option<ObjectKind>,
    pub deleted: bool,
}

/// The committed base layer: an object table and a property table, each keyed uniquely.
#[derive(Debug)]
pub struct DocumentStorage {
    document_id: ObjectId,
    objects: Vec<(ObjectId, ObjectEntry)>,
    props: Vec<((ObjectId, PropKind), PropValue)>,
}

pub open spec fn objects_of(entries: Seq<(ObjectId, ObjectEntry)>) -> Map<ObjectId, ObjectKind> {
    Map::new(
        |id: ObjectId| to_map(entries).contains_key(id) && to_map(entries)[id].kind is Some,
        |id: ObjectId| to_map(entries)[id].kind->0,
    )
}

pub open spec fn deleted_of(entries: Seq<(ObjectId, ObjectEntry)>) -> Set<ObjectId> {
    Set::new(|id: ObjectId| to_map(entries).contains_key(id) && to_map(entries)[id].deleted)
}

impl View for DocumentStorage {
    type V = DocModel;

    closed spec fn view(&self) -> DocModel {
        DocModel {
            objects: objects_of(self.objects@),
            deleted: deleted_of(self.objects@),
            props: to_map(self.props@),
        }
    }
}

/// Two stores with the same tables read the same: rebuilding a store from its own tables
/// (`object_entries`, `prop_entries`, `from_entries`) gives it back.
pub proof fn lemma_same_tables_same_view(a: DocumentStorage, b: DocumentStorage)
    requires
        a.object_table() == b.object_table(),
        a.prop_table() == b.prop_table(),
    ensures
        a@ == b@,
{
}

impl DocumentStorage {
    pub closed spec fn wf(&self) -> bool {
        keys_unique(self.objects@) && keys_unique(self.props@)
    }

    pub closed spec fn object_table(&self) -> Seq<(ObjectId, ObjectEntry)> {
        self.objects@
    }

    pub closed spec fn prop_table(&self) -> Seq<((ObjectId, PropKind), PropValue)> {
        self.props@
    }

    pub closed spec fn spec_document_id(&self) -> ObjectId {
        self.document_id
    }

    /// A store that holds only its document object, under a fresh id.
    pub fn new() -> (r: DocumentStorage)
        ensures
            r.wf(),
            r@.objects == Map::<ObjectId, ObjectKind>::empty().insert(
                r.spec_document_id(),
                ObjectKind::Document,
            ),
            r@.deleted == Set::<ObjectId>::empty(),
            r@.props == Map::<(ObjectId, PropKind), PropValue>::empty(),
    {
        let document_id = new_uuid();
        let mut objects: Vec<(ObjectId, ObjectEntry)> = Vec::new();
        let entry = ObjectEntry { kind: Some(ObjectKind::Document), deleted: false };
        proof {
            lemma_to_map_push(objects@, document_id, entry);
        }
        objects.push((document_id, entry));
        let r = DocumentStorage { document_id, objects, props: Vec::new() };
        proof {
            assert(to_map(r.props@) =~= Map::empty());
            assert(r@.objects =~= Map::<ObjectId, ObjectKind>::empty().insert(
                document_id,
                ObjectKind::Document,
            ));
            assert(r@.deleted =~= Set::<ObjectId>::empty());
        }
        r
    }

    /// The object table, one entry per id.
    pub fn object_entries(&self) -> (r: Vec<(ObjectId, ObjectEntry)>)
        requires
            self.wf(),
        ensures
            r@ == self.object_table(),
            keys_unique(r@),
    {
        let mut r: Vec<(ObjectId, ObjectEntry)> = Vec::new();
        let mut i: usize = 0;
        while i < self.objects.len()
            invariant
                i <= self.objects@.len(),
                r@ == self.objects@.subrange(0, i as int),
            decreases self.objects@.len() - i,
        {
            r.push(self.objects[i]);
            i = i + 1;
        }
        assert(self.objects@.subrange(0, self.objects@.len() as int) =~= self.objects@);
        r
    }

    /// The property table, one entry per key.
    pub fn prop_entries(&self) -> (r: Vec<((ObjectId, PropKind), PropValue)>)
        requires
            self.wf(),
        ensures
            r@ == self.prop_table(),
            keys_unique(r@),
    {
        let mut r: Vec<((ObjectId, PropKind), PropValue)> = Vec::new();
        let mut i: usize = 0;
        while i < self.props.len()
            invariant
                i <= self.props@.len(),
                r@.len() == i,
                forall|j: int| 0 <= j < i ==> #[trigger] r@[j] == self.props@[j],
            decreases self.props@.len() - i,
        {
            r.push((self.props[i].0, self.props[i].1.clone()));
            i = i + 1;
        }
        assert(r@ =~= self.props@);
        r
    }

    /// Rebuilds a store from its tables; `None` when a key occurs twice in a table.
    pub fn from_entries(
        document_id: ObjectId,
        objects: Vec<(ObjectId, ObjectEntry)>,
        props: Vec<((ObjectId, PropKind), PropValue)>,
    ) -> (r: Option<DocumentStorage>)
        ensures
            r is Some <==> keys_unique(objects@) && keys_unique(props@),
            r matches Some(d) ==> d.wf() && d.spec_document_id() == document_id
                && d.object_table() == objects@ && d.prop_table() == props@,
    {
        let mut i: usize = 0;
        while i < objects.len()
            invariant
                i <= objects@.len(),
                forall|a: int, b: int| 0 <= a < i && 0 <= b < objects@.len() && a != b ==> objects@[a].0 != objects@[b].0,
            decreases objects@.len() - i,
        {
            let mut j: usize = 0;
            while j < objects.len()
                invariant
                    i < objects@.len(),
                    j <= objects@.len(),
                    forall|a: int, b: int| 0 <= a < i && 0 <= b < objects@.len() && a != b ==> objects@[a].0 != objects@[b].0,
                    forall|b: int| 0 <= b < j && b != i ==> objects@[i as int].0 != objects@[b].0,
                decreases objects@.len() - j,
            {
                if j != i && objects[i].0 == objects[j].0 {
                    return None;
                }
                j = j + 1;
            }
            i = i + 1;
        }
        let mut i: usize = 0;
        while i < props.len()
            invariant
                keys_unique(objects@),
                i <= props@.len(),
                forall|a: int, b: int| 0 <= a < i && 0 <= b < props@.len() && a != b ==> props@[a].0 != props@[b].0,
            decreases props@.len() - i,
        {
            let mut j: usize = 0;
            while j < props.len()
                invariant
                    keys_unique(objects@),
                    i < props@.len(),
                    j <= props@.len(),
                    forall|a: int, b: int| 0 <= a < i && 0 <= b < props@.len() && a != b ==> props@[a].0 != props@[b].0,
                    forall|b: int| 0 <= b < j && b != i ==> props@[i as int].0 != props@[b].0,
                decreases props@.len() - j,
            {
                if j != i && props[i].0.0 == props[j].0.0 && props[i].0.1 == props[j].0.1 {
                    return None;
                }
                j = j + 1;
            }
            i = i + 1;
        }
        Some(DocumentStorage { document_id, objects, props })
    }

    pub fn document_id(&self) -> (r: ObjectId)
        ensures
            r == self.spec_document_id(),
    {
        self.document_id
    }

    fn find_object(&self, id: ObjectId) -> (r: Option<usize>)
        ensures
            match r {
                Some(i) => i < self.objects@.len() && self.objects@[i as int].0 == id,
                None => forall|i: int| 0 <= i < self.objects@.len() ==> self.objects@[i].0 != id,
            },
    {
        let mut i: usize = 0;
        while i < self.objects.len()
            invariant
                i <= self.objects@.len(),
                forall|j: int| 0 <= j < i ==> self.objects@[j].0 != id,
            decreases self.objects@.len() - i,
        {
            if self.objects[i].0 == id {
                return Some(i);
            }
            i = i + 1;
        }
        None
    }

    fn find_prop(&self, id: ObjectId, k: PropKind) -> (r: Option<usize>)
        ensures
            match r {
                Some(i) => i < self.props@.len() && self.props@[i as int].0 == (id, k),
                None => forall|i: int| 0 <= i < self.props@.len() ==> self.props@[i].0 != (id, k),
            },
    {
        let mut i: usize = 0;
        while i < self.props.len()
            invariant
                i <= self.props@.len(),
                forall|j: int| 0 <= j < i ==> self.props@[j].0 != (id, k),
            decreases self.props@.len() - i,
        {
            if self.props[i].0.0 == id && self.props[i].0.1 == k {
                return Some(i);
            }
            i = i + 1;
        }
        None
    }

    fn object_entry(&self, id: ObjectId) -> (r: Option<ObjectEntry>)
        requires
            self.wf(),
        ensures
            r == map_get(to_map(self.objects@), id),
    {
        proof {
            lemma_to_map_get(self.objects@, id);
        }
        match self.find_object(id) {
            Some(i) => Some(self.objects[i].1),
            None => None,
        }
    }

    fn set_object_entry(&mut self, id: ObjectId, e: ObjectEntry)
        requires
            old(self).wf(),
        ensures
            final(self).wf(),
            to_map(final(self).objects@) == to_map(old(self).objects@).insert(id, e),
            final(self).props == old(self).props,
            final(self).document_id == old(self).document_id,
    {
        match self.find_object(id) {
            Some(i) => {
                proof {
                    lemma_to_map_update(self.objects@, i as int, e);
                }
                self.objects.set(i, (id, e));
            },
            None => {
                proof {
                    lemma_to_map_push(self.objects@, id, e);
                }
                self.objects.push((id, e));
            },
        }
    }

    /// Applies one mutation.
    fn mutate(&mut self, m: &DocumentMutation)
        requires
            old(self).wf(),
        ensures
            final(self).wf(),
            final(self)@ == apply_mutation(old(self)@, *m),
            final(self).document_id == old(self).document_id,
    {
        let ghost before = self@;
        match m {
            DocumentMutation::CreateObject(id, k) => {
                self.set_object_entry(*id, ObjectEntry { kind: Some(*k), deleted: false });
                assert(self@.objects =~= before.objects.insert(*id, *k));
                assert(self@.deleted =~= before.deleted.remove(*id));
            },
            DocumentMutation::DeleteObject(id) => {
                let kind = match self.object_entry(*id) {
                    Some(e) => e.kind,
                    None => None,
                };
                self.set_object_entry(*id, ObjectEntry { kind, deleted: true });
                assert(self@.objects =~= before.objects);
                assert(self@.deleted =~= before.deleted.insert(*id));
            },
            DocumentMutation::UpsertProp(id, k, v) => {
                let found = self.find_prop(*id, *k);
                match v {
                    Some(v) => {
                        let v = v.clone();
                        match found {
                            Some(i) => {
                                proof {
                                    lemma_to_map_update(self.props@, i as int, v);
                                }
                                self.props.set(i, ((*id, *k), v));
                            },
                            None => {
                                proof {
                                    lemma_to_map_push(self.props@, (*id, *k), v);
                                }
                                self.props.push(((*id, *k), v));
                            },
                        }
                    },
                    None => {
                        match found {
                            Some(i) => {
                                proof {
                                    lemma_to_map_swap_remove(self.props@, i as int);
                                }
                                self.props.swap_remove(i);
                            },
                            None => {
                                proof {
                                    lemma_to_map_get(self.props@, (*id, *k));
                                    assert(to_map(self.props@) =~= to_map(self.props@).remove(
                                        (*id, *k),
                                    ));
                                }
                            },
                        }
                    },
                }
                assert(self@.objects =~= before.objects);
                assert(self@.deleted =~= before.deleted);
            },
        }
    }

    /// Applies every mutation of a transaction, in order. It never fails.
    pub fn process(&mut self, tx: &Transaction) -> (r: Result<(), ()>)
        requires
            old(self).wf(),
        ensures
            final(self).wf(),
            final(self)@ == apply_items(old(self)@, tx.items@),
            final(self).spec_document_id() == old(self).spec_document_id(),
            r is Ok,
    {
        let ghost start = self@;
        let mut i: usize = 0;
        while i < tx.items.len()
            invariant
                i <= tx.items@.len(),
                self.wf(),
                self@ == apply_prefix(start, tx.items@, i as int),
                self.document_id == old(self).document_id,
            decreases tx.items@.len() - i,
        {
            self.mutate(&tx.items[i]);
            i = i + 1;
        }
        Ok(())
    }

    pub fn get_prop(&self, id: ObjectId, k: PropKind) -> (r: Option<PropValue>)
        requires
            self.wf(),
        ensures
            r == read_prop(self@, id, k),
    {
        match self.object_entry(id) {
            Some(e) => if e.deleted {
                return None;
            },
            None => {},
        }
        proof {
            lemma_to_map_get(self.props@, (id, k));
        }
        match self.find_prop(id, k) {
            Some(i) => Some(self.props[i].1.clone()),
            None => None,
        }
    }

    /// The raw property table entry, whether or not the object is live.
    pub fn get_raw_prop(&self, id: ObjectId, k: PropKind) -> (r: Option<PropValue>)
        requires
            self.wf(),
        ensures
            r == map_get(self@.props, (id, k)),
    {
        proof {
            lemma_to_map_get(self.props@, (id, k));
        }
        match self.find_prop(id, k) {
            Some(i) => Some(self.props[i].1.clone()),
            None => None,
        }
    }

    /// Every object with a raw property of kind `k`, possibly with repeats.
    pub fn objects_with_prop(&self, k: PropKind) -> (r: Vec<ObjectId>)
        requires
            self.wf(),
        ensures
            forall|id: ObjectId| #[trigger] self@.props.contains_key((id, k)) ==> r@.contains(id),
    {
        let mut r: Vec<ObjectId> = Vec::new();
        let mut i: usize = 0;
        while i < self.props.len()
            invariant
                i <= self.props@.len(),
                forall|j: int|
                    0 <= j < i && (#[trigger] self.props@[j]).0.1 == k ==> r@.contains(
                        self.props@[j].0.0,
                    ),
            decreases self.props@.len() - i,
        {
            if self.props[i].0.1 == k {
                let id = self.props[i].0.0;
                let ghost before = r@;
                r.push(id);
                proof {
                    crate::transaction_manager::lemma_push_keeps(before, id);
                }
            }
            i = i + 1;
        }
        proof {
            assert forall|id: ObjectId| #[trigger] self@.props.contains_key((id, k)) implies r@.contains(id) by {
                crate::table::lemma_to_map_contains(self.props@, (id, k));
                let j = choose|j: int| 0 <= j < self.props@.len() && #[trigger] self.props@[j].0 == (id, k);
                assert(self.props@[j].0.1 == k);
            }
        }
        r
    }

    pub fn is_live(&self, id: ObjectId) -> (r: bool)
        requires
            self.wf(),
        ensures
            r == is_live(self@, id),
    {
        match self.object_entry(id) {
            Some(e) => e.kind.is_some() && !e.deleted,
            None => false,
        }
    }

    pub fn get_object_kind(&self, id: ObjectId) -> (r: Option<ObjectKind>)
        requires
            self.wf(),
        ensures
            r == read_kind(self@, id),
    {
        match self.object_entry(id) {
            Some(e) => if e.deleted {
                None
            } else {
                e.kind
            },
            None => None,
        }
    }

    pub fn is_deleted(&self, id: ObjectId) -> (r: Option<bool>)
        requires
            self.wf(),
        ensures
            r == read_deleted(self@, id),
    {
        match self.object_entry(id) {
            Some(e) => if e.deleted {
                Some(true)
            } else if e.kind.is_some() {
                Some(false)
            } else {
                None
            },
            None => None,
        }
    }
}

} // verus!

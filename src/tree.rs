use vstd::prelude::*;

use crate::fractional_index::{index_less, index_lt, is_valid_index, mid, parse_index};
use crate::message::{ObjectId, PropKind, PropValue};
use crate::model::{read_prop, DocModel};
use crate::transactional_document::TransactionalDocument;

verus! {

/// How many ancestors a walk up the tree visits before it gives up; a longer chain is
/// treated as a cycle.
pub const MAX_DEPTH: u64 = 1024;

pub open spec fn parent_of(m: DocModel, id: ObjectId) -> Option<ObjectId> {
    match read_prop(m, id, PropKind::Parent) {
        Some(PropValue::Reference(p)) => Some(p),
        _ => None,
    }
}

/// A child of `parent`: a live object (created, not tombstoned) whose parent is `parent`.
pub open spec fn is_child(m: DocModel, id: ObjectId, parent: ObjectId) -> bool {
    parent_of(m, id) == Some(parent) && crate::model::is_live(m, id)
}

/// The index an object sorts by: its `Index` property when that is a valid fractional
/// index, the middle index otherwise.
pub open spec fn sort_index(m: DocModel, id: ObjectId) -> Seq<char> {
    match read_prop(m, id, PropKind::Index) {
        Some(PropValue::String(s)) => if is_valid_index(s@) {
            s@
        } else {
            seq!['O']
        },
        _ => seq!['O'],
    }
}

/// Sibling order: by index, then by object id.
pub open spec fn key_lt(ka: Seq<char>, a: ObjectId, kb: Seq<char>, b: ObjectId) -> bool {
    index_lt(ka, kb) || (!index_lt(kb, ka) && a < b)
}

pub open spec fn sorted_children(s: Seq<(ObjectId, String)>) -> bool {
    forall|i: int|
        0 <= i < s.len() - 1 ==> #[trigger] key_lt(s[i].1@, s[i].0, s[i + 1].1@, s[i + 1].0)
}

/// `s` lists the live children of `parent`, each once with its sort index, in sibling
/// order.
pub open spec fn children_listing(m: DocModel, parent: ObjectId, s: Seq<(ObjectId, Seq<char>)>) -> bool {
    &&& forall|i: int|
        0 <= i < s.len() ==> is_child(m, #[trigger] s[i].0, parent) && s[i].1 == sort_index(m, s[i].0)
    &&& forall|id: ObjectId| is_child(m, id, parent) ==> exists|i: int| 0 <= i < s.len() && #[trigger] s[i].0 == id
    &&& forall|i: int, j: int| 0 <= i < j < s.len() ==> s[i].0 != s[j].0
    &&& forall|i: int|
        0 <= i < s.len() - 1 ==> #[trigger] key_lt(s[i].1, s[i].0, s[i + 1].1, s[i + 1].0)
}

/// `ids` are the live children of `parent` in sibling order.
pub open spec fn lists_children_in_order(m: DocModel, parent: ObjectId, ids: Seq<ObjectId>) -> bool {
    exists|s: Seq<(ObjectId, Seq<char>)>|
        #[trigger] children_listing(m, parent, s) && s.len() == ids.len() && forall|i: int|
            0 <= i < s.len() ==> s[i].0 == ids[i]
}

/// The spec view of an executable listing.
pub open spec fn listing_of(v: Seq<(ObjectId, String)>) -> Seq<(ObjectId, Seq<char>)> {
    Seq::new(v.len(), |i: int| (v[i].0, v[i].1@))
}

/// Siblings come in non-decreasing index order, are children of their parent, and are
/// live.
pub proof fn lemma_sibling_order(m: DocModel, parent: ObjectId, s: Seq<(ObjectId, Seq<char>)>, i: int)
    requires
        children_listing(m, parent, s),
        0 <= i < s.len() - 1,
    ensures
        !index_lt(sort_index(m, s[i + 1].0), sort_index(m, s[i].0)),
        parent_of(m, s[i].0) == Some(parent),
        crate::model::is_live(m, s[i].0),
{
    assert(key_lt(s[i].1, s[i].0, s[i + 1].1, s[i + 1].0));
    crate::fractional_index::lemma_index_asymmetric(s[i].1, s[i + 1].1);
    assert(is_child(m, s[i].0, parent));
}

/// The sibling order is transitive.
pub proof fn lemma_key_transitive(
    ka: Seq<char>,
    a: ObjectId,
    kb: Seq<char>,
    b: ObjectId,
    kc: Seq<char>,
    c: ObjectId,
)
    requires
        key_lt(ka, a, kb, b),
        key_lt(kb, b, kc, c),
    ensures
        key_lt(ka, a, kc, c),
{
    crate::fractional_index::lemma_index_total(ka, kb);
    crate::fractional_index::lemma_index_total(kb, kc);
    crate::fractional_index::lemma_index_irreflexive(ka);
    crate::fractional_index::lemma_index_asymmetric(ka, kc);
    if index_lt(ka, kb) && index_lt(kb, kc) {
        crate::fractional_index::lemma_index_transitive(ka, kb, kc);
    }
}

/// Any two siblings of a listing, not only neighbours, are in sibling order: the earlier
/// one's index is not greater, and on equal indices its id is smaller.
pub proof fn lemma_sibling_pairs(m: DocModel, parent: ObjectId, s: Seq<(ObjectId, Seq<char>)>, i: int, j: int)
    requires
        children_listing(m, parent, s),
        0 <= i < j < s.len(),
    ensures
        key_lt(s[i].1, s[i].0, s[j].1, s[j].0),
        !index_lt(sort_index(m, s[j].0), sort_index(m, s[i].0)),
        sort_index(m, s[i].0) == sort_index(m, s[j].0) ==> s[i].0 < s[j].0,
    decreases j - i,
{
    let k = j - 1;
    assert(key_lt(s[k].1, s[k].0, s[k + 1].1, s[k + 1].0));
    assert(k + 1 == j);
    if i < j - 1 {
        lemma_sibling_pairs(m, parent, s, i, j - 1);
        lemma_key_transitive(s[i].1, s[i].0, s[j - 1].1, s[j - 1].0, s[j].1, s[j].0);
    }
    assert(is_child(m, s[i].0, parent));
    assert(is_child(m, s[j].0, parent));
    crate::fractional_index::lemma_index_asymmetric(s[i].1, s[j].1);
    crate::fractional_index::lemma_index_irreflexive(s[i].1);
}

pub open spec fn local_x(m: DocModel, id: ObjectId) -> int {
    match read_prop(m, id, PropKind::PosX) {
        Some(PropValue::Number(n)) => n as int,
        _ => 0,
    }
}

pub open spec fn local_y(m: DocModel, id: ObjectId) -> int {
    match read_prop(m, id, PropKind::PosY) {
        Some(PropValue::Number(n)) => n as int,
        _ => 0,
    }
}

/// The offset from an object's space to the document's: its own position plus those
/// of its ancestors. `None` when the chain of parents is longer than `depth`.
pub open spec fn global_position(m: DocModel, id: ObjectId, depth: nat) -> Option<(int, int)>
    decreases depth,
{
    match parent_of(m, id) {
        None => Some((local_x(m, id), local_y(m, id))),
        Some(p) => if depth == 0 {
            None
        } else {
            match global_position(m, p, (depth - 1) as nat) {
                Some((x, y)) => Some((x + local_x(m, id), y + local_y(m, id))),
                None => None,
            }
        },
    }
}

/// A global position is the sum of at most `depth + 1` coordinates.
pub proof fn lemma_global_position_bounds(m: DocModel, id: ObjectId, depth: nat)
    ensures
        global_position(m, id, depth) matches Some((x, y)) ==> -(depth + 1) * 2147483648 <= x <= (
        depth + 1) * 2147483647 && -(depth + 1) * 2147483648 <= y <= (depth + 1) * 2147483647,
    decreases depth,
{
    if depth > 0 {
        if let Some(p) = parent_of(m, id) {
            lemma_global_position_bounds(m, p, (depth - 1) as nat);
        }
    }
}

/// `o` is `x` or one of its ancestors within `depth` steps.
pub open spec fn on_chain(m: DocModel, x: ObjectId, o: ObjectId, depth: nat) -> bool
    decreases depth,
{
    x == o || (depth > 0 && match parent_of(m, x) {
        Some(p) => on_chain(m, p, o, (depth - 1) as nat),
        None => false,
    })
}

pub proof fn lemma_on_chain_deeper(m: DocModel, x: ObjectId, o: ObjectId, depth: nat, more: nat)
    requires
        depth <= more,
        on_chain(m, x, o, depth),
    ensures
        on_chain(m, x, o, more),
    decreases depth,
{
    if x != o {
        if let Some(p) = parent_of(m, x) {
            lemma_on_chain_deeper(m, p, o, (depth - 1) as nat, (more - 1) as nat);
        }
    }
}

/// Changing only the properties of `o` leaves the global position of objects that do not
/// have `o` on their chain unchanged.
pub proof fn lemma_global_frame(m: DocModel, m2: DocModel, o: ObjectId, x: ObjectId, depth: nat)
    requires
        forall|y: ObjectId, k: PropKind| y != o ==> #[trigger] read_prop(m2, y, k) == read_prop(m, y, k),
        !on_chain(m, x, o, depth),
    ensures
        global_position(m2, x, depth) == global_position(m, x, depth),
    decreases depth,
{
    assert(read_prop(m2, x, PropKind::Parent) == read_prop(m, x, PropKind::Parent));
    assert(read_prop(m2, x, PropKind::PosX) == read_prop(m, x, PropKind::PosX));
    assert(read_prop(m2, x, PropKind::PosY) == read_prop(m, x, PropKind::PosY));
    if depth > 0 {
        if let Some(p) = parent_of(m, x) {
            lemma_global_frame(m, m2, o, p, (depth - 1) as nat);
        }
    }
}

/// A global position found within some depth is found the same within any larger depth.
pub proof fn lemma_global_deeper(m: DocModel, x: ObjectId, depth: nat, more: nat)
    requires
        depth <= more,
        global_position(m, x, depth) is Some,
    ensures
        global_position(m, x, more) == global_position(m, x, depth),
    decreases depth,
{
    if let Some(p) = parent_of(m, x) {
        lemma_global_deeper(m, p, (depth - 1) as nat, (more - 1) as nat);
    }
}

pub open spec fn shifted(o: Option<(int, int)>, dx: int, dy: int) -> Option<(int, int)> {
    match o {
        Some((x, y)) => Some((x + dx, y + dy)),
        None => None,
    }
}

/// Any two distinct entries are ordered one way or the other.
proof fn lemma_key_total(ka: Seq<char>, a: ObjectId, kb: Seq<char>, b: ObjectId)
    requires
        a != b,
    ensures
        key_lt(ka, a, kb, b) || key_lt(kb, b, ka, a),
{
}

fn key_less(ka: &String, a: ObjectId, kb: &String, b: ObjectId) -> (r: bool)
    ensures
        r == key_lt(ka@, a, kb@, b),
{
    index_less(ka.as_str(), kb.as_str()) || (!index_less(kb.as_str(), ka.as_str()) && a < b)
}

/// Inserts an entry whose id is new into a sorted list, keeping it sorted.
fn insert_sorted(v: &mut Vec<(ObjectId, String)>, id: ObjectId, key: String)
    requires
        sorted_children(old(v)@),
        forall|i: int| 0 <= i < old(v)@.len() ==> old(v)@[i].0 != id,
    ensures
        sorted_children(final(v)@),
        exists|p: int| 0 <= p <= old(v)@.len() && final(v)@ == old(v)@.insert(p, (id, key)),
{
    let mut p: usize = 0;
    while p < v.len()
        invariant
            p <= v@.len(),
            forall|j: int| 0 <= j < p ==> !key_lt(key@, id, #[trigger] v@[j].1@, v@[j].0),
        ensures
            p <= v@.len(),
            forall|j: int| 0 <= j < p ==> !key_lt(key@, id, #[trigger] v@[j].1@, v@[j].0),
            p < v@.len() ==> key_lt(key@, id, v@[p as int].1@, v@[p as int].0),
        decreases v@.len() - p,
    {
        if key_less(&key, id, &v[p].1, v[p].0) {
            break;
        }
        p = p + 1;
    }
    let ghost before = v@;
    proof {
        before.insert_ensures(p as int, (id, key));
        if p > 0 {
            lemma_key_total(before[p - 1].1@, before[p - 1].0, key@, id);
        }
    }
    v.insert(p, (id, key));
    proof {
        let s = v@;
        assert forall|i: int| 0 <= i < s.len() - 1 implies #[trigger] key_lt(
            s[i].1@,
            s[i].0,
            s[i + 1].1@,
            s[i + 1].0,
        ) by {
            if i + 1 < p {
                assert(key_lt(before[i].1@, before[i].0, before[i + 1].1@, before[i + 1].0));
            } else if i + 1 == p {
            } else if i == p {
            } else {
                assert(key_lt(before[i - 1].1@, before[i - 1].0, before[i].1@, before[i].0));
            }
        }
    }
}

fn contains_id(v: &Vec<(ObjectId, String)>, id: ObjectId) -> (r: bool)
    ensures
        r == exists|i: int| 0 <= i < v@.len() && #[trigger] v@[i].0 == id,
{
    let mut i: usize = 0;
    while i < v.len()
        invariant
            i <= v@.len(),
            forall|j: int| 0 <= j < i ==> v@[j].0 != id,
        decreases v@.len() - i,
    {
        if v[i].0 == id {
            return true;
        }
        i = i + 1;
    }
    false
}

impl TransactionalDocument {
    /// The index an object sorts by among its siblings.
    pub fn sort_index_of(&self, id: ObjectId) -> (r: String)
        requires
            self.wf(),
        ensures
            r@ == sort_index(self.model(), id),
            is_valid_index(r@),
    {
        match self.get_prop(id, PropKind::Index) {
            Some(PropValue::String(s)) => if parse_index(s.as_str()) {
                s
            } else {
                mid()
            },
            _ => mid(),
        }
    }

    /// The live children of `parent` with their indices, ordered by index and then by id.
    pub fn get_children_indices(&self, parent: ObjectId) -> (r: Vec<(ObjectId, String)>)
        requires
            self.wf(),
        ensures
            forall|i: int|
                0 <= i < r@.len() ==> is_child(self.model(), #[trigger] r@[i].0, parent)
                    && r@[i].1@ == sort_index(self.model(), r@[i].0),
            forall|id: ObjectId|
                is_child(self.model(), id, parent) ==> exists|i: int|
                    0 <= i < r@.len() && #[trigger] r@[i].0 == id,
            forall|i: int, j: int| 0 <= i < j < r@.len() ==> r@[i].0 != r@[j].0,
            sorted_children(r@),
            children_listing(self.model(), parent, listing_of(r@)),
    {
        let candidates = self.objects_with_prop(PropKind::Parent);
        let mut r: Vec<(ObjectId, String)> = Vec::new();
        let mut c: usize = 0;
        while c < candidates.len()
            invariant
                self.wf(),
                c <= candidates@.len(),
                forall|id: ObjectId|
                    #[trigger] read_prop(self.model(), id, PropKind::Parent) is Some
                        ==> candidates@.contains(id),
                forall|i: int|
                    0 <= i < r@.len() ==> is_child(self.model(), #[trigger] r@[i].0, parent)
                        && r@[i].1@ == sort_index(self.model(), r@[i].0),
                forall|j: int|
                    0 <= j < c && is_child(self.model(), #[trigger] candidates@[j], parent)
                        ==> exists|i: int| 0 <= i < r@.len() && #[trigger] r@[i].0 == candidates@[j],
                forall|i: int, j: int| 0 <= i < j < r@.len() ==> r@[i].0 != r@[j].0,
                sorted_children(r@),
            decreases candidates@.len() - c,
        {
            let id = candidates[c];
            let is_child_here = match self.get_id_prop(id, PropKind::Parent) {
                Some(p) => p == parent && self.get_object_kind(id).is_some(),
                None => false,
            };
            if is_child_here && !contains_id(&r, id) {
                let key = self.sort_index_of(id);
                let ghost before = r@;
                insert_sorted(&mut r, id, key);
                proof {
                    let p = choose|p: int| 0 <= p <= before.len() && r@ == before.insert(p, (id, key));
                    before.insert_ensures(p, (id, key));
                    assert forall|i: int| 0 <= i < r@.len() implies is_child(
                        self.model(),
                        #[trigger] r@[i].0,
                        parent,
                    ) && r@[i].1@ == sort_index(self.model(), r@[i].0) by {
                        if i < p {
                            assert(r@[i] == before[i]);
                        } else if i > p {
                            assert(r@[i] == before[i - 1]);
                        }
                    }
                    assert forall|j: int|
                        0 <= j <= c && is_child(
                            self.model(),
                            #[trigger] candidates@[j],
                            parent,
                        ) implies exists|i: int| 0 <= i < r@.len() && #[trigger] r@[i].0 == candidates@[j] by {
                        if j < c {
                            let i = choose|i: int| 0 <= i < before.len() && #[trigger] before[i].0 == candidates@[j];
                            if i < p {
                                assert(r@[i].0 == candidates@[j]);
                            } else {
                                assert(r@[i + 1].0 == candidates@[j]);
                            }
                        } else {
                            assert(r@[p].0 == candidates@[j]);
                        }
                    }
                    assert forall|i: int, j: int| 0 <= i < j < r@.len() implies r@[i].0 != r@[j].0 by {
                        if i < p && j < p {
                        } else if i < p && j == p {
                        } else if i < p {
                            assert(r@[j] == before[j - 1]);
                        } else if i == p {
                            assert(r@[j] == before[j - 1]);
                        } else {
                            assert(r@[i] == before[i - 1]);
                            assert(r@[j] == before[j - 1]);
                        }
                    }
                }
            }
            c = c + 1;
        }
        proof {
            assert forall|id: ObjectId| is_child(self.model(), id, parent) implies exists|i: int|
                0 <= i < r@.len() && #[trigger] r@[i].0 == id by {
                assert(read_prop(self.model(), id, PropKind::Parent) is Some);
                let j = choose|j: int| 0 <= j < candidates@.len() && candidates@[j] == id;
                assert(is_child(self.model(), candidates@[j], parent));
            }
            let l = listing_of(r@);
            assert forall|id: ObjectId| is_child(self.model(), id, parent) implies exists|i: int|
                0 <= i < l.len() && #[trigger] l[i].0 == id by {
                let i = choose|i: int| 0 <= i < r@.len() && #[trigger] r@[i].0 == id;
                assert(l[i].0 == id);
            }
            assert forall|i: int| 0 <= i < l.len() - 1 implies #[trigger] key_lt(l[i].1, l[i].0, l[i + 1].1, l[i + 1].0) by {
                assert(key_lt(r@[i].1@, r@[i].0, r@[i + 1].1@, r@[i + 1].0));
            }
        }
        r
    }

    /// The ids of the live children of `parent`, ordered by index and then by id.
    pub fn get_children(&self, parent: ObjectId) -> (r: Vec<ObjectId>)
        requires
            self.wf(),
        ensures
            exists|s: Seq<(ObjectId, String)>|
                {
                    &&& s.len() == r@.len()
                    &&& forall|i: int| 0 <= i < s.len() ==> #[trigger] s[i].0 == r@[i]
                    &&& forall|i: int|
                        0 <= i < s.len() ==> is_child(self.model(), #[trigger] s[i].0, parent)
                            && s[i].1@ == sort_index(self.model(), s[i].0)
                    &&& sorted_children(s)
                },
            forall|id: ObjectId| is_child(self.model(), id, parent) <==> r@.contains(id),
            r@.no_duplicates(),
            lists_children_in_order(self.model(), parent, r@),
    {
        let with_indices = self.get_children_indices(parent);
        let mut r: Vec<ObjectId> = Vec::new();
        let mut i: usize = 0;
        while i < with_indices.len()
            invariant
                i <= with_indices@.len(),
                r@.len() == i,
                forall|j: int| 0 <= j < i ==> #[trigger] r@[j] == with_indices@[j].0,
            decreases with_indices@.len() - i,
        {
            r.push(with_indices[i].0);
            i = i + 1;
        }
        proof {
            let l = listing_of(with_indices@);
            assert(children_listing(self.model(), parent, l));
            assert(forall|i: int| 0 <= i < l.len() ==> l[i].0 == r@[i]);
            assert forall|id: ObjectId| is_child(self.model(), id, parent) <==> r@.contains(id) by {
                if is_child(self.model(), id, parent) {
                    let i = choose|i: int| 0 <= i < with_indices@.len() && #[trigger] with_indices@[i].0 == id;
                    assert(r@[i] == id);
                }
                if r@.contains(id) {
                    let i = choose|i: int| 0 <= i < r@.len() && r@[i] == id;
                    assert(with_indices@[i].0 == id);
                }
            }
            assert forall|i: int, j: int| 0 <= i < r@.len() && 0 <= j < r@.len() && i != j implies r@[i] != r@[j] by {
                if i < j {
                    assert(with_indices@[i].0 != with_indices@[j].0);
                } else {
                    assert(with_indices@[j].0 != with_indices@[i].0);
                }
            }
        }
        r
    }

    /// An object's own offset.
    pub fn get_local_transform(&self, id: ObjectId) -> (r: (i32, i32))
        requires
            self.wf(),
        ensures
            r.0 as int == local_x(self.model(), id),
            r.1 as int == local_y(self.model(), id),
    {
        let x = match self.get_number_prop(id, PropKind::PosX) {
            Some(x) => x,
            None => 0,
        };
        let y = match self.get_number_prop(id, PropKind::PosY) {
            Some(y) => y,
            None => 0,
        };
        (x, y)
    }

    /// The offset from an object's space to the document's. `None` when the chain of
    /// parents is longer than `MAX_DEPTH`, as it is on a cycle.
    pub fn get_global_transform(&self, id: ObjectId) -> (r: Option<(i64, i64)>)
        requires
            self.wf(),
        ensures
            match r {
                Some((x, y)) => global_position(self.model(), id, MAX_DEPTH as nat) == Some(
                    (x as int, y as int),
                ),
                None => global_position(self.model(), id, MAX_DEPTH as nat) is None,
            },
    {
        let mut acc_x: i64 = 0;
        let mut acc_y: i64 = 0;
        let mut cur = id;
        let mut depth: u64 = MAX_DEPTH;
        loop
            invariant
                self.wf(),
                depth <= MAX_DEPTH,
                -((MAX_DEPTH - depth) as int) * 2147483648 <= acc_x <= (MAX_DEPTH - depth) as int
                    * 2147483648,
                -((MAX_DEPTH - depth) as int) * 2147483648 <= acc_y <= (MAX_DEPTH - depth) as int
                    * 2147483648,
                global_position(self.model(), id, MAX_DEPTH as nat) == shifted(
                    global_position(self.model(), cur, depth as nat),
                    acc_x as int,
                    acc_y as int,
                ),
            decreases depth,
        {
            let (lx, ly) = self.get_local_transform(cur);
            acc_x = acc_x + lx as i64;
            acc_y = acc_y + ly as i64;
            match self.get_id_prop(cur, PropKind::Parent) {
                None => {
                    return Some((acc_x, acc_y));
                },
                Some(p) => {
                    if depth == 0 {
                        return None;
                    }
                    depth = depth - 1;
                    cur = p;
                },
            }
        }
    }
}

} // verus!

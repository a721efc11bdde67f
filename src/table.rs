use vstd::prelude::*;

verus! {

/// No key occurs twice in the list.
pub open spec fn keys_unique<K, V>(s: Seq<(K, V)>) -> bool {
    forall|i: int, j: int| 0 <= i < s.len() && 0 <= j < s.len() && i != j ==> s[i].0 != s[j].0
}

/// The map that a list of entries denotes; a later entry wins.
pub open spec fn to_map<K, V>(s: Seq<(K, V)>) -> Map<K, V>
    decreases s.len(),
{
    if s.len() == 0 {
        Map::empty()
    } else {
        to_map(s.drop_last()).insert(s.last().0, s.last().1)
    }
}

/// The list after removing entry `i` by moving the last entry into its place.
pub open spec fn swap_remove<K, V>(s: Seq<(K, V)>, i: int) -> Seq<(K, V)> {
    s.update(i, s.last()).drop_last()
}

pub proof fn lemma_to_map_contains<K, V>(s: Seq<(K, V)>, k: K)
    ensures
        to_map(s).contains_key(k) <==> exists|i: int| 0 <= i < s.len() && #[trigger] s[i].0 == k,
    decreases s.len(),
{
    if s.len() > 0 {
        lemma_to_map_contains(s.drop_last(), k);
        if to_map(s.drop_last()).contains_key(k) {
            let i = choose|i: int| 0 <= i < s.drop_last().len() && #[trigger] s.drop_last()[i].0 == k;
            assert(s[i].0 == k);
        }
        if exists|i: int| 0 <= i < s.len() && #[trigger] s[i].0 == k {
            let i = choose|i: int| 0 <= i < s.len() && #[trigger] s[i].0 == k;
            if i < s.len() - 1 {
                assert(s.drop_last()[i].0 == k);
            }
        }
    }
}

pub proof fn lemma_to_map_index<K, V>(s: Seq<(K, V)>, i: int)
    requires
        keys_unique(s),
        0 <= i < s.len(),
    ensures
        to_map(s).contains_key(s[i].0),
        to_map(s)[s[i].0] == s[i].1,
    decreases s.len(),
{
    if i < s.len() - 1 {
        assert(s.drop_last()[i] == s[i]);
        lemma_to_map_index(s.drop_last(), i);
    }
}

/// The value of key `k` in the denoted map, given where `k` is or that it is absent.
pub proof fn lemma_to_map_get<K, V>(s: Seq<(K, V)>, k: K)
    requires
        keys_unique(s),
    ensures
        forall|i: int| 0 <= i < s.len() && s[i].0 == k ==> to_map(s).contains_key(k) && to_map(s)[k] == s[i].1,
        (forall|i: int| 0 <= i < s.len() ==> s[i].0 != k) ==> !to_map(s).contains_key(k),
{
    lemma_to_map_contains(s, k);
    assert forall|i: int| 0 <= i < s.len() && s[i].0 == k implies to_map(s).contains_key(k) && to_map(s)[k] == s[i].1 by {
        lemma_to_map_index(s, i);
    }
}

pub proof fn lemma_to_map_push<K, V>(s: Seq<(K, V)>, k: K, v: V)
    requires
        keys_unique(s),
        forall|i: int| 0 <= i < s.len() ==> s[i].0 != k,
    ensures
        keys_unique(s.push((k, v))),
        to_map(s.push((k, v))) == to_map(s).insert(k, v),
{
    assert(s.push((k, v)).drop_last() =~= s);
}

pub proof fn lemma_to_map_update<K, V>(s: Seq<(K, V)>, i: int, v: V)
    requires
        keys_unique(s),
        0 <= i < s.len(),
    ensures
        keys_unique(s.update(i, (s[i].0, v))),
        to_map(s.update(i, (s[i].0, v))) == to_map(s).insert(s[i].0, v),
{
    let t = s.update(i, (s[i].0, v));
    assert forall|k: K| #[trigger] to_map(t).contains_key(k) == to_map(s).insert(s[i].0, v).contains_key(k) by {
        lemma_to_map_contains(s, k);
        lemma_to_map_contains(t, k);
        if exists|j: int| 0 <= j < s.len() && #[trigger] s[j].0 == k {
            let j = choose|j: int| 0 <= j < s.len() && #[trigger] s[j].0 == k;
            assert(t[j].0 == k);
        }
        if exists|j: int| 0 <= j < t.len() && #[trigger] t[j].0 == k {
            let j = choose|j: int| 0 <= j < t.len() && #[trigger] t[j].0 == k;
            assert(s[j].0 == k);
        }
    }
    assert forall|k: K| #[trigger] to_map(t).contains_key(k) implies to_map(t)[k] == to_map(s).insert(s[i].0, v)[k] by {
        lemma_to_map_contains(t, k);
        let j = choose|j: int| 0 <= j < t.len() && #[trigger] t[j].0 == k;
        lemma_to_map_index(t, j);
        if j != i {
            lemma_to_map_index(s, j);
        }
    }
    assert(to_map(t) =~= to_map(s).insert(s[i].0, v));
}

pub proof fn lemma_to_map_swap_remove<K, V>(s: Seq<(K, V)>, i: int)
    requires
        keys_unique(s),
        0 <= i < s.len(),
    ensures
        keys_unique(swap_remove(s, i)),
        to_map(swap_remove(s, i)) == to_map(s).remove(s[i].0),
{
    let t = swap_remove(s, i);
    let last = s.len() - 1;
    assert(forall|j: int| 0 <= j < t.len() ==> #[trigger] t[j] == (if j == i { s[last] } else { s[j] }));
    assert forall|k: K| #[trigger] to_map(t).contains_key(k) == to_map(s).remove(s[i].0).contains_key(k) by {
        lemma_to_map_contains(s, k);
        lemma_to_map_contains(t, k);
        if exists|j: int| 0 <= j < s.len() && #[trigger] s[j].0 == k {
            let j = choose|j: int| 0 <= j < s.len() && #[trigger] s[j].0 == k;
            if j != i && k != s[i].0 {
                if j == last {
                    assert(t[i].0 == k);
                } else {
                    assert(t[j].0 == k);
                }
            }
        }
        if exists|j: int| 0 <= j < t.len() && #[trigger] t[j].0 == k {
            let j = choose|j: int| 0 <= j < t.len() && #[trigger] t[j].0 == k;
            if j == i {
                assert(s[last].0 == k);
            } else {
                assert(s[j].0 == k);
            }
        }
    }
    assert forall|k: K| #[trigger] to_map(t).contains_key(k) implies to_map(t)[k] == to_map(s).remove(s[i].0)[k] by {
        lemma_to_map_contains(t, k);
        let j = choose|j: int| 0 <= j < t.len() && #[trigger] t[j].0 == k;
        lemma_to_map_index(t, j);
        if j == i {
            lemma_to_map_index(s, last);
        } else {
            lemma_to_map_index(s, j);
        }
    }
    assert(to_map(t) =~= to_map(s).remove(s[i].0));
}

} // verus!

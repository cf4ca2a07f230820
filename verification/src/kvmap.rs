//! Association-sequence view of a keyed store.
//!
//! The engine keeps its keyed stores as vectors of `(key, value)` pairs with
//! pairwise distinct keys; this module gives such a sequence its mathematical
//! meaning as a `Map` and proves the few facts the exec code needs about
//! lookups, in-place updates, insertions and removals.

use vstd::prelude::*;

verus! {

/// The map denoted by an association sequence; a later pair overrides an
/// earlier one with the same key.
pub open spec fn map_of<V>(s: Seq<(usize, V)>) -> Map<usize, V>
    decreases s.len(),
{
    if s.len() == 0 {
        Map::empty()
    } else {
        map_of(s.drop_last()).insert(s.last().0, s.last().1)
    }
}

/// Whether some pair of the sequence carries the key.
pub open spec fn has_key<V>(s: Seq<(usize, V)>, k: usize) -> bool
    decreases s.len(),
{
    if s.len() == 0 {
        false
    } else {
        s.last().0 == k || has_key(s.drop_last(), k)
    }
}

/// No two pairs of the sequence share a key.
pub open spec fn keys_unique<V>(s: Seq<(usize, V)>) -> bool {
    forall|i: int, j: int| 0 <= i < j < s.len() ==> (#[trigger] s[i]).0 != (#[trigger] s[j]).0
}

/// `has_key` says exactly that some index holds the key.
pub proof fn lemma_has_key_index<V>(s: Seq<(usize, V)>, k: usize)
    ensures
        has_key(s, k) <==> exists|i: int| 0 <= i < s.len() && (#[trigger] s[i]).0 == k,
    decreases s.len(),
{
    if s.len() > 0 {
        lemma_has_key_index(s.drop_last(), k);
        if s.last().0 == k {
            assert(s[s.len() - 1].0 == k);
        } else if has_key(s.drop_last(), k) {
            let i = choose|i: int| 0 <= i < s.drop_last().len() && (#[trigger] s.drop_last()[i]).0
                == k;
            assert(s[i].0 == k);
        } else {
            assert forall|i: int| 0 <= i < s.len() implies (#[trigger] s[i]).0 != k by {
                if i < s.len() - 1 {
                    assert(s.drop_last()[i] == s[i]);
                }
            }
        }
    }
}

/// The map's domain is the set of keys the sequence carries.
pub proof fn lemma_map_of_dom<V>(s: Seq<(usize, V)>, k: usize)
    ensures
        map_of(s).contains_key(k) <==> has_key(s, k),
    decreases s.len(),
{
    if s.len() > 0 {
        lemma_map_of_dom(s.drop_last(), k);
    }
}

/// With distinct keys, the pair at any index gives the map's value at its key.
pub proof fn lemma_map_of_index<V>(s: Seq<(usize, V)>, i: int)
    requires
        keys_unique(s),
        0 <= i < s.len(),
    ensures
        map_of(s).contains_key(s[i].0),
        map_of(s)[s[i].0] == s[i].1,
    decreases s.len(),
{
    if i == s.len() - 1 {
    } else {
        assert(s.drop_last()[i] == s[i]);
        lemma_map_of_index(s.drop_last(), i);
        assert(s.last().0 != s[i].0);
    }
}

/// Replacing the pair that holds a key updates the map at that key alone.
pub proof fn lemma_map_of_update<V>(s: Seq<(usize, V)>, i: int, v: V)
    requires
        keys_unique(s),
        0 <= i < s.len(),
    ensures
        map_of(s.update(i, (s[i].0, v))) == map_of(s).insert(s[i].0, v),
        keys_unique(s.update(i, (s[i].0, v))),
    decreases s.len(),
{
    let k = s[i].0;
    let t = s.update(i, (k, v));
    assert forall|p: int, q: int| 0 <= p < q < t.len() implies (#[trigger] t[p]).0 != (
    #[trigger] t[q]).0 by {
        assert(t[p].0 == s[p].0 && t[q].0 == s[q].0);
    }
    if i == s.len() - 1 {
        assert(t.drop_last() =~= s.drop_last());
        assert(map_of(t) =~= map_of(s).insert(k, v));
    } else {
        assert(t.drop_last() =~= s.drop_last().update(i, (k, v)));
        assert(s.drop_last()[i] == s[i]);
        lemma_map_of_update(s.drop_last(), i, v);
        assert(s.last().0 != k);
        assert(map_of(t) =~= map_of(s).insert(k, v));
    }
}

/// Appending a pair with a fresh key inserts it into the map.
pub proof fn lemma_map_of_push<V>(s: Seq<(usize, V)>, k: usize, v: V)
    requires
        keys_unique(s),
        !has_key(s, k),
    ensures
        map_of(s.push((k, v))) == map_of(s).insert(k, v),
        keys_unique(s.push((k, v))),
        has_key(s.push((k, v)), k),
    decreases s.len(),
{
    let t = s.push((k, v));
    assert(t.drop_last() =~= s);
    lemma_has_key_index(s, k);
    assert forall|p: int, q: int| 0 <= p < q < t.len() implies (#[trigger] t[p]).0 != (
    #[trigger] t[q]).0 by {
        if q < t.len() - 1 {
            assert(t[p] == s[p] && t[q] == s[q]);
        } else {
            assert(t[p] == s[p] && t[q].0 == k);
        }
    }
}

/// Inserting a pair with a fresh key at any position inserts it into the map.
pub proof fn lemma_map_of_insert_at<V>(s: Seq<(usize, V)>, p: int, k: usize, v: V)
    requires
        keys_unique(s),
        !has_key(s, k),
        0 <= p <= s.len(),
    ensures
        map_of(s.insert(p, (k, v))) == map_of(s).insert(k, v),
        keys_unique(s.insert(p, (k, v))),
        has_key(s.insert(p, (k, v)), k),
    decreases s.len(),
{
    let t = s.insert(p, (k, v));
    lemma_has_key_index(s, k);
    assert forall|q: int, r: int| 0 <= q < r < t.len() implies (#[trigger] t[q]).0 != (
    #[trigger] t[r]).0 by {
        let sq = if q < p {
            q
        } else {
            q - 1
        };
        let sr = if r < p {
            r
        } else {
            r - 1
        };
        if q == p {
            assert(t[r] == s[sr]);
        } else if r == p {
            assert(t[q] == s[sq]);
        } else {
            assert(t[q] == s[sq] && t[r] == s[sr]);
        }
    }
    lemma_has_key_index(t, k);
    assert(t[p].0 == k);
    if p == s.len() {
        assert(t =~= s.push((k, v)));
        lemma_map_of_push(s, k, v);
    } else {
        assert(t.drop_last() =~= s.drop_last().insert(p, (k, v)));
        assert(t.last() == s.last());
        lemma_has_key_index(s.drop_last(), k);
        assert forall|q: int| 0 <= q < s.drop_last().len() implies (#[trigger] s.drop_last()[q]).0
            != k by {
            assert(s.drop_last()[q] == s[q]);
        }
        lemma_map_of_insert_at(s.drop_last(), p, k, v);
        assert(s.last().0 != k);
        assert(map_of(t) =~= map_of(s).insert(k, v));
    }
}

/// With distinct keys, the map holds exactly one entry per pair.
pub proof fn lemma_map_of_len<V>(s: Seq<(usize, V)>)
    requires
        keys_unique(s),
    ensures
        map_of(s).dom().finite(),
        map_of(s).len() == s.len(),
    decreases s.len(),
{
    if s.len() > 0 {
        lemma_map_of_len(s.drop_last());
        let k = s.last().0;
        lemma_map_of_dom(s.drop_last(), k);
        lemma_has_key_index(s.drop_last(), k);
        assert forall|p: int| 0 <= p < s.drop_last().len() implies (#[trigger] s.drop_last()[p]).0
            != k by {
            assert(s.drop_last()[p] == s[p]);
        }
        assert(!map_of(s.drop_last()).contains_key(k));
    }
}

/// Removing the pair that holds a key removes the key from the map.
pub proof fn lemma_map_of_remove<V>(s: Seq<(usize, V)>, i: int)
    requires
        keys_unique(s),
        0 <= i < s.len(),
    ensures
        map_of(s.remove(i)) == map_of(s).remove(s[i].0),
        keys_unique(s.remove(i)),
        !has_key(s.remove(i), s[i].0),
    decreases s.len(),
{
    let k = s[i].0;
    let t = s.remove(i);
    assert forall|p: int, q: int| 0 <= p < q < t.len() implies (#[trigger] t[p]).0 != (
    #[trigger] t[q]).0 by {
        let sp = if p < i {
            p
        } else {
            p + 1
        };
        let sq = if q < i {
            q
        } else {
            q + 1
        };
        assert(t[p] == s[sp] && t[q] == s[sq]);
    }
    lemma_has_key_index(t, k);
    assert forall|p: int| 0 <= p < t.len() implies (#[trigger] t[p]).0 != k by {
        let sp = if p < i {
            p
        } else {
            p + 1
        };
        assert(t[p] == s[sp]);
    }
    if i == s.len() - 1 {
        assert(t =~= s.drop_last());
        lemma_map_of_dom(s.drop_last(), k);
        lemma_has_key_index(s.drop_last(), k);
        assert forall|p: int| 0 <= p < s.drop_last().len() implies (#[trigger] s.drop_last()[p]).0
            != k by {
            assert(s.drop_last()[p] == s[p]);
        }
        assert(!map_of(s.drop_last()).contains_key(k));
        assert(map_of(t) =~= map_of(s).remove(k));
    } else {
        assert(t.drop_last() =~= s.drop_last().remove(i));
        assert(s.drop_last()[i] == s[i]);
        lemma_map_of_remove(s.drop_last(), i);
        assert(s.last().0 != k);
        assert(map_of(t) =~= map_of(s).remove(k));
    }
}

} // verus!

//! The mathematical model of the small store: a sequence of key-value pairs
//! read as a finite map, where the first occurrence of a key wins.

use vstd::prelude::*;

verus! {

/// No two pairs of the sequence carry the same key.
pub open spec fn keys_distinct<V>(s: Seq<(i64, V)>) -> bool {
    forall|i: int, j: int| 0 <= i < j < s.len() ==> s[i].0 != s[j].0
}

/// The map that a sequence of pairs denotes; an earlier pair shadows a later
/// one with the same key, as a front-to-back linear scan would find it.
pub open spec fn map_of<V>(s: Seq<(i64, V)>) -> Map<i64, V>
    decreases s.len(),
{
    if s.len() == 0 {
        Map::empty()
    } else {
        map_of(s.drop_first()).insert(s.first().0, s.first().1)
    }
}

/// A key is in the denoted map exactly when some pair of the sequence carries it.
pub proof fn lemma_map_of_contains<V>(s: Seq<(i64, V)>, k: i64)
    ensures
        map_of(s).contains_key(k) <==> exists|i: int| 0 <= i < s.len() && s[i].0 == k,
    decreases s.len(),
{
    if s.len() > 0 {
        lemma_map_of_contains(s.drop_first(), k);
        if s.first().0 == k {
            assert(s[0].0 == k);
        } else if map_of(s).contains_key(k) {
            let i = choose|i: int| 0 <= i < s.drop_first().len() && s.drop_first()[i].0 == k;
            assert(s[i + 1].0 == k);
        } else if exists|i: int| 0 <= i < s.len() && s[i].0 == k {
            let i = choose|i: int| 0 <= i < s.len() && s[i].0 == k;
            assert(s.drop_first()[i - 1].0 == k);
        }
    }
}

/// The denoted map sends a key to the value of the first pair that carries it.
pub proof fn lemma_map_of_index<V>(s: Seq<(i64, V)>, i: int)
    requires
        0 <= i < s.len(),
        forall|j: int| 0 <= j < i ==> s[j].0 != s[i].0,
    ensures
        map_of(s).contains_key(s[i].0),
        map_of(s)[s[i].0] == s[i].1,
    decreases s.len(),
{
    if i == 0 {
    } else {
        assert forall|j: int| #![trigger s.drop_first()[j]] 0 <= j < i - 1
            implies s.drop_first()[j].0 != s.drop_first()[i - 1].0 by {
            assert(s[j + 1].0 != s[i].0);
        }
        lemma_map_of_index(s.drop_first(), i - 1);
        assert(s[0].0 != s[i].0);
    }
}

/// Over distinct keys the denoted map has exactly one entry per pair.
pub proof fn lemma_map_of_len<V>(s: Seq<(i64, V)>)
    requires
        keys_distinct(s),
    ensures
        map_of(s).dom().finite(),
        map_of(s).len() == s.len(),
    decreases s.len(),
{
    if s.len() > 0 {
        assert forall|i: int, j: int| 0 <= i < j < s.drop_first().len()
            implies s.drop_first()[i].0 != s.drop_first()[j].0 by {
            assert(s[i + 1].0 != s[j + 1].0);
        }
        lemma_map_of_len(s.drop_first());
        lemma_map_of_contains(s.drop_first(), s.first().0);
        assert forall|i: int| 0 <= i < s.drop_first().len()
            implies s.drop_first()[i].0 != s.first().0 by {
            assert(s[i + 1].0 != s[0].0);
        }
    }
}

/// Appending a pair with a fresh key inserts it into the denoted map.
pub proof fn lemma_map_of_push<V>(s: Seq<(i64, V)>, k: i64, v: V)
    requires
        forall|i: int| 0 <= i < s.len() ==> s[i].0 != k,
    ensures
        map_of(s.push((k, v))) == map_of(s).insert(k, v),
    decreases s.len(),
{
    let t = s.push((k, v));
    if s.len() == 0 {
        assert(t.drop_first() =~= s);
        assert(t.first() == (k, v));
        assert(map_of(t) == map_of(s).insert(k, v));
    } else {
        assert(t.drop_first() =~= s.drop_first().push((k, v)));
        assert forall|i: int| 0 <= i < s.drop_first().len()
            implies s.drop_first()[i].0 != k by {
            assert(s[i + 1].0 != k);
        }
        lemma_map_of_push(s.drop_first(), k, v);
        assert(s[0].0 != k);
        assert(t.first() == s.first());
        assert(map_of(t) == map_of(s.drop_first()).insert(k, v).insert(s.first().0, s.first().1));
        assert(map_of(t) =~= map_of(s).insert(k, v));
    }
}

/// Replacing the value of the pair at `i`, with its key kept, updates the
/// denoted map at that key.
pub proof fn lemma_map_of_update<V>(s: Seq<(i64, V)>, i: int, v: V)
    requires
        0 <= i < s.len(),
        keys_distinct(s),
    ensures
        map_of(s.update(i, (s[i].0, v))) == map_of(s).insert(s[i].0, v),
    decreases s.len(),
{
    if i == 0 {
        assert(s.update(0, (s[0].0, v)).drop_first() =~= s.drop_first());
        assert(map_of(s.update(0, (s[0].0, v))) =~= map_of(s).insert(s[0].0, v));
    } else {
        assert forall|p: int, q: int| 0 <= p < q < s.drop_first().len()
            implies s.drop_first()[p].0 != s.drop_first()[q].0 by {
            assert(s[p + 1].0 != s[q + 1].0);
        }
        lemma_map_of_update(s.drop_first(), i - 1, v);
        assert(s.update(i, (s[i].0, v)).drop_first() =~= s.drop_first().update(i - 1, (s[i].0, v)));
        assert(s.drop_first()[i - 1] == s[i]);
        assert(s[0].0 != s[i].0);
        assert(map_of(s.update(i, (s[i].0, v))) =~= map_of(s).insert(s[i].0, v));
    }
}

/// Removing the pair at `i` removes its key from the denoted map.
pub proof fn lemma_map_of_remove<V>(s: Seq<(i64, V)>, i: int)
    requires
        0 <= i < s.len(),
        keys_distinct(s),
    ensures
        map_of(s.remove(i)) == map_of(s).remove(s[i].0),
    decreases s.len(),
{
    lemma_map_of_contains(s.drop_first(), s[0].0);
    if i == 0 {
        assert(s.remove(0) =~= s.drop_first());
        assert forall|j: int| 0 <= j < s.drop_first().len()
            implies s.drop_first()[j].0 != s[0].0 by {
            assert(s[j + 1].0 != s[0].0);
        }
        assert(map_of(s.remove(0)) =~= map_of(s).remove(s[0].0));
    } else {
        assert forall|p: int, q: int| 0 <= p < q < s.drop_first().len()
            implies s.drop_first()[p].0 != s.drop_first()[q].0 by {
            assert(s[p + 1].0 != s[q + 1].0);
        }
        lemma_map_of_remove(s.drop_first(), i - 1);
        assert(s.remove(i).drop_first() =~= s.drop_first().remove(i - 1));
        assert(s.drop_first()[i - 1] == s[i]);
        assert(s[0].0 != s[i].0);
        assert(map_of(s.remove(i)) =~= map_of(s).remove(s[i].0));
    }
}

/// A sequence of distinct-keyed pairs that all agree with a finite map of the
/// same cardinality denotes exactly that map.
pub proof fn lemma_map_of_agrees<V>(s: Seq<(i64, V)>, m: Map<i64, V>)
    requires
        keys_distinct(s),
        m.dom().finite(),
        s.len() == m.len(),
        forall|i: int| 0 <= i < s.len() ==> m.contains_key(s[i].0) && m[s[i].0] == s[i].1,
    ensures
        map_of(s) == m,
{
    lemma_map_of_len(s);
    assert forall|k: i64| #![trigger map_of(s).dom().contains(k)] map_of(s).dom().contains(k)
        implies m.dom().contains(k) && m[k] == map_of(s)[k] by {
        lemma_map_of_contains(s, k);
        let i = choose|i: int| 0 <= i < s.len() && s[i].0 == k;
        lemma_map_of_index(s, i);
    }
    assert(map_of(s).dom().subset_of(m.dom()));
    vstd::set_lib::lemma_len_subset(map_of(s).dom(), m.dom());
    vstd::set_lib::lemma_subset_equality(map_of(s).dom(), m.dom());
    assert(map_of(s) =~= m);
}

/// A sequence with distinct keys keeps them distinct when a pair is removed.
pub proof fn lemma_keys_distinct_remove<V>(s: Seq<(i64, V)>, i: int)
    requires
        0 <= i < s.len(),
        keys_distinct(s),
    ensures
        keys_distinct(s.remove(i)),
{
    assert forall|p: int, q: int| 0 <= p < q < s.remove(i).len()
        implies s.remove(i)[p].0 != s.remove(i)[q].0 by {
        let p0: int = if p < i { p } else { p + 1 };
        let q0: int = if q < i { q } else { q + 1 };
        assert(s.remove(i)[p] == s[p0]);
        assert(s.remove(i)[q] == s[q0]);
        assert(s[p0].0 != s[q0].0);
    }
}

} // verus!

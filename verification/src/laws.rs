//! Laws of the container, stated over the `Map` view and the promotion
//! predicate that the operation contracts use.

use vstd::prelude::*;
use crate::hybrid::HybridMap;
use crate::entries::keys_distinct;
use crate::entries::map_of;
use crate::entries::lemma_map_of_contains;
use crate::entries::lemma_map_of_index;

verus! {

/// A sequence of distinct-keyed pairs that denotes a map, with one pair per
/// entry, carries exactly the map's key-value pairs: what `iter` and
/// `into_iter` yield is the current contents, each entry once.
pub proof fn lemma_pairs_are_contents<V>(s: Seq<(i64, V)>, m: Map<i64, V>)
    requires
        keys_distinct(s),
        map_of(s) == m,
        s.len() == m.len(),
    ensures
        s.no_duplicates(),
        s.to_set() == m.kv_pairs(),
{
    assert forall|i: int, j: int| 0 <= i < j < s.len() implies s[i] != s[j] by {
        assert(s[i].0 != s[j].0);
    }
    assert forall|p: (i64, V)| s.to_set().contains(p) implies m.kv_pairs().contains(p) by {
        let i = choose|i: int| 0 <= i < s.len() && s[i] == p;
        lemma_map_of_index(s, i);
    }
    assert forall|p: (i64, V)| m.kv_pairs().contains(p) implies s.to_set().contains(p) by {
        lemma_map_of_contains(s, p.0);
        let i = choose|i: int| 0 <= i < s.len() && s[i].0 == p.0;
        lemma_map_of_index(s, i);
        assert(s[i] == p);
        assert(s.to_set().contains(s[i]));
    }
    assert(s.to_set() =~= m.kv_pairs());
}

/// Insert-then-get round trip: after inserting, the key is present and maps
/// to the value just inserted.
pub proof fn lemma_insert_then_get<V>(m: Map<i64, V>, key: i64, value: V)
    ensures
        m.insert(key, value).contains_key(key),
        m.insert(key, value)[key] == value,
{
}

/// Inserting the same value twice leaves the same contents as inserting it
/// once.
pub proof fn lemma_insert_idempotent<V>(m: Map<i64, V>, key: i64, value: V)
    ensures
        m.insert(key, value).insert(key, value) == m.insert(key, value),
{
    assert(m.insert(key, value).insert(key, value) =~= m.insert(key, value));
}

/// Insertions under distinct keys commute: the final contents do not depend
/// on their order.
pub proof fn lemma_insert_commutes<V>(m: Map<i64, V>, k1: i64, a: V, k2: i64, b: V)
    requires
        k1 != k2,
    ensures
        m.insert(k1, a).insert(k2, b) == m.insert(k2, b).insert(k1, a),
{
    assert(m.insert(k1, a).insert(k2, b) =~= m.insert(k2, b).insert(k1, a));
}

/// After a removal the key is absent, and a second removal of the same key
/// changes nothing.
pub proof fn lemma_remove_then_absent<V>(m: Map<i64, V>, key: i64)
    ensures
        !m.remove(key).contains_key(key),
        m.remove(key).remove(key) == m.remove(key),
{
    assert(m.remove(key).remove(key) =~= m.remove(key));
}

/// Promotion is permanent: an insertion into a map already in the large
/// representation leaves it large, whatever it holds.
pub proof fn lemma_promotion_is_permanent<V, const N: usize>(m: Map<i64, V>, key: i64)
    ensures
        HybridMap::<V, N>::promotes_on(m, true, key),
{
}

/// Replacing the value of a present key never changes the representation.
pub proof fn lemma_overwrite_keeps_representation<V, const N: usize>(
    m: Map<i64, V>,
    large: bool,
    key: i64,
)
    requires
        m.contains_key(key),
    ensures
        HybridMap::<V, N>::promotes_on(m, large, key) == large,
{
}

} // verus!

//! The hybrid container itself: a tagged union of the two backing stores,
//! with every public operation specified against its `Map<i64, V>` view.

use vstd::prelude::*;
use std::collections::HashMap;
use std::collections::hash_map::Entry;
use crate::entries::keys_distinct;
use crate::entries::map_of;
use crate::entries::lemma_map_of_contains;
use crate::entries::lemma_map_of_index;
use crate::entries::lemma_map_of_len;
use crate::entries::lemma_map_of_push;
use crate::entries::lemma_map_of_update;
use crate::entries::lemma_map_of_remove;
use crate::entries::lemma_keys_distinct_remove;
use crate::entries::lemma_map_of_agrees;
use crate::iter::HybridMapIter;
use crate::iter::HybridMapIterMut;
use crate::iter::HybridMapIntoIter;
use vstd::std_specs::iter::IteratorSpec;

verus! {

broadcast use vstd::std_specs::hash::group_hash_axioms;

/// The two backing stores. `Small` is an unordered buffer searched by linear
/// scan; `Large` is a hash table.
#[derive(Clone, Debug)]
enum InnerContainer<V> {
    Small(Vec<(i64, V)>),
    Large(HashMap<i64, V>),
}

/// A map from `i64` keys to `V` values that holds up to `N` entries in a flat
/// buffer and moves, permanently, to a hash table on the insertion that would
/// exceed that bound.
#[derive(Clone, Debug)]
pub struct HybridMap<V, const N: usize> {
    inner: InnerContainer<V>,
}

impl<V, const N: usize> View for HybridMap<V, N> {
    type V = Map<i64, V>;

    closed spec fn view(&self) -> Map<i64, V> {
        match self.inner {
            InnerContainer::Small(buf) => map_of(buf@),
            InnerContainer::Large(table) => table@,
        }
    }
}

impl<V, const N: usize> HybridMap<V, N> {
    /// The representation invariant: the buffer never holds two entries with
    /// one key, and never more than `N` of them.
    pub closed spec fn wf(&self) -> bool {
        match self.inner {
            InnerContainer::Small(buf) => keys_distinct(buf@) && buf@.len() <= N,
            InnerContainer::Large(table) => true,
        }
    }

    /// Whether the map has switched to the hash-table representation.
    pub closed spec fn rep_large(&self) -> bool {
        self.inner is Large
    }

    /// Whether an insertion of `key` into a map with contents `m` and
    /// representation `large` leaves the map in the large representation:
    /// either it already was, or the key is new and the small buffer is full.
    pub open spec fn promotes_on(m: Map<i64, V>, large: bool, key: i64) -> bool {
        large || (!m.contains_key(key) && m.len() == N)
    }

    /// The domain of the view is always finite.
    pub proof fn lemma_view_finite(&self)
        requires
            self.wf(),
        ensures
            self@.dom().finite(),
    {
        match self.inner {
            InnerContainer::Small(buf) => {
                lemma_map_of_len(buf@);
            },
            InnerContainer::Large(table) => {},
        }
    }

    /// Creates an empty map in the small representation.
    pub fn new() -> (m: Self)
        ensures
            m.wf(),
            m@ == Map::<i64, V>::empty(),
            !m.rep_large(),
    {
        HybridMap { inner: InnerContainer::Small(Vec::new()) }
    }

    /// Creates an empty map, already in the large representation when the
    /// requested capacity exceeds the small bound `N`.
    pub fn with_capacity(capacity: usize) -> (m: Self)
        ensures
            m.wf(),
            m@ == Map::<i64, V>::empty(),
            m.rep_large() <==> capacity > N,
    {
        if capacity <= N {
            HybridMap { inner: InnerContainer::Small(Vec::with_capacity(capacity)) }
        } else {
            HybridMap { inner: InnerContainer::Large(HashMap::with_capacity(capacity)) }
        }
    }

    /// Returns the number of entries in the map.
    pub fn len(&self) -> (n: usize)
        requires
            self.wf(),
        ensures
            n == self@.len(),
    {
        match &self.inner {
            InnerContainer::Small(buf) => {
                proof {
                    lemma_map_of_len(buf@);
                }
                buf.len()
            },
            InnerContainer::Large(table) => table.len(),
        }
    }

    /// Returns `true` when the map holds no entry.
    pub fn is_empty(&self) -> (empty: bool)
        requires
            self.wf(),
        ensures
            empty <==> self@.len() == 0,
    {
        match &self.inner {
            InnerContainer::Small(buf) => {
                proof {
                    lemma_map_of_len(buf@);
                }
                buf.len() == 0
            },
            InnerContainer::Large(table) => {
                proof {
                    vstd::set_lib::lemma_set_empty_equivalency_len(table@.dom());
                }
                table.is_empty()
            },
        }
    }

    /// Returns `true` when the map has switched to the hash-table
    /// representation.
    pub fn is_large(&self) -> (large: bool)
        ensures
            large == self.rep_large(),
    {
        match &self.inner {
            InnerContainer::Small(_) => false,
            InnerContainer::Large(_) => true,
        }
    }

    /// Looks the key up and borrows its value.
    #[verifier::loop_isolation(false)]
    pub fn get(&self, key: &i64) -> (r: Option<&V>)
        requires
            self.wf(),
        ensures
            match r {
                Some(v) => self@.contains_key(*key) && *v == self@[*key],
                None => !self@.contains_key(*key),
            },
    {
        match &self.inner {
            InnerContainer::Small(buf) => {
                let n = buf.len();
                let mut i: usize = 0;
                while i < n
                    invariant
                        n == buf@.len(),
                        i <= n,
                        forall|j: int| 0 <= j < i ==> buf@[j].0 != *key,
                    decreases n - i,
                {
                    if buf[i].0 == *key {
                        proof {
                            lemma_map_of_index(buf@, i as int);
                        }
                        return Some(&buf[i].1);
                    }
                    i += 1;
                }
                proof {
                    lemma_map_of_contains(buf@, *key);
                }
                None
            },
            InnerContainer::Large(table) => table.get(key),
        }
    }

    /// Inserts the value under the key and returns the value the key held
    /// before, if any. When the key is new and the buffer already holds `N`
    /// entries, every entry moves into a fresh hash table and the map stays
    /// in the large representation from then on.
    #[verifier::loop_isolation(false)]
    pub fn insert(&mut self, key: i64, value: V) -> (prev: Option<V>)
        requires
            old(self).wf(),
        ensures
            final(self).wf(),
            final(self)@ == old(self)@.insert(key, value),
            match prev {
                Some(p) => old(self)@.contains_key(key) && p == old(self)@[key],
                None => !old(self)@.contains_key(key),
            },
            final(self).rep_large() == Self::promotes_on(old(self)@, old(self).rep_large(), key),
    {
        match &mut self.inner {
            InnerContainer::Small(buf) => {
                let ghost orig = buf@;
                proof {
                    assert(old(self)@ == map_of(orig));
                    lemma_map_of_len(orig);
                }
                let n = buf.len();
                let mut i: usize = 0;
                while i < n
                    invariant
                        i <= n,
                        buf@ == orig,
                        forall|j: int| 0 <= j < i ==> orig[j].0 != key,
                    decreases n - i,
                {
                    if buf[i].0 == key {
                        proof {
                            lemma_map_of_index(orig, i as int);
                        }
                        let slot = vstd::std_specs::vec::vec_index_mut(buf, i);
                        let mut prior = value;
                        core::mem::swap(&mut slot.1, &mut prior);
                        proof {
                            lemma_map_of_update(orig, i as int, (*final(slot)).1);
                        }
                        return Some(prior);
                    }
                    i += 1;
                }
                proof {
                    lemma_map_of_contains(orig, key);
                }
                if buf.len() == N {
                    let mut table: HashMap<i64, V> = HashMap::new();
                    while buf.len() > 0
                        invariant
                            buf@.len() <= orig.len(),
                            forall|j: int| 0 <= j < buf@.len() ==> buf@[j] == orig[j],
                            table@ == map_of(orig.subrange(buf@.len() as int, orig.len() as int)),
                        decreases buf@.len(),
                    {
                        let ghost len_before = buf@.len() as int;
                        let pair = buf.pop().unwrap();
                        table.insert(pair.0, pair.1);
                        proof {
                            let rest = orig.subrange(len_before - 1, orig.len() as int);
                            assert(rest.drop_first() =~= orig.subrange(len_before, orig.len() as int));
                            assert(rest.first() == orig[len_before - 1]);
                            assert(table@ == map_of(rest));
                        }
                    }
                    proof {
                        assert(orig.subrange(0, orig.len() as int) =~= orig);
                        assert(table@ == map_of(orig));
                    }
                    table.insert(key, value);
                    self.inner = InnerContainer::Large(table);
                    None
                } else {
                    buf.push((key, value));
                    proof {
                        lemma_map_of_push(orig, key, value);
                    }
                    None
                }
            },
            InnerContainer::Large(table) => table.insert(key, value),
        }
    }

    /// Looks the key up and borrows its value mutably; writes through the
    /// borrow are what the map holds afterwards.
    #[verifier::loop_isolation(false)]
    pub fn get_mut(&mut self, key: &i64) -> (r: Option<&mut V>)
        requires
            old(self).wf(),
        ensures
            final(self).wf(),
            final(self).rep_large() == old(self).rep_large(),
            match r {
                Some(v) => old(self)@.contains_key(*key) && *v == old(self)@[*key]
                    && final(self)@ == old(self)@.insert(*key, *final(v)),
                None => !old(self)@.contains_key(*key) && final(self)@ == old(self)@,
            },
    {
        match &mut self.inner {
            InnerContainer::Small(buf) => {
                let ghost orig = buf@;
                let n = buf.len();
                let mut i: usize = 0;
                while i < n
                    invariant
                        i <= n,
                        buf@ == orig,
                        forall|j: int| 0 <= j < i ==> orig[j].0 != *key,
                    decreases n - i,
                {
                    if buf[i].0 == *key {
                        proof {
                            lemma_map_of_index(orig, i as int);
                        }
                        let slot = vstd::std_specs::vec::vec_index_mut(buf, i);
                        proof {
                            lemma_map_of_update(orig, i as int, (*final(slot)).1);
                        }
                        return Some(&mut slot.1);
                    }
                    i += 1;
                }
                proof {
                    lemma_map_of_contains(orig, *key);
                }
                None
            },
            InnerContainer::Large(table) => {
                match table.entry(*key) {
                    Entry::Occupied(occ) => Some(occ.into_mut()),
                    Entry::Vacant(_) => {
                        proof {
                            assert(old(self)@.remove(*key) =~= old(self)@);
                        }
                        None
                    },
                }
            },
        }
    }

    /// Removes the key and returns the entry it held, key and value together.
    #[verifier::loop_isolation(false)]
    pub fn remove_entry(&mut self, key: &i64) -> (r: Option<(i64, V)>)
        requires
            old(self).wf(),
        ensures
            final(self).wf(),
            final(self).rep_large() == old(self).rep_large(),
            final(self)@ == old(self)@.remove(*key),
            match r {
                Some(entry) => old(self)@.contains_key(*key) && entry.0 == *key
                    && entry.1 == old(self)@[*key],
                None => !old(self)@.contains_key(*key),
            },
    {
        match &mut self.inner {
            InnerContainer::Small(buf) => {
                let ghost orig = buf@;
                let n = buf.len();
                let mut i: usize = 0;
                while i < n
                    invariant
                        i <= n,
                        buf@ == orig,
                        forall|j: int| 0 <= j < i ==> orig[j].0 != *key,
                    decreases n - i,
                {
                    if buf[i].0 == *key {
                        proof {
                            lemma_map_of_index(orig, i as int);
                            lemma_map_of_remove(orig, i as int);
                            lemma_keys_distinct_remove(orig, i as int);
                        }
                        let entry = buf.remove(i);
                        return Some(entry);
                    }
                    i += 1;
                }
                proof {
                    lemma_map_of_contains(orig, *key);
                    assert(old(self)@.remove(*key) =~= old(self)@);
                }
                None
            },
            InnerContainer::Large(table) => {
                match table.remove(key) {
                    Some(value) => Some((*key, value)),
                    None => None,
                }
            },
        }
    }

    /// Removes the key and returns the value it held.
    pub fn remove(&mut self, key: &i64) -> (r: Option<V>)
        requires
            old(self).wf(),
        ensures
            final(self).wf(),
            final(self).rep_large() == old(self).rep_large(),
            final(self)@ == old(self)@.remove(*key),
            match r {
                Some(value) => old(self)@.contains_key(*key) && value == old(self)@[*key],
                None => !old(self)@.contains_key(*key),
            },
    {
        match self.remove_entry(key) {
            Some(entry) => Some(entry.1),
            None => None,
        }
    }

    /// Removes every entry; the representation is kept.
    pub fn clear(&mut self)
        requires
            old(self).wf(),
        ensures
            final(self).wf(),
            final(self)@ == Map::<i64, V>::empty(),
            final(self).rep_large() == old(self).rep_large(),
    {
        match &mut self.inner {
            InnerContainer::Small(buf) => buf.clear(),
            InnerContainer::Large(table) => table.clear(),
        }
    }

    /// Returns an iterator over borrowed entries: every entry exactly once,
    /// in storage order while the representation is small.
    pub fn iter<'a>(&'a self) -> (it: HybridMapIter<'a, V>)
        requires
            self.wf(),
        ensures
            it.wf_iter(),
            it.at() == 0,
            keys_distinct(it.pairs()),
            map_of(it.pairs()) == self@,
            it.pairs().len() == self@.len(),
    {
        match &self.inner {
            InnerContainer::Small(buf) => {
                proof {
                    lemma_map_of_len(buf@);
                }
                HybridMapIter::Small(buf, 0)
            },
            InnerContainer::Large(table) => {
                let entries = collect_table(table);
                proof {
                    let pairs = entries@.map(|i: int, p: (&'a i64, &'a V)| (*p.0, *p.1));
                    assert forall|i: int, j: int| 0 <= i < j < pairs.len()
                        implies pairs[i].0 != pairs[j].0 by {
                        assert(*entries@[i].0 != *entries@[j].0);
                    }
                    assert forall|i: int| 0 <= i < pairs.len()
                        implies table@.contains_key(pairs[i].0) && table@[pairs[i].0]
                        == pairs[i].1 by {
                        assert(table@.contains_key(*entries@[i].0));
                    }
                    lemma_map_of_agrees(pairs, table@);
                }
                HybridMapIter::Large(entries, 0)
            },
        }
    }

    /// Returns an iterator whose values are borrowed mutably: every entry
    /// exactly once, and what is written through the borrows is what the map
    /// holds afterwards, under an unchanged key set.
    pub fn iter_mut<'a>(&'a mut self) -> (it: HybridMapIterMut<'a, V>)
        requires
            old(self).wf(),
        ensures
            final(self).wf(),
            final(self).rep_large() == old(self).rep_large(),
            it.pairs().len() == old(self)@.len(),
            forall|i: int, j: int| 0 <= i < j < it.pairs().len() ==> *it.pairs()[i].0
                != *it.pairs()[j].0,
            forall|i: int| #![trigger it.pairs()[i]] 0 <= i < it.pairs().len() ==> old(
                self,
            )@.contains_key(*it.pairs()[i].0) && *it.pairs()[i].1 == old(self)@[*it.pairs()[i].0],
            final(self)@.dom() == old(self)@.dom(),
            forall|i: int| #![trigger it.pairs()[i]] 0 <= i < it.pairs().len() ==> final(self)@[*it.pairs()[i].0] == *final(it.pairs()[i].1),
    {
        match &mut self.inner {
            InnerContainer::Small(buf) => {
                let ghost orig = buf@;
                let ghost fin = final(buf)@;
                proof {
                    lemma_map_of_len(orig);
                }
                let entries = buffer_entries_mut(buf);
                proof {
                    assert forall|i: int| #![trigger entries@[i]] 0 <= i < entries@.len()
                        implies map_of(orig).contains_key(*entries@[i].0) && *entries@[i].1
                        == map_of(orig)[*entries@[i].0] by {
                        lemma_map_of_index(orig, i);
                    }
                    assert(fin.len() == orig.len());
                    assert(forall|i: int| #![trigger fin[i]] 0 <= i < fin.len() ==> fin[i].0
                        == orig[i].0);
                    assert forall|k: i64| map_of(fin).contains_key(k) == map_of(
                        orig,
                    ).contains_key(k) by {
                        lemma_map_of_contains(fin, k);
                        lemma_map_of_contains(orig, k);
                        if map_of(fin).contains_key(k) {
                            let w = choose|w: int| 0 <= w < fin.len() && fin[w].0 == k;
                            assert(orig[w].0 == k);
                        }
                        if map_of(orig).contains_key(k) {
                            let w = choose|w: int| 0 <= w < orig.len() && orig[w].0 == k;
                            assert(fin[w].0 == k);
                        }
                    }
                    assert(map_of(fin).dom() =~= map_of(orig).dom());
                    assert forall|i: int| #![trigger entries@[i]] 0 <= i < entries@.len()
                        implies map_of(fin)[*entries@[i].0] == *final(entries@[i].1) by {
                        lemma_map_of_index(fin, i);
                    }
                }
                HybridMapIterMut::Small(entries)
            },
            InnerContainer::Large(table) => {
                let entries = table_entries_mut(table);
                HybridMapIterMut::Large(entries)
            },
        }
    }

    /// Consumes the map and returns an iterator that moves every entry out.
    pub fn into_iter(self) -> (it: HybridMapIntoIter<V>)
        requires
            self.wf(),
        ensures
            keys_distinct(it.pairs()),
            map_of(it.pairs()) == self@,
            it.pairs().len() == self@.len(),
    {
        match self.inner {
            InnerContainer::Small(buf) => {
                proof {
                    lemma_map_of_len(buf@);
                }
                HybridMapIntoIter::Small(buf)
            },
            InnerContainer::Large(table) => HybridMapIntoIter::Large(drain_table(table)),
        }
    }
}

impl<V, const N: usize> Default for HybridMap<V, N> {
    /// An empty map in the small representation, as `new` returns it.
    fn default() -> (m: Self)
        ensures
            m.wf(),
            m@ == Map::<i64, V>::empty(),
            !m.rep_large(),
    {
        Self::new()
    }
}

/// Borrows every buffer slot at once, the key shared and the value mutably,
/// in storage order; what is written through the borrows is what the buffer
/// holds afterwards.
fn buffer_entries_mut<'a, V>(buf: &'a mut Vec<(i64, V)>) -> (out: Vec<(&'a i64, &'a mut V)>)
    ensures
        out@.len() == old(buf)@.len(),
        forall|i: int| #![trigger out@[i]] 0 <= i < out@.len() ==> *out@[i].0 == old(buf)@[i].0
            && *out@[i].1 == old(buf)@[i].1,
        final(buf)@.len() == old(buf)@.len(),
        forall|i: int| #![trigger final(buf)@[i]] 0 <= i < final(buf)@.len() ==> final(buf)@[i].0
            == old(buf)@[i].0 && final(buf)@[i].1 == *final(out@[i].1),
{
    split_entries_mut(buf.as_mut_slice())
}

/// Borrows every slot of a slice at once, the key shared and the value
/// mutably, front to back, by splitting one slot off at a time.
fn split_entries_mut<'a, V>(s: &'a mut [(i64, V)]) -> (out: Vec<(&'a i64, &'a mut V)>)
    ensures
        out@.len() == old(s)@.len(),
        forall|i: int| #![trigger out@[i]] 0 <= i < out@.len() ==> *out@[i].0 == old(s)@[i].0
            && *out@[i].1 == old(s)@[i].1,
        final(s)@.len() == old(s)@.len(),
        forall|i: int| #![trigger final(s)@[i]] 0 <= i < final(s)@.len() ==> final(s)@[i].0
            == old(s)@[i].0 && final(s)@[i].1 == *final(out@[i].1),
    decreases s.len(),
{
    if s.len() == 0 {
        // Pins the final contents of the empty slice.
        let nothing = s.first_mut();
        Vec::new()
    } else {
        let ghost orig = s@;
        let ghost fin = final(s)@;
        let (head, tail) = s.split_at_mut(1);
        let ghost rest_fin = final(tail)@;
        let slot = head.first_mut().unwrap();
        let mut rest = split_entries_mut(tail);
        let ghost handed = rest@;
        let mut out: Vec<(&'a i64, &'a mut V)> = Vec::new();
        out.push((&slot.0, &mut slot.1));
        out.append(&mut rest);
        proof {
            assert forall|i: int| #![trigger fin[i]] 0 <= i < fin.len()
                implies fin[i].0 == orig[i].0 && fin[i].1 == *final(out@[i].1) by {
                if i > 0 {
                    assert(fin[i] == rest_fin[i - 1]);
                    assert(out@[i] == handed[i - 1]);
                }
            }
        }
        out
    }
}

/// Relies on std's `HashMap::iter_mut`: one pair per entry, each key exactly
/// once, the value borrowed mutably; what is written through those borrows is
/// what the table holds afterwards, under an unchanged key set.
#[verifier::external_body]
fn table_entries_mut<'a, V>(table: &'a mut HashMap<i64, V>) -> (out: Vec<(&'a i64, &'a mut V)>)
    ensures
        out@.len() == old(table)@.len(),
        forall|i: int, j: int| 0 <= i < j < out@.len() ==> *out@[i].0 != *out@[j].0,
        forall|i: int| #![trigger out@[i]] 0 <= i < out@.len() ==> old(table)@.contains_key(
            *out@[i].0,
        ) && *out@[i].1 == old(table)@[*out@[i].0],
        final(table)@.dom() == old(table)@.dom(),
        forall|i: int| #![trigger out@[i]] 0 <= i < out@.len() ==> final(table)@[*out@[i].0]
            == *final(out@[i].1),
{
    table.iter_mut().collect()
}

/// Empties the table into a vector of owned pairs, one per entry.
#[verifier::loop_isolation(false)]
fn drain_table<V>(table: HashMap<i64, V>) -> (out: Vec<(i64, V)>)
    ensures
        keys_distinct(out@),
        map_of(out@) == table@,
        out@.len() == table@.len(),
{
    let ghost orig = table@;
    let mut table = table;
    let mut keys: Vec<i64> = Vec::new();
    {
        let entries = collect_table(&table);
        let n = entries.len();
        let mut i: usize = 0;
        while i < n
            invariant
                i <= n,
                keys@.len() == i,
                forall|j: int| 0 <= j < i ==> keys@[j] == *entries@[j].0,
            decreases n - i,
        {
            keys.push(*entries[i].0);
            i += 1;
        }
        proof {
            assert(keys@.len() == orig.len());
            assert(forall|p: int, q: int| 0 <= p < q < keys@.len() ==> keys@[p] != keys@[q]);
            assert(forall|j: int| 0 <= j < keys@.len() ==> orig.contains_key(keys@[j])
                && orig[keys@[j]] == *entries@[j].1);
        }
    }
    let mut out: Vec<(i64, V)> = Vec::new();
    let n = keys.len();
    let mut i: usize = 0;
    while i < n
        invariant
            i <= n,
            out@.len() == i,
            forall|j: int| 0 <= j < i ==> out@[j] == (keys@[j], orig[keys@[j]]),
            forall|k: i64| #![trigger table@.contains_key(k)] table@.contains_key(k) <==> (
            orig.contains_key(k) && !(exists|j: int| 0 <= j < i && keys@[j] == k)),
            forall|k: i64| table@.contains_key(k) ==> table@[k] == orig[k],
        decreases n - i,
    {
        let k = keys[i];
        proof {
            assert(table@.contains_key(k));
        }
        match table.remove(&k) {
            Some(value) => out.push((k, value)),
            None => proof {
                assert(false);
            },
        }
        i += 1;
    }
    proof {
        assert(forall|p: int, q: int| 0 <= p < q < out@.len() ==> out@[p].0 != out@[q].0);
        lemma_map_of_agrees(out@, orig);
    }
    out
}

/// Advances any standard iterator; the contract restates what vstd's
/// specification of `Iterator::next` gives for iterators that obey it.
fn advance<I: Iterator>(src: &mut I) -> (r: Option<I::Item>)
    ensures
        (*final(src)).obeys_prophetic_iter_laws() == (*old(src)).obeys_prophetic_iter_laws(),
        (*final(src)).obeys_prophetic_iter_laws() ==> ({
            if (*old(src)).remaining().len() > 0 {
                &&& (*final(src)).remaining() == (*old(src)).remaining().drop_first()
                &&& r == Some((*old(src)).remaining()[0])
            } else {
                &&& (*final(src)).remaining() == (*old(src)).remaining()
                &&& r is None
            }
        }),
{
    src.next()
}

/// Collects one borrowed pair per entry of the table, keys distinct.
fn collect_table<'a, V>(table: &'a HashMap<i64, V>) -> (entries: Vec<(&'a i64, &'a V)>)
    ensures
        entries@.len() == table@.len(),
        forall|i: int| #![trigger entries@[i]] 0 <= i < entries@.len() ==> table@.contains_key(
            *entries@[i].0,
        ) && *entries@[i].1 == table@[*entries@[i].0],
        forall|i: int, j: int| 0 <= i < j < entries@.len() ==> *entries@[i].0 != *entries@[j].0,
{
    let mut rest = table.iter();
    let ghost init = rest;
    let ghost full = init.remaining();
    let mut entries: Vec<(&'a i64, &'a V)> = Vec::new();
    loop
        invariant
            rest.obeys_prophetic_iter_laws(),
            entries@ + rest.remaining() == full,
            full.len() == table@.len(),
        ensures
            entries@ == full,
        decreases table@.len() - entries@.len(),
    {
        match advance(&mut rest) {
            Some(p) => {
                entries.push(p);
                proof {
                    assert(entries@ + rest.remaining() =~= full);
                }
            },
            None => {
                proof {
                    assert(entries@ =~= full);
                }
                break;
            },
        }
    }
    proof {
        assert forall|i: int, j: int| 0 <= i < j < entries@.len()
            implies *entries@[i].0 != *entries@[j].0 by {
            assert(table@.contains_key(*full[i].0) && *full[i].1 == table@[*full[i].0]);
            assert(table@.contains_key(*full[j].0) && *full[j].1 == table@[*full[j].0]);
            if *entries@[i].0 == *entries@[j].0 {
                assert(full[i] == full[j]);
                assert(!full.no_duplicates());
            }
        }
    }
    entries
}

} // verus!

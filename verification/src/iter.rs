//! Iterators over the container: shared, mutating and consuming. Each one
//! yields a fixed sequence of pairs, exposed to contracts through `pairs()`
//! and a cursor `at()`.

use vstd::prelude::*;

verus! {

/// An iterator over borrowed entries of a `HybridMap`.
pub enum HybridMapIter<'a, V> {
    /// Walks the small buffer in storage order.
    Small(&'a Vec<(i64, V)>, usize),
    /// Walks entries collected from the hash table.
    Large(Vec<(&'a i64, &'a V)>, usize),
}

impl<'a, V> HybridMapIter<'a, V> {
    /// The full sequence of pairs the iterator yields, from its start.
    pub open spec fn pairs(self) -> Seq<(i64, V)> {
        match self {
            HybridMapIter::Small(buf, _) => buf@,
            HybridMapIter::Large(entries, _) => entries@.map(
                |i: int, p: (&'a i64, &'a V)| (*p.0, *p.1),
            ),
        }
    }

    /// How many pairs have been yielded so far.
    pub open spec fn at(self) -> int {
        match self {
            HybridMapIter::Small(_, pos) => pos as int,
            HybridMapIter::Large(_, pos) => pos as int,
        }
    }

    /// The cursor never passes the end.
    pub open spec fn wf_iter(self) -> bool {
        0 <= self.at() <= self.pairs().len()
    }

    /// Yields the next borrowed entry, or nothing once every entry has been
    /// yielded.
    pub fn next(&mut self) -> (r: Option<(&'a i64, &'a V)>)
        requires
            old(self).wf_iter(),
        ensures
            final(self).wf_iter(),
            final(self).pairs() == old(self).pairs(),
            match r {
                Some(p) => old(self).at() < old(self).pairs().len() && final(self).at() == old(
                    self,
                ).at() + 1 && (*p.0, *p.1) == old(self).pairs()[old(self).at()],
                None => old(self).at() == old(self).pairs().len() && final(self).at() == old(
                    self,
                ).at(),
            },
    {
        match self {
            HybridMapIter::Small(buf, pos) => {
                let source: &'a Vec<(i64, V)> = *buf;
                if *pos < source.len() {
                    let entry = &source[*pos];
                    *pos += 1;
                    Some((&entry.0, &entry.1))
                } else {
                    None
                }
            },
            HybridMapIter::Large(entries, pos) => {
                if *pos < entries.len() {
                    let entry = &entries[*pos];
                    let r = (entry.0, entry.1);
                    *pos += 1;
                    Some(r)
                } else {
                    None
                }
            },
        }
    }
}

/// An iterator over entries whose values are borrowed mutably; what is
/// written through those borrows is what the map holds afterwards.
pub enum HybridMapIterMut<'a, V> {
    /// Entries borrowed from the small buffer, in storage order.
    Small(Vec<(&'a i64, &'a mut V)>),
    /// Entries borrowed from the hash table.
    Large(Vec<(&'a i64, &'a mut V)>),
}

impl<'a, V> HybridMapIterMut<'a, V> {
    /// The pairs still to be yielded, front first.
    pub open spec fn pairs(self) -> Seq<(&'a i64, &'a mut V)> {
        match self {
            HybridMapIterMut::Small(entries) => entries@,
            HybridMapIterMut::Large(entries) => entries@,
        }
    }

    /// Yields the next entry, its value borrowed mutably, or nothing once
    /// every entry has been yielded.
    pub fn next(&mut self) -> (r: Option<(&'a i64, &'a mut V)>)
        ensures
            match r {
                Some(p) => old(self).pairs().len() > 0 && p == old(self).pairs()[0] && final(self).pairs() == old(self).pairs().drop_first(),
                None => old(self).pairs().len() == 0 && final(self).pairs() == old(self).pairs(),
            },
    {
        match self {
            HybridMapIterMut::Small(entries) => take_front(entries),
            HybridMapIterMut::Large(entries) => take_front(entries),
        }
    }
}

/// A consuming iterator: it owns the entries and moves them out one by one.
pub enum HybridMapIntoIter<V> {
    /// Entries taken over from the small buffer, in storage order.
    Small(Vec<(i64, V)>),
    /// Entries drained out of the hash table.
    Large(Vec<(i64, V)>),
}

impl<V> HybridMapIntoIter<V> {
    /// The pairs still to be yielded, front first.
    pub open spec fn pairs(self) -> Seq<(i64, V)> {
        match self {
            HybridMapIntoIter::Small(entries) => entries@,
            HybridMapIntoIter::Large(entries) => entries@,
        }
    }

    /// Moves the next entry out, or nothing once every entry has been moved.
    pub fn next(&mut self) -> (r: Option<(i64, V)>)
        ensures
            match r {
                Some(p) => old(self).pairs().len() > 0 && p == old(self).pairs()[0] && final(self).pairs() == old(self).pairs().drop_first(),
                None => old(self).pairs().len() == 0 && final(self).pairs() == old(self).pairs(),
            },
    {
        match self {
            HybridMapIntoIter::Small(entries) => take_front(entries),
            HybridMapIntoIter::Large(entries) => take_front(entries),
        }
    }
}

/// Takes the front element of a vector, shifting the rest down.
fn take_front<T>(entries: &mut Vec<T>) -> (r: Option<T>)
    ensures
        match r {
            Some(p) => old(entries)@.len() > 0 && p == old(entries)@[0] && final(entries)@ == old(
                entries,
            )@.drop_first(),
            None => old(entries)@.len() == 0 && final(entries)@ == old(entries)@,
        },
{
    if entries.len() > 0 {
        let front = entries.remove(0);
        proof {
            assert(entries@ =~= old(entries)@.drop_first());
        }
        Some(front)
    } else {
        None
    }
}

} // verus!

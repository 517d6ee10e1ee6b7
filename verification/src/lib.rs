//! A key-value map that keeps a handful of entries in a flat vector and
//! switches, once and for all, to a hash table when it outgrows a fixed bound.
//!
//! `HybridMap<V, N>` maps `i64` keys to values of type `V`. Up to `N` entries
//! are held in an unordered buffer and found by linear scan; the insertion
//! that would place an `N + 1`-th distinct key moves every entry into a
//! `std::collections::HashMap`, and the map never returns to the buffer
//! representation. Every operation is specified against a `Map<i64, V>` view,
//! and the representation switch itself is part of the contracts.

pub mod entries;
pub mod hybrid;
pub mod iter;
pub mod laws;

pub use hybrid::HybridMap;
pub use iter::HybridMapIter;
pub use iter::HybridMapIterMut;
pub use iter::HybridMapIntoIter;

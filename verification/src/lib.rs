//! A multimap: every key owns an ordered, non-empty list of values.
//!
//! The container is a thin layer over `std::collections::HashMap`. Its model
//! is a `Map<K, Seq<V>>`; every operation states how it reads or changes that
//! model.

pub mod model;
pub mod std_map;
pub mod multimap;
pub mod iter;
pub mod laws;

pub use multimap::MultiMap;
pub use iter::Iter;
pub use iter::IterMut;

//! Fixed-capacity multisets: a bag of unsigned counters over a domain whose
//! size is fixed at compile time, with elementwise arithmetic, set
//! operations, reductions and weighted random selection.

pub mod laws;
pub mod model;
pub mod multiset;
pub mod rng;
pub mod storage;

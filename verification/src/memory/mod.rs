//! Parts of the memory of an agent: the worklist for tending a memory graph, and
//! the caches in front of it.

pub mod cache;
pub mod float;
pub mod garden;

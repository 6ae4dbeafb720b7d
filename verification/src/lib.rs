//! photon: a content-addressed object store over a bump-allocated memory
//! segment, and `engine`, a small columnar query engine.

pub mod api;
pub mod object_store;
pub mod segment_allocator;
pub mod engine;

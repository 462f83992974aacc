//! Reconstruction of a span tree from a stream of tracing instrumentation
//! messages, with read-side queries over it.
pub mod laws;
pub mod model;
pub mod text;
pub mod tree;

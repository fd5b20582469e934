//! Core logic of a coarse-to-fine ray-marching renderer for constructive
//! solid geometry scenes built from signed-distance primitives.
//!
//! The library covers the host-side algorithms: flattening a scene tree into
//! fixed-capacity per-kind primitive arrays with an index-range group tree,
//! generating the evaluator source text for that tree, scheduling the chain of
//! progressively finer render stages, and the caches keyed by scene topology.
//! The surrounding GPU and windowing plumbing lives outside the library and
//! exchanges plain values with it.

pub mod eval;
pub mod node;
pub mod pack;
pub mod pack_laws;
pub mod shape;
pub mod shape_image;
pub mod stages;
pub mod text;
pub mod tracing;
pub mod tracing_pipelines;

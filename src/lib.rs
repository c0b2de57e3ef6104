//! Content-addressed pointer and memory model for a field-element based
//! evaluator: tagged compact pointers, wide digests, the pointer-equality
//! lattice, hash-consing allocation and memory snapshots.
pub mod allocation;
pub mod builtins;
pub mod field;
pub mod lattice;
pub mod memory;
pub mod program;
pub mod ptr;
pub mod tag;
pub mod wide;

pub use field::Elt;

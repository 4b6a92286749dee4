//! Execution core of an interpreter for a small filter/query language over
//! hierarchical, JSON-like data: the value model with its total-order
//! comparator, the bytecode instruction set, and the forking, depth-first
//! virtual machine that drives a compiled program to a sequence of outcomes.

pub mod bytecode;
pub mod comparator;
pub mod laws;
pub mod machine;
pub mod value;

//! A whole-program checker for an ordering rule between two designated
//! operations: every call of a "gated" operation must be preceded, on every
//! execution path from an entry point, by a call of an "initializer".
//!
//! The crate works on an explicit Program Model (`program`): a compiler front
//! end is expected to lower its control-flow graphs into that model. The
//! analysis itself is split into an intraprocedural must-dataflow engine
//! (`dataflow`) and an interprocedural call-graph walker (`walker`); the two
//! are mutually recursive by design.

pub mod dataflow;
pub mod laws;
pub mod program;
pub mod walker;

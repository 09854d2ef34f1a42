//! Replay engine for traced smart-contract executions.
//!
//! The library decodes the step array produced by a node's tracer into a
//! typed tree of call frames, and replays one frame's host operations in
//! order, detecting any divergence between the traced execution and the
//! binary under inspection.

pub mod bytes;
pub mod error;
pub mod laws;
pub mod reader;
pub mod trace;
pub mod value;

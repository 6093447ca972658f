//! Rustle: a static analyzer for NEAR smart contracts.
//!
//! The analyses work on an owned, index-based model of an LLVM bitcode module
//! (`ir`). Every detector is a verified function from that model to the lines
//! it records (`output`).
pub mod ir;
pub mod patterns;
pub mod input;
pub mod text;
pub mod users;
pub mod callgraph;
pub mod reach;
pub mod output;
pub mod detectors;
pub mod contracts;

//! Extracts tagged multi-line comment blocks from source text and assembles
//! them into a hierarchy of Markdown files, ordered by an explicit sequence
//! number and addressed by a dot-delimited logical path.
//!
//! The crate holds the verified core: the line classifier and block-parsing
//! state machine, sequence-number extraction, path validation, the block
//! store with its uniqueness and ordering invariants, and the computation of
//! the final write plan. Walking a directory tree, reading files and writing
//! the plan to disk are left to the caller.

pub mod digits;
pub mod errors;
pub mod laws;
pub mod plan;
pub mod seqnum;
pub mod session;
pub mod text;

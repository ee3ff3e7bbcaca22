//! The failures a block can run into, with the exact console wording
//! each one carries.

use vstd::prelude::*;

use crate::digits::dec_str;

verus! {

/// Why a comment block was rejected.
///
/// The first four arise while validating a block's logical path, the
/// fifth while extracting the sequence number from its raw name, and
/// the last — the only fatal one — when two blocks claim the same
/// sequence number for the same logical path.
#[derive(Debug, PartialEq, Eq)]
pub enum BlockError {
    EmptyPath,
    PathTooDeep,
    DuplicateBlockName,
    PrefixMismatch(String, String),
    MissingSequenceNumber,
    DuplicateSequenceNumber(u16),
}

/// The wording of each failure, character for character.
pub open spec fn message_spec(e: BlockError) -> Seq<char> {
    match e {
        BlockError::EmptyPath => "There is no file path in the first line of the comment block."@,
        BlockError::PathTooDeep => "Path is longer than what is allowed."@,
        BlockError::DuplicateBlockName => "Comment block name must be unique in code base."@,
        BlockError::PrefixMismatch(actual, expected) => "Invalid folder prefix ["@ + actual@
            + "] ["@ + expected@ + "]."@,
        BlockError::MissingSequenceNumber => "No Sequence number exist in name of block"@,
        BlockError::DuplicateSequenceNumber(n) => "Duplicate Sequence number exist in name of block "@
            + dec_str(n as int),
    }
}

impl BlockError {
    /// Render the failure for a log or console line.
    pub fn message(&self) -> (r: String)
        ensures
            r@ == message_spec(*self),
    {
        match self {
            BlockError::EmptyPath => String::from_str(
                "There is no file path in the first line of the comment block.",
            ),
            BlockError::PathTooDeep => String::from_str("Path is longer than what is allowed."),
            BlockError::DuplicateBlockName => String::from_str(
                "Comment block name must be unique in code base.",
            ),
            BlockError::PrefixMismatch(actual, expected) => {
                let mut m = String::from_str("Invalid folder prefix [");
                m.append(actual.as_str());
                m.append("] [");
                m.append(expected.as_str());
                m.append("].");
                m
            },
            BlockError::MissingSequenceNumber => String::from_str(
                "No Sequence number exist in name of block",
            ),
            BlockError::DuplicateSequenceNumber(n) => {
                let mut m = String::from_str("Duplicate Sequence number exist in name of block ");
                let d = crate::digits::u16_to_string(*n);
                m.append(d.as_str());
                m
            },
        }
    }
}

} // verus!

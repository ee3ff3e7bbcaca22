//! Sequence-number extraction from raw block names.

use line_blocks::errors::BlockError;
use line_blocks::seqnum::strip_number_in_str;

#[test]
fn extracts_sequence_and_clean_name() {
    let r = strip_number_in_str(&"EPIC.Get Lines.ITEM Test Block [1]".to_string());
    assert_eq!(r, Ok((1, "EPIC.Get Lines.ITEM Test Block ".to_string())));
}

#[test]
fn extracts_two_digit_sequence() {
    let r = strip_number_in_str(&"Simple Comment [42]".to_string());
    assert_eq!(r, Ok((42, "Simple Comment ".to_string())));
}

#[test]
fn extracts_from_bare_suffix() {
    let r = strip_number_in_str(&"[7]".to_string());
    assert_eq!(r, Ok((7, "".to_string())));
}

#[test]
fn leading_zeros_are_part_of_the_value() {
    let r = strip_number_in_str(&"Title [0012]".to_string());
    assert_eq!(r, Ok((12, "Title ".to_string())));
}

#[test]
fn only_the_trailing_suffix_is_removed() {
    let r = strip_number_in_str(&"a[1][2]".to_string());
    assert_eq!(r, Ok((2, "a[1]".to_string())));
}

#[test]
fn largest_sequence_number_fits() {
    let r = strip_number_in_str(&"Edge [65535]".to_string());
    assert_eq!(r, Ok((65535, "Edge ".to_string())));
}

#[test]
fn missing_suffix_fails() {
    let r = strip_number_in_str(&"No Sequence".to_string());
    assert_eq!(r, Err(BlockError::MissingSequenceNumber));
}

#[test]
fn letters_in_brackets_fail() {
    let r = strip_number_in_str(&"Name [abc]".to_string());
    assert_eq!(r, Err(BlockError::MissingSequenceNumber));
}

#[test]
fn mixed_bracket_content_fails() {
    let r = strip_number_in_str(&"Name [1x]".to_string());
    assert_eq!(r, Err(BlockError::MissingSequenceNumber));
}

#[test]
fn empty_brackets_fail() {
    let r = strip_number_in_str(&"Name []".to_string());
    assert_eq!(r, Err(BlockError::MissingSequenceNumber));
}

#[test]
fn suffix_not_at_very_end_fails() {
    let r = strip_number_in_str(&"Name [12] ".to_string());
    assert_eq!(r, Err(BlockError::MissingSequenceNumber));
}

#[test]
fn sequence_above_sixteen_bits_fails() {
    let r = strip_number_in_str(&"Name [70000]".to_string());
    assert_eq!(r, Err(BlockError::MissingSequenceNumber));
}

#[test]
fn error_messages_are_worded_exactly() {
    assert_eq!(
        BlockError::MissingSequenceNumber.message(),
        "No Sequence number exist in name of block"
    );
    assert_eq!(
        BlockError::DuplicateSequenceNumber(7).message(),
        "Duplicate Sequence number exist in name of block 7"
    );
    assert_eq!(
        BlockError::DuplicateSequenceNumber(65535).message(),
        "Duplicate Sequence number exist in name of block 65535"
    );
    assert_eq!(
        BlockError::PrefixMismatch("ITEM item".to_string(), "EPIC".to_string()).message(),
        "Invalid folder prefix [ITEM item] [EPIC]."
    );
    assert_eq!(
        BlockError::PathTooDeep.message(),
        "Path is longer than what is allowed."
    );
    assert_eq!(
        BlockError::DuplicateBlockName.message(),
        "Comment block name must be unique in code base."
    );
    assert_eq!(
        BlockError::EmptyPath.message(),
        "There is no file path in the first line of the comment block."
    );
}

//! Path validation against the declared hierarchy prefixes and the
//! global name-uniqueness set.

use line_blocks::errors::BlockError;
use line_blocks::session::Comments;

fn prefixes(items: &[&str]) -> Vec<String> {
    items.iter().map(|p| p.to_string()).collect()
}

#[test]
fn test_if_file_path_is_valid() {
    let mut comments = Comments::default();
    let path = prefixes(&["EPIC", "ITEM", "TEST"]);
    if let Err(error) = comments.is_valid_folder_path(&path, "EPIC epic.ITEM item.TEST test") {
        println!("test {}", error.message());
    }
    comments.register_block_name("EPIC epic.ITEM item.TEST test".to_string());
    if let Err(error) = comments.is_valid_folder_path(&path, "EPIC epic.ITEM item.TEST test") {
        println!("{}", error.message());
    }
}

#[test]
fn first_segment_is_the_root_and_matches_no_prefix() {
    let comments = Comments::default();
    let path = prefixes(&["EPIC", "ITEM", "TEST"]);
    let r = comments.is_valid_folder_path(&path, "EPIC epic.ITEM item.TEST test");
    assert_eq!(
        r,
        Err(BlockError::PrefixMismatch(
            "ITEM item".to_string(),
            "EPIC".to_string()
        ))
    );
}

#[test]
fn rooted_path_matching_every_prefix_is_valid() {
    let comments = Comments::default();
    let path = prefixes(&["EPIC", "ITEM", "TEST"]);
    let r = comments.is_valid_folder_path(&path, "docs.EPIC epic.ITEM item.TEST test");
    assert_eq!(r, Ok(()));
}

#[test]
fn path_deeper_than_prefixes_plus_one_is_rejected() {
    let comments = Comments::default();
    let path = prefixes(&["EPIC", "ITEM", "TEST"]);
    let r = comments.is_valid_folder_path(&path, "docs.EPIC a.ITEM b.TEST c.extra");
    assert_eq!(r, Err(BlockError::PathTooDeep));
}

#[test]
fn registered_name_is_rejected_as_duplicate() {
    let mut comments = Comments::default();
    let path = prefixes(&["EPIC"]);
    comments.register_block_name("docs.EPIC one".to_string());
    let r = comments.is_valid_folder_path(&path, "docs.EPIC one");
    assert_eq!(r, Err(BlockError::DuplicateBlockName));
}

#[test]
fn empty_segment_fails_its_prefix() {
    let comments = Comments::default();
    let path = prefixes(&["EPIC"]);
    let r = comments.is_valid_folder_path(&path, "docs.");
    assert_eq!(
        r,
        Err(BlockError::PrefixMismatch("".to_string(), "EPIC".to_string()))
    );
}

#[test]
fn single_segment_path_is_valid() {
    let comments = Comments::default();
    let path = prefixes(&["EPIC", "ITEM"]);
    let r = comments.is_valid_folder_path(&path, "docs");
    assert_eq!(r, Ok(()));
}

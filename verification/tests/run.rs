//! Whole runs: scanning files, aggregating blocks and building the
//! write plan.

use line_blocks::errors::BlockError;
use line_blocks::session::Comments;
use line_blocks::session::SourceFile;
use line_blocks::session::State;

fn src_file(name: &str, lines: &[&str]) -> SourceFile {
    SourceFile {
        name: name.to_string(),
        lines: lines.iter().map(|l| l.to_string()).collect(),
    }
}

#[test]
fn round_trip_single_block() {
    let mut c = Comments::default();
    let files = vec![src_file(
        "demo.rs",
        &["//#EPIC Demo.ITEM Sample [1]", "//#Hello world.", "code_line();"],
    )];
    let plan = c.comment_in_files(&files, "docs", "//#", "EPIC.ITEM").unwrap();
    assert_eq!(plan.len(), 1);
    assert_eq!(plan[0].dir_path, "docs/EPIC Demo");
    assert_eq!(plan[0].file_path, "docs/EPIC Demo/ITEM Sample.md");
    assert_eq!(
        plan[0].lines,
        vec![
            "[SOURCE FILE:](file:///demo.rs) LINE: 2\n".to_string(),
            "Hello world.".to_string(),
            "".to_string(),
        ]
    );
    assert_eq!(c.diagnostics().len(), 0);
}

#[test]
fn block_at_end_of_file_is_emitted() {
    let mut c = Comments::default();
    let files = vec![src_file(
        "tail.rs",
        &["//#EPIC Demo.ITEM Tail [3]", "//#Last words"],
    )];
    let plan = c.comment_in_files(&files, "docs", "//#", "EPIC.ITEM").unwrap();
    assert_eq!(plan.len(), 1);
    assert_eq!(plan[0].file_path, "docs/EPIC Demo/ITEM Tail.md");
    assert_eq!(
        plan[0].lines,
        vec![
            "[SOURCE FILE:](file:///tail.rs) LINE: 2\n".to_string(),
            "Last words".to_string(),
            "".to_string(),
        ]
    );
}

#[test]
fn versions_ordered_ascending_regardless_of_traversal_order() {
    let mut c = Comments::default();
    let files = vec![
        src_file("late.rs", &["//#EPIC E.ITEM Doc [2]", "//#second"]),
        src_file("early.rs", &["//#EPIC E.ITEM Doc [1]", "//#first"]),
    ];
    let plan = c.comment_in_files(&files, "docs", "//#", "EPIC.ITEM").unwrap();
    assert_eq!(plan.len(), 2);
    assert_eq!(plan[0].file_path, "docs/EPIC E/ITEM Doc.md");
    assert_eq!(plan[1].file_path, "docs/EPIC E/ITEM Doc.md");
    assert_eq!(plan[0].lines[1], "first");
    assert_eq!(plan[1].lines[1], "second");
}

#[test]
fn duplicate_raw_name_is_dropped_and_first_kept() {
    let mut c = Comments::default();
    let files = vec![
        src_file("one.rs", &["//#EPIC E.ITEM Dup [1]", "//#kept", "x();"]),
        src_file("two.rs", &["//#EPIC E.ITEM Dup [1]", "//#discarded", "y();"]),
    ];
    let plan = c.comment_in_files(&files, "docs", "//#", "EPIC.ITEM").unwrap();
    assert_eq!(plan.len(), 1);
    assert_eq!(plan[0].lines[1], "kept");
    assert_eq!(c.diagnostics().len(), 1);
    assert_eq!(c.diagnostics()[0].file, "two.rs");
    assert_eq!(c.diagnostics()[0].error, BlockError::DuplicateBlockName);
}

#[test]
fn duplicate_sequence_number_is_fatal_and_aborts_the_plan() {
    let mut c = Comments::default();
    let files = vec![
        src_file("one.rs", &["//#EPIC E.ITEM Twice [1]", "//#alpha", "x();"]),
        src_file("two.rs", &["//#EPIC E.ITEM Twice [01]", "//#beta", "y();"]),
    ];
    let r = c.comment_in_files(&files, "docs", "//#", "EPIC.ITEM");
    assert_eq!(r, Err(BlockError::DuplicateSequenceNumber(1)));
    assert_eq!(c.fatal_duplicate(), Some(1));
    assert_eq!(c.write_history(), Err(BlockError::DuplicateSequenceNumber(1)));
}

#[test]
fn rerun_on_same_inputs_is_byte_identical() {
    let files = || {
        vec![
            src_file("a.rs", &["//#EPIC E.ITEM A [2]", "//#two", "x();"]),
            src_file("b.rs", &["//#EPIC E.ITEM A [1]", "//#one", "//#more"]),
            src_file("c.rs", &["no blocks here"]),
        ]
    };
    let mut c1 = Comments::default();
    let plan1 = c1.comment_in_files(&files(), "docs", "//#", "EPIC.ITEM").unwrap();
    let mut c2 = Comments::default();
    let plan2 = c2.comment_in_files(&files(), "docs", "//#", "EPIC.ITEM").unwrap();
    assert_eq!(plan1, plan2);
    assert_eq!(c1.diagnostics(), c2.diagnostics());
}

#[test]
fn rejected_block_stops_recognition_for_the_rest_of_the_file() {
    let mut c = Comments::default();
    let files = vec![src_file(
        "bad.rs",
        &["//#NoSeq", "//#body", "x();", "//#EPIC E.ITEM Ok [1]", "//#body2", "y();"],
    )];
    let plan = c.comment_in_files(&files, "docs", "//#", "EPIC.ITEM").unwrap();
    assert_eq!(plan.len(), 0);
    assert_eq!(c.current_state(), State::ERROR);
    assert_eq!(c.diagnostics().len(), 1);
    assert_eq!(c.diagnostics()[0].file, "bad.rs");
    assert_eq!(c.diagnostics()[0].error, BlockError::MissingSequenceNumber);
}

#[test]
fn later_file_recovers_after_a_rejected_block() {
    let mut c = Comments::default();
    let files = vec![
        src_file("bad.rs", &["//#NoSeq", "//#body", "x();"]),
        src_file("good.rs", &["//#EPIC E.ITEM Fine [1]", "//#ok", "z();"]),
    ];
    let plan = c.comment_in_files(&files, "docs", "//#", "EPIC.ITEM").unwrap();
    assert_eq!(plan.len(), 1);
    assert_eq!(plan[0].file_path, "docs/EPIC E/ITEM Fine.md");
    assert_eq!(c.diagnostics().len(), 1);
}

#[test]
fn metadata_line_alone_emits_nothing() {
    let mut c = Comments::default();
    let files = vec![src_file("empty.rs", &["//#EPIC E.ITEM Empty [1]", "x();"])];
    let plan = c.comment_in_files(&files, "docs", "//#", "EPIC.ITEM").unwrap();
    assert_eq!(plan.len(), 0);
    assert_eq!(c.diagnostics().len(), 0);
}

#[test]
fn invalid_prefix_block_is_rejected_before_any_write() {
    let mut c = Comments::default();
    let files = vec![src_file(
        "off.rs",
        &["//#EPIC E.WRONG x [1]", "//#text", "x();"],
    )];
    let plan = c.comment_in_files(&files, "docs", "//#", "EPIC.ITEM").unwrap();
    assert_eq!(plan.len(), 0);
    assert_eq!(
        c.diagnostics()[0].error,
        BlockError::PrefixMismatch("WRONG x".to_string(), "ITEM".to_string())
    );
}

#[test]
fn leading_whitespace_of_body_lines_is_preserved_after_the_marker() {
    let mut c = Comments::default();
    let files = vec![src_file(
        "indent.rs",
        &["   //#EPIC E.ITEM Pad [1]", "   //#  indented", "x();"],
    )];
    let plan = c.comment_in_files(&files, "docs", "//#", "EPIC.ITEM").unwrap();
    assert_eq!(plan.len(), 1);
    assert_eq!(plan[0].lines[1], "  indented");
}

#[test]
fn header_names_the_line_after_the_metadata_line() {
    let mut c = Comments::default();
    let files = vec![src_file(
        "deep.rs",
        &[
            "fn a() {}",
            "fn b() {}",
            "fn c() {}",
            "//#EPIC E.ITEM Deep [1]",
            "//#text",
            "x();",
        ],
    )];
    let plan = c.comment_in_files(&files, "docs", "//#", "EPIC.ITEM").unwrap();
    assert_eq!(plan[0].lines[0], "[SOURCE FILE:](file:///deep.rs) LINE: 5\n");
}

#[test]
fn path_deeper_than_declared_hierarchy_is_rejected_in_a_run() {
    let mut c = Comments::default();
    let files = vec![src_file(
        "deep2.rs",
        &["//#EPIC E.ITEM I.Extra x [1]", "//#b", "x();"],
    )];
    let plan = c.comment_in_files(&files, "docs", "//#", "EPIC.ITEM").unwrap();
    assert_eq!(plan.len(), 0);
    assert_eq!(c.diagnostics().len(), 1);
    assert_eq!(c.diagnostics()[0].error, BlockError::PathTooDeep);
}

#[test]
fn keys_differing_only_in_trailing_space_share_an_output_file() {
    let mut c = Comments::default();
    let files = vec![
        src_file("s1.rs", &["//#EPIC E.ITEM Title [1]", "//#spaced", "x();"]),
        src_file("s2.rs", &["//#EPIC E.ITEM Title[2]", "//#tight", "y();"]),
    ];
    let plan = c.comment_in_files(&files, "docs", "//#", "EPIC.ITEM").unwrap();
    assert_eq!(plan.len(), 2);
    assert_eq!(plan[0].file_path, "docs/EPIC E/ITEM Title.md");
    assert_eq!(plan[1].file_path, "docs/EPIC E/ITEM Title.md");
    assert_eq!(plan[0].lines[1], "spaced");
    assert_eq!(plan[1].lines[1], "tight");
}

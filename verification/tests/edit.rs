use henka::edit::applier::{file_op_diff, relativize, resolve_path, unified_diff};
use henka::edit::position::resolve_offset;
use henka::edit::rewrite::{rewrite_text, RewriteError};
use henka::edit::{
    identifier_at, text_in_range, EditApplier, FileEdit, FileOperation, FileStep, Plan, Position,
    PositionEncoding, Range, TextEdit, WorkspaceEdit,
};
use henka::error::Error;
use henka::path::PathBuf;

fn pos(line: u32, ch: u32) -> Position {
    Position::new(line, ch)
}

fn path(text: &str) -> PathBuf {
    PathBuf::new(text)
}

fn replacement(start: Position, end: Position, new_text: &str) -> TextEdit {
    TextEdit { range: Range::new(start, end), new_text: new_text.to_string() }
}

fn single_file_edit(root: &PathBuf, name: &str, edits: Vec<TextEdit>) -> WorkspaceEdit {
    WorkspaceEdit {
        encoding: PositionEncoding::Utf16,
        files: vec![FileEdit { path: root.join(&path(name)), edits }],
        file_ops: Vec::new(),
    }
}

fn sources(text: &str) -> Vec<Result<String, String>> {
    vec![Ok(text.to_string())]
}

/// The text that a plan writes to a file.
fn written(plan: &Plan, file: &PathBuf) -> Option<String> {
    let mut found = None;
    for step in &plan.steps {
        if let FileStep::Write { path, text } = step {
            if path == file {
                found = Some(text.clone());
            }
        }
    }
    found
}

#[test]
fn identifier_at_resolves_whole_identifier() {
    let text = "    boolean isCovariantTypeBase(Type typeBase) {\n";
    let enc = PositionEncoding::Utf16;
    let name = "isCovariantTypeBase";
    let start = 12;
    assert_eq!(identifier_at(text, pos(0, start), enc).as_deref(), Some(name));
    assert_eq!(identifier_at(text, pos(0, start + 5), enc).as_deref(), Some(name));
    assert_eq!(
        identifier_at(text, pos(0, start + name.len() as u32), enc).as_deref(),
        Some(name)
    );
    assert_eq!(identifier_at(text, pos(0, 37), enc).as_deref(), Some("typeBase"));
    assert_eq!(identifier_at(text, pos(0, 0), enc), None);
    assert_eq!(identifier_at(text, pos(9, 0), enc), None);
}

#[test]
fn text_in_range_returns_selected_slice() {
    let text = "let answer = 42;\n";
    let enc = PositionEncoding::Utf16;
    assert_eq!(
        text_in_range(text, Range::new(pos(0, 4), pos(0, 10)), enc).as_deref(),
        Some("answer")
    );
    assert_eq!(text_in_range(text, Range::new(pos(0, 10), pos(0, 4)), enc), None);
}

#[test]
fn edit_applies_single_replacement() {
    let root = path("/tmp/project");
    let edit =
        single_file_edit(&root, "a.txt", vec![replacement(pos(0, 6), pos(0, 11), "there")]);
    let plan = EditApplier::apply(&edit, &root, &sources("hello world\n")).unwrap();
    assert_eq!(plan.applied.changed_files, vec![path("a.txt")]);
    assert_eq!(
        written(&plan, &path("/tmp/project/a.txt")).as_deref(),
        Some("hello there\n")
    );
}

#[test]
fn edit_applies_multiple_edits_in_one_file() {
    let root = path("/tmp/project");
    let edit = single_file_edit(
        &root,
        "a.txt",
        vec![
            replacement(pos(0, 8), pos(0, 11), "ZZZ"),
            replacement(pos(0, 0), pos(0, 3), "AAA"),
        ],
    );
    let plan = EditApplier::apply(&edit, &root, &sources("aaa bbb ccc\n")).unwrap();
    assert_eq!(
        written(&plan, &path("/tmp/project/a.txt")).as_deref(),
        Some("AAA bbb ZZZ\n")
    );
}

#[test]
fn edit_rejects_overlapping_edits() {
    let root = path("/tmp/project");
    let edit = single_file_edit(
        &root,
        "a.txt",
        vec![
            replacement(pos(0, 0), pos(0, 5), "x"),
            replacement(pos(0, 3), pos(0, 8), "y"),
        ],
    );
    let err = EditApplier::apply(&edit, &root, &sources("hello world\n")).unwrap_err();
    assert!(matches!(err, Error::OverlappingEdits(_)));
    assert_eq!(err.message(), "overlapping edits in /tmp/project/a.txt");
}

#[test]
fn edit_utf16_offsets_account_for_astral_chars() {
    let root = path("/tmp/project");
    let edit = single_file_edit(&root, "a.txt", vec![replacement(pos(0, 2), pos(0, 3), "Y")]);
    let plan = EditApplier::apply(&edit, &root, &sources("💡x\n")).unwrap();
    assert_eq!(written(&plan, &path("/tmp/project/a.txt")).as_deref(), Some("💡Y\n"));
}

#[test]
fn edit_preview_does_not_write_and_shows_diff() {
    let root = path("/tmp/project");
    let edit =
        single_file_edit(&root, "a.txt", vec![replacement(pos(0, 6), pos(0, 11), "there")]);
    let diffs = EditApplier::preview(&edit, &root, &sources("hello world\n")).unwrap();
    assert_eq!(diffs.len(), 1);
    assert_eq!(diffs[0].path, path("a.txt"));
    assert!(diffs[0].diff.contains("-hello world"));
    assert!(diffs[0].diff.contains("+hello there"));
}

#[test]
fn applies_text_edit_then_renames_file() {
    let root = path("/tmp/project");
    let old = root.join(&path("Greeting.java"));
    let new = root.join(&path("Salutation.java"));
    let edit = WorkspaceEdit {
        encoding: PositionEncoding::Utf16,
        files: vec![FileEdit {
            path: old.clone(),
            edits: vec![replacement(pos(0, 6), pos(0, 14), "Salutation")],
        }],
        file_ops: vec![FileOperation::Rename { from: old.clone(), to: new.clone() }],
    };
    let plan = EditApplier::apply(&edit, &root, &sources("class Greeting {}\n")).unwrap();
    assert_eq!(
        plan.steps,
        vec![
            FileStep::Write { path: old.clone(), text: "class Salutation {}\n".to_string() },
            FileStep::Rename { from: old, to: new, parent: Some(root) },
        ]
    );
}

#[test]
fn retarget_rewrites_file_and_op_paths() {
    let mut edit = WorkspaceEdit {
        encoding: PositionEncoding::Utf16,
        files: vec![FileEdit { path: path("/base/src/A.java"), edits: vec![] }],
        file_ops: vec![FileOperation::Rename {
            from: path("/base/src/Old.java"),
            to: path("/base/src/New.java"),
        }],
    };
    edit.retarget(&path("/base"), &path("/wt"));
    assert_eq!(edit.files[0].path, path("/wt/src/A.java"));
    match &edit.file_ops[0] {
        FileOperation::Rename { from, to } => {
            assert_eq!(from, &path("/wt/src/Old.java"));
            assert_eq!(to, &path("/wt/src/New.java"));
        }
        other => panic!("unexpected op {other:?}"),
    }
}

#[test]
fn retarget_leaves_foreign_paths() {
    let mut edit = WorkspaceEdit {
        encoding: PositionEncoding::Utf16,
        files: vec![FileEdit {
            path: path("/usr/lib/jvm/src/java/lang/String.java"),
            edits: vec![],
        }],
        file_ops: vec![],
    };
    edit.retarget(&path("/base"), &path("/wt"));
    assert_eq!(
        edit.files[0].path,
        path("/usr/lib/jvm/src/java/lang/String.java"),
        "paths outside the source root are untouched"
    );
}

#[test]
fn retarget_then_apply_writes_to_target() {
    let base = path("/nonexistent-base-checkout");
    let to = path("/tmp/target");
    let mut edit =
        single_file_edit(&base, "a.txt", vec![replacement(pos(0, 6), pos(0, 11), "there")]);
    edit.retarget(&base, &to);
    let plan = EditApplier::apply(&edit, &to, &sources("hello world\n")).unwrap();
    assert_eq!(plan.applied.changed_files, vec![path("a.txt")]);
    assert_eq!(
        written(&plan, &path("/tmp/target/a.txt")).as_deref(),
        Some("hello there\n")
    );
}

#[test]
fn edit_out_of_range_line_errors() {
    let root = path("/tmp/project");
    let edit = single_file_edit(&root, "a.txt", vec![replacement(pos(5, 0), pos(5, 1), "x")]);
    let err = EditApplier::apply(&edit, &root, &sources("one line\n")).unwrap_err();
    assert!(matches!(err, Error::PositionOutOfRange { .. }));
    assert_eq!(err.message(), "position 5:0 is out of range in /tmp/project/a.txt");
}

#[test]
fn line_feeds_before_the_end_of_a_line_stay() {
    let enc = PositionEncoding::Utf16;
    let chars: Vec<char> = "ab\r\ncd".chars().collect();
    assert_eq!(resolve_offset(&chars, pos(0, 1), enc), Some(1));
    assert_eq!(resolve_offset(&chars, pos(0, 2), enc), Some(2));
    assert_eq!(resolve_offset(&chars, pos(1, 0), enc), Some(4));
    assert_eq!(resolve_offset(&chars, pos(1, 9), enc), Some(6));
    assert_eq!(resolve_offset(&chars, pos(2, 0), enc), None);
}

#[test]
fn encodings_count_differently() {
    let chars: Vec<char> = "é💡x".chars().collect();
    assert_eq!(resolve_offset(&chars, pos(0, 6), PositionEncoding::Utf8), Some(2));
    assert_eq!(resolve_offset(&chars, pos(0, 3), PositionEncoding::Utf16), Some(2));
    assert_eq!(resolve_offset(&chars, pos(0, 2), PositionEncoding::Utf32), Some(2));
}

#[test]
fn order_of_edits_is_of_no_account() {
    let enc = PositionEncoding::Utf16;
    let first = vec![
        replacement(pos(0, 4), pos(0, 7), "two"),
        replacement(pos(0, 0), pos(0, 3), "one"),
    ];
    let second = vec![
        replacement(pos(0, 0), pos(0, 3), "one"),
        replacement(pos(0, 4), pos(0, 7), "two"),
    ];
    assert_eq!(rewrite_text("aaa bbb", &first, enc).unwrap(), "one two");
    assert_eq!(rewrite_text("aaa bbb", &second, enc).unwrap(), "one two");
    assert_eq!(rewrite_text("aaa bbb", &vec![], enc).unwrap(), "aaa bbb");
}

#[test]
fn rewriting_reports_what_is_wrong() {
    let enc = PositionEncoding::Utf16;
    let outside = vec![replacement(pos(3, 1), pos(3, 2), "x")];
    assert!(matches!(
        rewrite_text("a", &outside, enc),
        Err(RewriteError::OutOfRange(_))
    ));
    let overlapping = vec![
        replacement(pos(0, 0), pos(0, 2), "x"),
        replacement(pos(0, 1), pos(0, 3), "y"),
    ];
    assert!(matches!(rewrite_text("abcd", &overlapping, enc), Err(RewriteError::Overlapping)));
}

#[test]
fn inverted_edits_are_refused() {
    let root = path("/p");
    let edit = single_file_edit(&root, "a.txt", vec![replacement(pos(0, 3), pos(0, 1), "x")]);
    let enc = PositionEncoding::Utf16;
    let alone = vec![replacement(pos(0, 3), pos(0, 1), "x")];
    assert!(matches!(rewrite_text("abcd", &alone, enc), Err(RewriteError::Inverted)));
    match EditApplier::apply(&edit, &root, &sources("abcd")) {
        Err(Error::InvertedEdit(file)) => assert_eq!(file, path("/p/a.txt")),
        other => panic!("unexpected {other:?}"),
    }
    let err = EditApplier::preview(&edit, &root, &sources("abcd")).unwrap_err();
    assert_eq!(err.message(), "an edit ends before it starts in /p/a.txt");
    let upright = single_file_edit(&root, "a.txt", vec![replacement(pos(0, 1), pos(0, 3), "x")]);
    assert!(EditApplier::apply(&upright, &root, &sources("abcd")).is_ok());
}

#[test]
fn insertions_come_before_a_replacement_at_their_place() {
    let enc = PositionEncoding::Utf16;
    let insertion = || replacement(pos(0, 0), pos(0, 0), "Y");
    let deletion = || replacement(pos(0, 0), pos(0, 3), "X");
    for edits in [vec![insertion(), deletion()], vec![deletion(), insertion()]] {
        assert_eq!(rewrite_text("abcdef\n", &edits, enc).unwrap(), "YXdef\n");
    }
}

#[test]
fn unchanged_files_are_not_written() {
    let root = path("/p");
    let edit = single_file_edit(&root, "a.txt", vec![replacement(pos(0, 0), pos(0, 3), "abc")]);
    let plan = EditApplier::apply(&edit, &root, &sources("abc\n")).unwrap();
    assert!(plan.steps.is_empty());
    assert!(plan.applied.changed_files.is_empty());
    let diffs = EditApplier::preview(&edit, &root, &sources("abc\n")).unwrap();
    assert_eq!(diffs.len(), 1);
    assert_eq!(diffs[0].diff, "");
}

#[test]
fn unreadable_files_stop_an_edit() {
    let root = path("/p");
    let edit = single_file_edit(&root, "a.txt", vec![replacement(pos(0, 0), pos(0, 3), "abc")]);
    let err = EditApplier::apply(&edit, &root, &vec![Err("no such file".to_string())]);
    assert!(matches!(err, Err(Error::Io(_))));
}

#[test]
fn file_operations_are_reported() {
    let root = path("/p");
    let created = file_op_diff(&FileOperation::Create { path: path("/p/new.txt") }, &root);
    assert_eq!(created.path, path("new.txt"));
    assert!(created.diff.contains("create"), "{}", created.diff);
    let deleted = file_op_diff(&FileOperation::Delete { path: path("old.txt") }, &root);
    assert_eq!(deleted.path, path("old.txt"));
    assert!(deleted.diff.contains("delete"), "{}", deleted.diff);
}

#[test]
fn diffs_show_both_sides() {
    let diff = unified_diff("one\ntwo\n", "one\n2\n", &path("a.txt"));
    assert_eq!(diff, "--- a/a.txt\n+++ b/a.txt\n@@ -1,2 +1,2 @@\n one\n-two\n+2\n");
}

#[test]
fn paths_of_edits_are_seen_from_the_root() {
    let root = path("/p");
    assert_eq!(resolve_path(&path("src/A.java"), &root), path("/p/src/A.java"));
    assert_eq!(resolve_path(&path("/q/A.java"), &root), path("/q/A.java"));
    assert_eq!(relativize(&path("/p/src/A.java"), &root), path("src/A.java"));
    assert_eq!(relativize(&path("/q/A.java"), &root), path("/q/A.java"));
}

#[test]
fn empty_edits_are_empty() {
    let edit = WorkspaceEdit::empty();
    assert!(edit.is_empty());
    let plan = EditApplier::apply(&edit, &path("/p"), &vec![]).unwrap();
    assert!(plan.steps.is_empty());
}

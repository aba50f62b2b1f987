use std::collections::HashSet;

use simple_english::diff::{
    apply_edit, changed_lines, changed_prose_lines, filter_to_changed, lint_edit, lint_write,
};
use simple_english::foreign::ChangeTag;
use simple_english::lint;
use simple_english::types::{LintConfig, LintKind, LintReport};

#[test]
fn changed_lines_detects_middle_edit() {
    let old = "line one\nline two\nline three\n";
    let new = "line one\nline two CHANGED\nline three\n";
    let changed = changed_prose_lines(LintKind::ProseFile, old, new);
    assert!(changed.contains(&2), "line 2 changed");
    assert!(!changed.contains(&1), "line 1 unchanged");
    assert!(!changed.contains(&3), "line 3 unchanged");
}

#[test]
fn changed_lines_new_file_is_all() {
    let changed = changed_prose_lines(LintKind::ProseFile, "", "a\nb\nc\n");
    assert_eq!(changed, std::collections::HashSet::from([1usize, 2, 3]));
}

#[test]
fn changed_lines_identical_is_empty() {
    let text = "same\nsame\n";
    assert!(changed_prose_lines(LintKind::ProseFile, text, text).is_empty());
}

#[test]
fn slash_source_preexisting_violation_does_not_resurface() {
    let config = LintConfig::default();
    let old = "// intro\nfn main() {\n    let a = 1; // bad; semicolon\n}\n";
    let report = lint_edit(
        LintKind::SlashSource,
        old,
        "fn main() {",
        "fn main2() {",
        false,
        &config,
    )
    .unwrap();
    assert!(
        report.violations.is_empty(),
        "pre-existing semicolon on an unchanged prose line was kept: {report:?}"
    );
}

#[test]
fn apply_edit_unique() {
    let out = apply_edit("foo\nbar\n", "bar", "BAR", false).unwrap();
    assert_eq!(out, "foo\nBAR\n");
}

#[test]
fn apply_edit_ambiguous_without_replace_all() {
    let res = apply_edit("x\nx\n", "x", "y", false);
    assert!(res.is_err());
}

#[test]
fn apply_edit_replace_all() {
    let out = apply_edit("x\nx\n", "x", "y", true).unwrap();
    assert_eq!(out, "y\ny\n");
}

#[test]
fn apply_edit_empty_old_is_error() {
    assert!(apply_edit("abc", "", "z", false).is_err());
}

#[test]
fn lint_edit_filters_preexisting_violation() {
    let config = LintConfig::default();
    let file = "bad; old line\nplain line\n";
    let report =
        lint_edit(LintKind::ProseFile, file, "plain line", "plain; new line", false, &config)
            .unwrap();
    let lines: Vec<usize> = report.violations.iter().map(|v| v.line).collect();
    assert!(
        lines.iter().all(|l| *l == 2),
        "only the new line's violation is reported: {report:?}"
    );
}

#[test]
fn lint_edit_reports_new_violation() {
    let config = LintConfig::default();
    let file = "good line\n";
    let report =
        lint_edit(LintKind::ProseFile, file, "good line", "bad; line", false, &config)
            .unwrap();
    assert!(report.summary.hard >= 1);
}

#[test]
fn lint_edit_missing_old_is_error() {
    let config = LintConfig::default();
    let res =
        lint_edit(LintKind::ProseFile, "a\n", "not-there", "x; y", false, &config);
    assert!(res.is_err());
}

#[test]
fn lint_write_existing_file_filters_unchanged() {
    let config = LintConfig::default();
    let old = "fine line\n";
    let new = "fine line\nbad; new line\n";
    let report = lint_write(LintKind::ProseFile, new, Some(old), &config);
    let lines: Vec<usize> = report.violations.iter().map(|v| v.line).collect();
    assert!(lines.iter().all(|l| *l == 2), "{report:?}");
}

#[test]
fn lint_write_new_file_is_full() {
    let config = LintConfig::default();
    let report = lint_write(LintKind::ProseFile, "bad; text", None, &config);
    assert!(report.summary.hard >= 1);
}

#[test]
fn lint_write_new_file_fenced_code_is_exempt() {
    let config = LintConfig::default();
    let new = "Title.\n\n```sh\nrun a; run b\n```\n";
    let report = lint_write(LintKind::ProseFile, new, None, &config);
    assert_eq!(report.summary.total, 0, "{report:?}");
}

#[test]
fn lint_edit_inside_fence_is_exempt() {
    let config = LintConfig::default();
    let file = "Title.\n\n```sh\nrun a\n```\n";
    let report =
        lint_edit(LintKind::ProseFile, file, "run a", "run a; run b", false, &config)
            .unwrap();
    assert_eq!(report.summary.total, 0, "{report:?}");
}

#[test]
fn lint_edit_inside_inline_span_is_exempt() {
    let config = LintConfig::default();
    let file = "Title.\nUse `run a` now.\n";
    let report = lint_edit(
        LintKind::ProseFile,
        file,
        "run a",
        "run a; run b",
        false,
        &config,
    )
    .unwrap();
    assert_eq!(report.summary.total, 0, "{report:?}");
}

#[test]
fn new_violation_in_a_source_comment_is_reported() {
    let config = LintConfig::default();
    let old = "fn main() {\n    let a = 1;\n}\n";
    let report = lint_edit(
        LintKind::SlashSource,
        old,
        "let a = 1;",
        "let a = 1; // kick off the build",
        false,
        &config,
    )
    .unwrap();
    assert!(report.violations.iter().any(|v| v.rule_id == "phrasal-verb"), "{report:?}");
}

#[test]
fn edit_errors_say_what_is_wrong() {
    assert_eq!(apply_edit("abc", "", "z", true), Err("old_string is empty".to_string()));
    assert_eq!(
        apply_edit("abc", "x", "z", true),
        Err("old_string not found in file".to_string())
    );
    assert_eq!(
        apply_edit("aaaa", "aa", "z", false),
        Err("old_string appears 2 times; set replace_all or use more context".to_string())
    );
    let config = LintConfig::default();
    let res = lint_edit(LintKind::ProseFile, "x x", "x", "y", false, &config);
    assert_eq!(
        res.unwrap_err(),
        "old_string appears 2 times; set replace_all or use more context"
    );
}

#[test]
fn replacing_all_goes_from_the_left() {
    assert_eq!(apply_edit("aaaaa", "aa", "b", true), Ok("bba".to_string()));
    assert_eq!(apply_edit("é—é", "é", "", true), Ok("—".to_string()));
}

#[test]
fn replacing_all_of_one_is_replacing_it() {
    assert_eq!(apply_edit("one two", "two", "2", true), apply_edit("one two", "two", "2", false));
}

#[test]
fn same_edit_changes_nothing() {
    let config = LintConfig::default();
    let file = "bad; line\ngood line\n";
    assert_eq!(apply_edit(file, "bad; line", "bad; line", false), Ok(file.to_string()));
    let report =
        lint_edit(LintKind::ProseFile, file, "bad; line", "bad; line", false, &config).unwrap();
    assert_eq!(report.summary.total, 0);
}

#[test]
fn new_file_is_linted_in_full() {
    let config = LintConfig::default();
    let text = "bad; one\n\n> it's robust\nbad; two";
    for kind in [LintKind::ProseFile, LintKind::CommitMessage, LintKind::HashSource] {
        let full = lint(kind, text, &config);
        let write = lint_write(kind, text, None, &config);
        let empty = lint_write(kind, text, Some(""), &config);
        let places = |r: &LintReport| -> Vec<(usize, usize, &'static str)> {
            r.violations.iter().map(|v| (v.line, v.column, v.rule_id)).collect()
        };
        assert_eq!(places(&write), places(&full));
        assert_eq!(places(&empty), places(&full));
        assert_eq!(write.summary.hard, full.summary.hard);
    }
}

#[test]
fn unchanged_content_reports_nothing() {
    let config = LintConfig::default();
    let text = "bad; one\nbad; two";
    assert_eq!(lint_write(LintKind::ProseFile, text, Some(text), &config).summary.total, 0);
}

#[test]
fn changed_lines_follow_the_steps() {
    let steps = vec![
        (ChangeTag::Equal, 0, 2),
        (ChangeTag::Replace, 2, 4),
        (ChangeTag::Delete, 4, 4),
        (ChangeTag::Insert, 6, 7),
    ];
    assert_eq!(changed_lines(&steps), HashSet::from([3usize, 4, 7]));
}

#[test]
fn only_inserted_and_replaced_lines_change() {
    let old = "a\nb\nc\nd";
    let new = "a\nx\nc\ny\nd";
    let changed = changed_prose_lines(LintKind::ProseFile, old, new);
    assert_eq!(changed, HashSet::from([2usize, 4]));
    for (k, line) in new.lines().enumerate() {
        if !changed.contains(&(k + 1)) {
            assert!(old.lines().any(|l| l == line));
        }
    }
}

#[test]
fn deleted_lines_change_nothing() {
    assert!(changed_prose_lines(LintKind::ProseFile, "a\nb\nc\n", "a\nc\n").is_empty());
}

#[test]
fn filtering_counts_again() {
    let config = LintConfig::default();
    let report = lint(LintKind::ProseFile, "a; b\nrobust\nc; d", &config);
    assert_eq!((report.summary.total, report.summary.hard), (3, 2));
    let kept = filter_to_changed(report, &HashSet::from([2usize, 3]));
    assert_eq!((kept.summary.total, kept.summary.hard), (2, 1));
    assert_eq!(kept.violations[0].line, 2);
}

#[test]
fn source_diffs_run_over_comments() {
    let old = "// a\nlet x = 1;\n// b\n";
    let new = "// a\nlet x = 2;\n// b2\n";
    let changed = changed_prose_lines(LintKind::SlashSource, old, new);
    assert_eq!(changed, HashSet::from([2usize]));
}

#[test]
fn carriage_return_inside_a_line_ends_no_line() {
    let config = LintConfig::default();
    let report = lint_write(
        LintKind::ProseFile,
        "x\ry2\nbad; a",
        Some("x\ry\nbad; a"),
        &config,
    );
    assert!(report.violations.is_empty(), "{report:?}");
    let report =
        lint_write(LintKind::ProseFile, "x\ry\nbad; b", Some("x\ry\nbad; a"), &config);
    assert_eq!(report.violations.len(), 1);
    assert_eq!(report.violations[0].line, 2);
}

#[test]
fn lines_that_differ_in_a_carriage_return_differ() {
    let config = LintConfig::default();
    for (old, new) in [("a b; c", "a\rb; c"), ("a\rb; c", "a b; c"), ("a\\rb; c", "a\rb; c")] {
        let report = lint_write(LintKind::ProseFile, new, Some(old), &config);
        assert_eq!(report.violations.len(), 1, "{old:?} {new:?}");
        let report = lint_write(LintKind::ProseFile, new, Some(new), &config);
        assert!(report.violations.is_empty());
    }
}

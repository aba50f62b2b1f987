use simple_english::engine::{count_hard, finish_report, lint};
use simple_english::rules::check_semicolons;
use simple_english::types::{LintConfig, LintKind, Severity};

#[test]
fn engine_lint_clean_prose() {
    let config = LintConfig::default();
    let report = lint(
        LintKind::ProseFile,
        "This is a clean sentence. It is short.",
        &config,
    );
    assert_eq!(report.summary.total, 0);
}

#[test]
fn engine_lint_detects_semicolon() {
    let config = LintConfig::default();
    let report = lint(LintKind::ProseFile, "One; two.", &config);
    assert!(report.summary.hard >= 1);
    assert!(report
        .violations
        .iter()
        .any(|v| v.rule_id == "semicolon"));
}

#[test]
fn engine_lint_detects_long_sentence() {
    let config = LintConfig::default();
    let long = "This is a sentence that has many words and it definitely exceeds the twenty five word limit that is set by default in the configuration file for this tool";
    let report = lint(LintKind::ProseFile, &format!("{}. ", long), &config);
    assert!(report
        .violations
        .iter()
        .any(|v| v.rule_id == "sentence-length"));
}

#[test]
fn engine_lint_detects_phrasal_verb() {
    let config = LintConfig::default();
    let report = lint(
        LintKind::ProseFile,
        "We will kick off the project.",
        &config,
    );
    assert!(report
        .violations
        .iter()
        .any(|v| v.rule_id == "phrasal-verb"));
}

#[test]
fn engine_lint_off_rule_suppresses() {
    let mut config = LintConfig::default();
    config
        .rules
        .insert("semicolon".to_string(), "off".to_string());
    let report = lint(LintKind::ProseFile, "One; two.", &config);
    assert!(
        !report
            .violations
            .iter()
            .any(|v| v.rule_id == "semicolon")
    );
}

#[test]
fn engine_lint_commit_message_kind() {
    let config = LintConfig::default();
    let report = lint(LintKind::CommitMessage, "fix; update thing", &config);
    assert!(report
        .violations
        .iter()
        .any(|v| v.rule_id == "semicolon"));
}

#[test]
fn lint_semicolon_is_skipped_for_slash_source() {
    let config = LintConfig::default();
    let text = "fn main() {\n    let a = 1; // one; two\n}\n";
    let report = lint(LintKind::SlashSource, text, &config);
    assert!(
        !report.violations.iter().any(|v| v.rule_id == "semicolon"),
        "{report:?}"
    );
}

#[test]
fn lint_semicolon_is_skipped_for_hash_source() {
    let config = LintConfig::default();
    let text = "x = 1\n# one; two\n";
    let report = lint(LintKind::HashSource, text, &config);
    assert!(
        !report.violations.iter().any(|v| v.rule_id == "semicolon"),
        "{report:?}"
    );
}

#[test]
fn lint_slash_url_string_is_exempt() {
    let config = LintConfig::default();
    let text = "fn f() {\n    let u = \"http://x.example/a\";\n}\n";
    let report = lint(LintKind::SlashSource, text, &config);
    assert_eq!(report.summary.total, 0, "{report:?}");
}

#[test]
fn lint_slash_comment_after_string_is_prose() {
    let config = LintConfig::default();
    let text = "fn f() {\n    let s = \"a\\\"b\"; // kick off\n}\n";
    let report = lint(LintKind::SlashSource, text, &config);
    assert!(
        report
            .violations
            .iter()
            .any(|v| v.rule_id == "phrasal-verb"),
        "{report:?}"
    );
}

#[test]
fn slash_source_prose_rules_still_apply() {
    let config = LintConfig::default();
    let text = "fn main() {\n    // kick off the build\n}\n";
    let report = lint(LintKind::SlashSource, text, &config);
    assert!(
        report
            .violations
            .iter()
            .any(|v| v.rule_id == "phrasal-verb"),
        "{report:?}"
    );
}

#[test]
fn lint_fenced_code_is_exempt() {
    let config = LintConfig::default();
    let text = "Good prose here.\n```rust\nlet a = 1; // one\nlet b = a; // two\n```\nMore prose after the fence.";
    let report = lint(LintKind::ProseFile, text, &config);
    assert_eq!(report.summary.total, 0, "{report:?}");
}

#[test]
fn lint_semicolon_outside_fence_is_reported_with_source_line() {
    let config = LintConfig::default();
    let text = "```sh\necho hi; echo bye\n```\nOne; two.";
    let report = lint(LintKind::ProseFile, text, &config);
    let semi: Vec<_> = report
        .violations
        .iter()
        .filter(|v| v.rule_id == "semicolon")
        .collect();
    assert_eq!(semi.len(), 1, "{report:?}");
    assert_eq!(semi[0].line, 4, "{report:?}");
}

#[test]
fn lint_tilde_fence_is_exempt() {
    let config = LintConfig::default();
    let text = "Intro.\n~~~\nx = 1;\n~~~\nOutro.";
    let report = lint(LintKind::ProseFile, text, &config);
    assert_eq!(report.summary.total, 0, "{report:?}");
}

#[test]
fn lint_longer_close_fence_is_needed() {
    let config = LintConfig::default();
    let text = "````\n```\na = 1;\n````\nTail.";
    let report = lint(LintKind::ProseFile, text, &config);
    assert_eq!(report.summary.total, 0, "{report:?}");
}

#[test]
fn lint_unclosed_fence_blanks_to_end() {
    let config = LintConfig::default();
    let text = "Intro.\n```python\nx = 1;\ny = 2;\n";
    let report = lint(LintKind::ProseFile, text, &config);
    assert!(
        !report
            .violations
            .iter()
            .any(|v| v.rule_id == "semicolon"),
        "{report:?}"
    );
}

#[test]
fn lint_markdown_table_is_exempt() {
    let config = LintConfig::default();
    let table = "Intro prose.\n\
        | Document | Status | Updated | Notes |\n\
        |---|---|---|---|\n\
        | `a-plan.md` | Implemented | 2026-09-13 | Option A worker plus Option B memo, staged with test gates |\n\
        | `b-audit.md` | Audit | 2026-09-13 | Independent perf test for the frame budget, passing |\n\
        Outro prose.\n";
    let report = lint(LintKind::ProseFile, table, &config);
    assert!(
        !report
            .violations
            .iter()
            .any(|v| v.rule_id == "sentence-length"),
        "{report:?}"
    );
    assert!(
        !report
            .violations
            .iter()
            .any(|v| v.rule_id == "paragraph-length"),
        "{report:?}"
    );
}

#[test]
fn lint_indented_code_is_exempt() {
    let config = LintConfig::default();
    let text = "Intro.\n    let a = 1; let b = 2; let c = 3; let d = 4;\nOutro.\n";
    let report = lint(LintKind::ProseFile, text, &config);
    let semi: Vec<_> = report
        .violations
        .iter()
        .filter(|v| v.rule_id == "semicolon")
        .collect();
    assert!(semi.is_empty(), "{semi:?}");
}

#[test]
fn lint_html_comment_is_exempt() {
    let config = LintConfig::default();
    let text = "Intro.\n<!-- This comment is long enough to exceed the sentence length limit when counted as prose words here -->\nOutro.\n";
    let report = lint(LintKind::ProseFile, text, &config);
    assert!(
        !report
            .violations
            .iter()
            .any(|v| v.rule_id == "sentence-length"),
        "{report:?}"
    );
}

#[test]
fn lint_multi_line_html_comment_is_exempt() {
    let config = LintConfig::default();
    let text = "Intro.\n<!--\nmulti line comment with; semicolons inside\n-->\nOutro.\n";
    let report = lint(LintKind::ProseFile, text, &config);
    assert!(
        !report
            .violations
            .iter()
            .any(|v| v.rule_id == "semicolon"),
        "{report:?}"
    );
}

#[test]
fn lint_table_inside_fence_is_not_blanked() {
    let config = LintConfig::default();
    let text = "```md\n| a | b c d e f g h i j k l m n o p q r |\n|---|---|\n```\n\nOne; two.\n";
    let report = lint(LintKind::ProseFile, text, &config);
    let semi: Vec<_> = report
        .violations
        .iter()
        .filter(|v| v.rule_id == "semicolon")
        .collect();
    assert_eq!(semi.len(), 1, "{report:?}");
}

#[test]
fn lint_prose_line_with_single_pipe_is_not_blanked() {
    let config = LintConfig::default();
    let text = "The value a|b here; one more.\nShort tail.\n";
    let report = lint(LintKind::ProseFile, text, &config);
    let semi: Vec<_> = report
        .violations
        .iter()
        .filter(|v| v.rule_id == "semicolon")
        .collect();
    assert_eq!(semi.len(), 1, "{report:?}");
}

#[test]
fn lint_indented_fence_is_exempt() {
    let config = LintConfig::default();
    let text = "Intro.\n   ```\nx = 1;\n   ```\n";
    let report = lint(LintKind::ProseFile, text, &config);
    assert_eq!(report.summary.total, 0, "{report:?}");
}

#[test]
fn lint_backtick_in_info_string_is_not_a_fence() {
    let config = LintConfig::default();
    let text = "```a`b\ncode; here\n";
    let report = lint(LintKind::ProseFile, text, &config);
    let semi: Vec<_> = report
        .violations
        .iter()
        .filter(|v| v.rule_id == "semicolon")
        .collect();
    assert_eq!(semi.len(), 1, "the line is prose, not a fence: {report:?}");
}

#[test]
fn lint_commit_message_fence_is_exempt() {
    let config = LintConfig::default();
    let text = "Fix the shell loop.\n\n```sh\nfor i in 1 2; do echo $i; done\n```";
    let report = lint(LintKind::CommitMessage, text, &config);
    assert_eq!(report.summary.total, 0, "{report:?}");
}

#[test]
fn lint_inline_code_span_is_exempt() {
    let config = LintConfig::default();
    let text = "Use `let x = 1;` now.";
    let report = lint(LintKind::ProseFile, text, &config);
    assert_eq!(report.summary.total, 0, "{report:?}");
}

#[test]
fn lint_inline_span_keeps_prose_violations() {
    let config = LintConfig::default();
    let text = "Use `let x = 1;` now. One; two.";
    let report = lint(LintKind::ProseFile, text, &config);
    let semi: Vec<_> = report
        .violations
        .iter()
        .filter(|v| v.rule_id == "semicolon")
        .collect();
    assert_eq!(semi.len(), 1, "{report:?}");
    assert_eq!(semi[0].line, 1, "{report:?}");
    assert_eq!(semi[0].column, 26, "{report:?}");
}

#[test]
fn lint_double_backtick_span_is_exempt() {
    let config = LintConfig::default();
    let text = "Run ``a; b`` now.";
    let report = lint(LintKind::ProseFile, text, &config);
    assert_eq!(report.summary.total, 0, "{report:?}");
}

#[test]
fn lint_open_span_does_not_cross_lines() {
    let config = LintConfig::default();
    let text = "Use `let x = 1;\nThen go.";
    let report = lint(LintKind::ProseFile, text, &config);
    let semi: Vec<_> = report
        .violations
        .iter()
        .filter(|v| v.rule_id == "semicolon")
        .collect();
    assert_eq!(semi.len(), 1, "{report:?}");
    assert_eq!(semi[0].line, 1, "{report:?}");
    assert_eq!(semi[0].column, 15, "{report:?}");
}

#[test]
fn lint_escaped_backtick_is_not_a_span() {
    let config = LintConfig::default();
    let text = "Use \\`x\\`; here.";
    let report = lint(LintKind::ProseFile, text, &config);
    let semi: Vec<_> = report
        .violations
        .iter()
        .filter(|v| v.rule_id == "semicolon")
        .collect();
    assert_eq!(semi.len(), 1, "{report:?}");
    assert_eq!(semi[0].column, 10, "{report:?}");
}

#[test]
fn lint_span_in_fence_line_is_not_blanked() {
    let config = LintConfig::default();
    let text = "```sh\necho `x`; done\n```";
    let report = lint(LintKind::ProseFile, text, &config);
    assert_eq!(report.summary.total, 0, "{report:?}");
}

#[test]
fn engine_lint_suppression_directive() {
    let config = LintConfig::default();
    let text = "One; two.\n// ste-disable-next-line semicolon\nThree; four.";
    let report = lint(LintKind::ProseFile, text, &config);
    let semi: Vec<_> = report
        .violations
        .iter()
        .filter(|v| v.rule_id == "semicolon")
        .collect();
    assert_eq!(semi.len(), 1);
    assert_eq!(semi[0].line, 1);
}

#[test]
fn hash_source_shebang_and_dotted_code_are_excluded() {
    let config = LintConfig::default();
    let text = "#!/bin/sh\n# Watch the run.idle window now.\n# Bind 127.0.0.1 and v1.2 here.\n";
    let report = lint(LintKind::HashSource, text, &config);
    assert_eq!(report.summary.total, 0, "{report:?}");
}

#[test]
fn commit_body_with_dotted_identifier_passes() {
    let config = LintConfig::default();
    let report = lint(LintKind::CommitMessage, "Fix the run.idle continue path", &config);
    assert_eq!(report.summary.total, 0, "{report:?}");
}

#[test]
fn hash_source_many_comments_pass_paragraph_length() {
    let config = LintConfig::default();
    let lines: Vec<String> = (0..20)
        .map(|i| {
            if i < 12 {
                "# Watch the window state now.".to_string()
            } else {
                format!("# The run.idle window {i} is open.")
            }
        })
        .collect();
    let text = lines.join("\n");
    let report = lint(LintKind::HashSource, &text, &config);
    assert!(
        !report
            .violations
            .iter()
            .any(|v| v.rule_id == "paragraph-length"),
        "{report:?}"
    );
}

#[test]
fn source_comment_lines_do_not_merge_into_pseudo_sentences() {
    let config = LintConfig::default();
    let lines: Vec<String> = (0..3)
        .map(|i| format!("# one two three four five six seven eight nine ten eleven twelve {i}"))
        .collect();
    let text = lines.join("\n");
    let report = lint(LintKind::HashSource, &text, &config);
    assert!(
        !report
            .violations
            .iter()
            .any(|v| v.rule_id == "sentence-length"),
        "{report:?}"
    );
}

#[test]
fn paragraph_cap_is_configurable() {
    let mut config = LintConfig::default();
    let text = "One. Two. Three. Four. Five. Six. Seven. Eight.\n";
    let report = lint(LintKind::ProseFile, text, &config);
    assert!(
        report
            .violations
            .iter()
            .any(|v| v.rule_id == "paragraph-length"),
        "{report:?}"
    );
    config.max_paragraph_sentences = Some(8);
    let report = lint(LintKind::ProseFile, text, &config);
    assert!(
        !report
            .violations
            .iter()
            .any(|v| v.rule_id == "paragraph-length"),
        "{report:?}"
    );
    config.max_paragraph_sentences = Some(0);
    let report = lint(LintKind::ProseFile, text, &config);
    assert!(
        !report
            .violations
            .iter()
            .any(|v| v.rule_id == "paragraph-length"),
        "{report:?}"
    );
}

#[test]
fn source_kind_paragraph_cap_is_off_by_default() {
    let config = LintConfig::default();
    let text = "# One. # Two. # Three. # Four. # Five. # Six. # Seven. # Eight.\n";
    let report = lint(LintKind::HashSource, text, &config);
    assert!(
        !report
            .violations
            .iter()
            .any(|v| v.rule_id == "paragraph-length"),
        "{report:?}"
    );
}

fn places(text: &str, config: &LintConfig) -> Vec<(usize, usize, &'static str)> {
    lint(LintKind::ProseFile, text, config)
        .violations
        .iter()
        .map(|v| (v.line, v.column, v.rule_id))
        .collect()
}

#[test]
fn long_sentence_message_quotes_the_start() {
    let mut config = LintConfig::default();
    config.max_sentence_words = Some(3);
    let report = lint(LintKind::ProseFile, "One two three. One two three four.", &config);
    assert_eq!(report.summary.total, 1);
    assert_eq!(
        report.violations[0].message,
        "Sentence has 4 words; the maximum is 3. \"One two three four.\""
    );
    assert_eq!((report.violations[0].line, report.violations[0].column), (1, 16));
    let long = "abcdefghi ".repeat(7);
    let report = lint(LintKind::ProseFile, &long, &config);
    assert_eq!(
        report.violations[0].message,
        "Sentence has 7 words; the maximum is 3. \"abcdefghi abcdefghi abcdefghi abcdefghi abcdefghi abcdefghi ...\""
    );
}

#[test]
fn long_paragraph_message_gives_the_cap() {
    let mut config = LintConfig::default();
    config.max_paragraph_sentences = Some(2);
    let report = lint(LintKind::HashSource, "x = 1\n# One. Two. Three.\n", &config);
    assert_eq!(report.summary.total, 1);
    let v = &report.violations[0];
    assert_eq!(v.message, "Paragraph has 3 sentences; the maximum is 2.");
    assert_eq!((v.line, v.column, v.rule_id), (1, 1, "paragraph-length"));
}

#[test]
fn reports_are_sorted_by_place() {
    let config = LintConfig::default();
    assert_eq!(
        places("It is robust; don't.\nUtilize; it.", &config),
        vec![
            (1, 7, "marketing"),
            (1, 13, "semicolon"),
            (1, 15, "contraction"),
            (2, 1, "dictionary-not-approved-word"),
            (2, 8, "semicolon"),
        ]
    );
}

#[test]
fn violations_at_one_place_keep_the_order_of_the_rules() {
    let config = LintConfig::default();
    let report = lint(LintKind::ProseFile, "Prior to lunch.", &config);
    let messages: Vec<&str> = report.violations.iter().map(|v| v.message.as_str()).collect();
    assert_eq!(
        messages,
        vec![
            "Use an approved word instead of \"prior\".",
            "Use an approved word instead of \"prior to\".",
        ]
    );
}

#[test]
fn summary_counts_hard_violations() {
    let config = LintConfig::default();
    let report = lint(LintKind::ProseFile, "A robust tool; a seamless one.", &config);
    assert_eq!(report.summary.total, 3);
    assert_eq!(report.summary.hard, 1);
}

#[test]
fn severity_follows_the_configuration() {
    let mut config = LintConfig::default();
    config.rules.insert("semicolon".to_string(), "soft".to_string());
    config.rules.insert("marketing".to_string(), "hard".to_string());
    config.rules.insert("hedging".to_string(), "loud".to_string());
    let report = lint(LintKind::ProseFile, "As mentioned, a robust tool; yes.", &config);
    let found: Vec<(&str, Severity)> =
        report.violations.iter().map(|v| (v.rule_id, v.severity)).collect();
    assert_eq!(found, vec![("marketing", Severity::Hard), ("semicolon", Severity::Soft)]);
    for v in &report.violations {
        assert_eq!(config.resolve_rule(v.rule_id), Some(v.severity));
    }
    assert_eq!(config.resolve_rule("hedging"), None);
    assert_eq!(config.resolve_rule("verb-passive"), Some(Severity::Soft));
    assert_eq!(config.resolve_rule("verb-perfect"), Some(Severity::Hard));
    assert_eq!(config.resolve_rule("no-such-rule"), None);
}

#[test]
fn severities_have_names() {
    assert_eq!(Severity::Hard.as_str(), "hard");
    assert_eq!(Severity::Soft.as_str(), "soft");
}

#[test]
fn suppression_names_several_rules() {
    let config = LintConfig::default();
    let text = "ste-disable-next-line marketing, semicolon\nA robust tool; don't.\nMore; text.";
    assert_eq!(places(text, &config), vec![(2, 16, "contraction"), (3, 5, "semicolon")]);
}

#[test]
fn suppression_reaches_past_a_second_marker() {
    let config = LintConfig::default();
    let text = "ste-disable-next-line hedging ste-disable-next-line semicolon\nOne; two.";
    assert_eq!(places(text, &config), vec![]);
}

#[test]
fn block_quotes_can_be_exempt() {
    let mut config = LintConfig::default();
    let text = "> a; b\n  > c; d\ne; f";
    assert_eq!(places(text, &config).len(), 3);
    config.exempt_block_quotes = true;
    assert_eq!(places(text, &config), vec![(3, 2, "semicolon")]);
}

#[test]
fn code_is_never_reported() {
    let config = LintConfig::default();
    let text = "a; b\n~~~\nc; d\n~~~\n<!-- e; f\ng; h -->\n    i; j\n| k; l | m |\n|---|---|\n| n; o | p |\nq; r";
    let lines: Vec<usize> = places(text, &config).iter().map(|p| p.0).collect();
    assert_eq!(lines, vec![1, 11]);
}

#[test]
fn a_text_without_prose_has_an_empty_report() {
    let config = LintConfig::default();
    for text in ["", "\n\n", "fn main() { let a = 1; }"] {
        let report = lint(LintKind::SlashSource, text, &config);
        assert_eq!(report.summary.total, 0);
        assert_eq!(report.summary.hard, 0);
        assert!(report.violations.is_empty());
    }
}

#[test]
fn finished_reports_drop_and_sort() {
    let lines = vec!["ste-disable-next-line semicolon".to_string(), "a; b".to_string()];
    let found = check_semicolons(&["x; y".to_string(), "a;b;".to_string()], Severity::Soft);
    let report = finish_report(&found, &lines);
    assert_eq!(report.summary.total, 1);
    assert_eq!(report.summary.hard, 0);
    assert_eq!(report.violations[0].line, 1);
    let mut reversed = found.clone();
    reversed.reverse();
    let report = finish_report(&reversed, &[]);
    let places: Vec<(usize, usize)> =
        report.violations.iter().map(|v| (v.line, v.column)).collect();
    assert_eq!(places, vec![(1, 2), (2, 2), (2, 4)]);
    assert_eq!(count_hard(&found), 0);
}

#[test]
fn turning_a_rule_off_removes_its_violations_only() {
    let text = "Don't utilize it; spin up a robust host; prior to that.\n// ste-disable-next-line bogus\nIt's seamless; and it is important to note that we initiate it.";
    let key = |v: &simple_english::types::Violation| (v.rule_id, v.line, v.column, v.message.clone());
    let all = lint(LintKind::ProseFile, text, &LintConfig::default());
    let all: Vec<_> = all.violations.iter().map(key).collect();
    assert!(all.len() > 8);
    for id in simple_english::rules::REGISTERED_RULE_IDS.iter().chain(["unknown"].iter()) {
        let mut config = LintConfig::default();
        config.rules.insert(id.to_string(), "off".to_string());
        let left = lint(LintKind::ProseFile, text, &config);
        let left: Vec<_> = left.violations.iter().map(key).collect();
        let expected: Vec<_> = all.iter().filter(|v| v.0 != *id).cloned().collect();
        assert_eq!(left, expected, "{id}");
    }
}

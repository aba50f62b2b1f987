use simple_english::lint;
use simple_english::types::{LintConfig, LintKind};

#[test]
fn lint_lint_clean_prose() {
    let config = LintConfig::default();
    let report = lint(LintKind::ProseFile, "This is a clean sentence. It is short.", &config);
    assert_eq!(report.summary.total, 0);
}

#[test]
fn lint_lint_detects_semicolon() {
    let config = LintConfig::default();
    let report = lint(LintKind::ProseFile, "One; two.", &config);
    assert!(report.summary.hard >= 1);
    assert!(report
        .violations
        .iter()
        .any(|v| v.rule_id == "semicolon"));
}

#[test]
fn lint_lint_detects_long_sentence() {
    let config = LintConfig::default();
    let long_sentence = "This is a sentence that has many words and it definitely exceeds the twenty five word limit that is set by default in the configuration file for this tool";
    let report = lint(LintKind::ProseFile, &format!("{}. ", long_sentence), &config);
    assert!(report
        .violations
        .iter()
        .any(|v| v.rule_id == "sentence-length"));
}

#[test]
fn lint_lint_detects_phrasal_verb() {
    let config = LintConfig::default();
    let report = lint(LintKind::ProseFile, "We will kick off the project.", &config);
    assert!(report
        .violations
        .iter()
        .any(|v| v.rule_id == "phrasal-verb"));
}

#[test]
fn lint_lint_off_rule_suppresses() {
    let mut config = LintConfig::default();
    config.rules.insert("semicolon".to_string(), "off".to_string());
    let report = lint(LintKind::ProseFile, "One; two.", &config);
    assert!(!report
        .violations
        .iter()
        .any(|v| v.rule_id == "semicolon"));
}

#[test]
fn lint_lint_commit_message_kind() {
    let config = LintConfig::default();
    let report = lint(LintKind::CommitMessage, "fix; update thing", &config);
    assert!(report
        .violations
        .iter()
        .any(|v| v.rule_id == "semicolon"));
}

#[test]
fn lint_lint_suppression_directive() {
    let config = LintConfig::default();
    let text = "// ste-disable-next-line semicolon\nOne; two.\n// ste-disable-next-line bogus-rule\nThree; four.";
    let report = lint(LintKind::ProseFile, text, &config);
    let semi_violations: Vec<_> = report
        .violations
        .iter()
        .filter(|v| v.rule_id == "semicolon")
        .collect();
    assert_eq!(semi_violations.len(), 1);
    assert_eq!(semi_violations[0].line, 4);
}

use simple_english::feedback::{format_violations, rule_summary};
use simple_english::types::{LintConfig, Severity, Violation};

#[test]
fn format_violations_includes_rule_id() {
    let v = Violation {
        rule_id: "semicolon",
        severity: Severity::Hard,
        message: "Do not use a semicolon. Write two sentences.".into(),
        suggestions: None,
        line: 3,
        column: 5,
    };
    let out = format_violations("test.md", "Writing rules blocked write for", &[v]);
    assert!(out.contains("[semicolon]"));
    assert!(out.contains("line 3"));
}

#[test]
fn rule_summary_mentions_rules() {
    let config = LintConfig::default();
    let summary = rule_summary(&config);
    assert!(summary.contains("ASD-STE100"));
    assert!(summary.contains("contraction"));
    assert!(summary.contains("semicolon"));
}

#[test]
fn rule_summary_respects_off() {
    let mut config = LintConfig::default();
    config.rules.insert("semicolon".to_string(), "off".to_string());
    let summary = rule_summary(&config);
    assert!(!summary.contains("[hard] Do not use semicolons"));
}

#[test]
fn violations_are_listed_under_a_heading() {
    let v = vec![
        Violation {
            rule_id: "semicolon",
            severity: Severity::Hard,
            message: "No semicolon.".to_string(),
            suggestions: None,
            line: 3,
            column: 5,
        },
        Violation {
            rule_id: "marketing",
            severity: Severity::Soft,
            message: "Use an approved word instead of \"robust\"".to_string(),
            suggestions: Some(vec!["delete".to_string(), "other".to_string()]),
            line: 10,
            column: 1,
        },
        Violation {
            rule_id: "hedging",
            severity: Severity::Soft,
            message: "Hedge.".to_string(),
            suggestions: Some(Vec::new()),
            line: 11,
            column: 12,
        },
    ];
    assert_eq!(
        format_violations("a.md", "Found in", &v),
        "Found in a.md:\n\
         - line 3, column 5 [semicolon]: No semicolon.\n\
         - line 10, column 1 [marketing]: Use an approved word instead of \"robust\". Suggested fix: use \"delete\".\n\
         - line 11, column 12 [hedging]: Hedge."
    );
    assert_eq!(format_violations("a.md", "Found in", &[]), "");
}

#[test]
fn rule_summary_in_full() {
    let mut config = LintConfig::default();
    config.max_sentence_words = Some(20);
    for id in ["contraction", "phrasal-verb", "invalid-suppression", "verb-progressive"] {
        config.rules.insert(id.to_string(), "off".to_string());
    }
    config.rules.insert("semicolon".to_string(), "soft".to_string());
    config.rules.insert("sentence-length".to_string(), "off".to_string());
    assert_eq!(
        rule_summary(&config),
        "## Writing rules\n\n\
         Apply these enabled rules to prose that you write or edit:\n\n\
         ### ASD-STE100 Simplified Technical English\n\n\
         - [hard] Use approved words from the STE dictionary.\n\
         - [hard] Use no more than six sentences in one paragraph.\n\
         - [soft] Do not use semicolons in prose. Write two sentences. Code fences are exempt.\n\
         - [soft] Prefer active voice.\n\
         - [hard] Do not use perfect verb forms.\n\n\
         ### House-style rules\n\n\
         - [soft] Remove hedging phrases.\n\
         - [soft] Use factual language instead of marketing language.\n\n\
         Writes, edits, and git commit messages reject hard violations. Correct the reported text and retry. Soft violations produce warnings."
    );
}

#[test]
fn rule_summary_of_the_defaults() {
    let summary = rule_summary(&LintConfig::default());
    assert!(summary.contains("- [hard] Do not use contractions. Write the words in full."));
    assert!(summary.contains("- [hard] Use an approved single-word verb instead of a phrasal verb."));
    assert!(summary.contains("- [hard] Keep each sentence to 25 words or fewer."));
    assert!(summary.contains("- [hard] Do not use progressive verb forms."));
    assert!(summary.contains(
        "### Directive validation\n\n- [hard] Name registered rule IDs in suppression directives.\n\n"
    ));
}

#[test]
fn rule_summary_lists_the_active_rules() {
    let mut config = LintConfig::default();
    config.rules.insert("semicolon".to_string(), "soft".to_string());
    config.rules.insert("sentence-length".to_string(), "off".to_string());
    config.rules.insert("contraction".to_string(), "loud".to_string());
    let summary = rule_summary(&config);
    assert!(summary.contains("- [soft] Do not use semicolons in prose."));
    assert!(!summary.contains("Keep each sentence to"));
    assert!(!summary.contains("contractions"));
    config.rules.insert("sentence-length".to_string(), "soft".to_string());
    config.max_sentence_words = Some(20);
    assert!(rule_summary(&config).contains("- [soft] Keep each sentence to 20 words or fewer."));
}

#[test]
fn rule_summary_gives_the_paragraph_cap() {
    let mut config = LintConfig::default();
    assert!(rule_summary(&config).contains("Use no more than six sentences in one paragraph."));
    config.max_paragraph_sentences = Some(8);
    assert!(rule_summary(&config).contains("- [hard] Use no more than 8 sentences in one paragraph."));
    config.max_paragraph_sentences = Some(0);
    assert!(!rule_summary(&config).contains("in one paragraph"));
}

#[test]
fn turning_a_rule_off_removes_its_line_only() {
    let config = LintConfig::default();
    let all = rule_summary(&config);
    let lines: Vec<&str> = all.lines().collect();
    for (id, start) in [
        ("semicolon", "- [hard] Do not use semicolons"),
        ("hedging", "- [soft] Remove hedging"),
        ("sentence-length", "- [hard] Keep each"),
    ] {
        let mut off = LintConfig::default();
        off.rules.insert(id.to_string(), "off".to_string());
        let kept: Vec<&str> = lines.iter().copied().filter(|l| !l.starts_with(start)).collect();
        assert_eq!(kept.len() + 1, lines.len());
        assert_eq!(rule_summary(&off), kept.join("\n"));
    }
}

#[test]
fn rule_summary_without_rules() {
    let mut config = LintConfig::default();
    for id in simple_english::rules::REGISTERED_RULE_IDS.iter() {
        config.rules.insert(id.to_string(), "off".to_string());
    }
    assert_eq!(
        rule_summary(&config),
        "## Writing rules\n\n\
         No writing rules are enabled.\n\n\
         Writes, edits, and git commit messages reject hard violations. Correct the reported text and retry. Soft violations produce warnings."
    );
}

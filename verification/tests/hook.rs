use simple_english::feedback::rule_summary;
use simple_english::hook::{
    call_file, call_of, classify_lowered, classify_path, file_of, get_display_path, judge,
    judge_commits, judge_reply, model_before, other_fragments, payload_calls, payload_session,
    payload_window, put_fragment, read_call, run_idle, tool_before, window_named, Arguments, Field,
    Outcome, PendingCall, ToolCall, Window, FRAGMENT_ID,
};
use simple_english::lint;
use simple_english::reply::{reply_identity, ReplyState};
use simple_english::types::{LintConfig, LintKind};

#[test]
fn classify_md_is_prose() {
    assert_eq!(classify_path("README.md"), LintKind::ProseFile);
}

#[test]
fn classify_rs_is_slash() {
    assert_eq!(classify_path("src/main.rs"), LintKind::SlashSource);
}

#[test]
fn classify_py_is_hash() {
    assert_eq!(classify_path("run.py"), LintKind::HashSource);
}

#[test]
fn classify_json_is_prose_skipped() {
    assert_eq!(classify_path("config.json"), LintKind::ProseFile);
}

#[test]
fn classify_no_extension() {
    assert_eq!(classify_path("Makefile"), LintKind::ProseFile);
}

#[test]
fn display_path_prefers_file_path() {
    let file_path = Field::Text("docs/a.md".to_string());
    let path = Field::Text("legacy.md".to_string());
    assert_eq!(get_display_path("write", &file_path, &path), "docs/a.md");
}

#[test]
fn display_path_falls_back_to_path() {
    let path = Field::Text("docs/a.md".to_string());
    assert_eq!(get_display_path("edit", &Field::Absent, &path), "docs/a.md");
}

#[test]
fn classification_follows_the_extension() {
    for path in ["a.RS", "x/y.tsx", "b.c", "dir.md/file.go", "h", "C"] {
        assert_eq!(classify_path(path), LintKind::SlashSource, "{path}");
    }
    for path in ["sh", "a.SH", "b.yml", "Cargo.toml", "x.pl"] {
        assert_eq!(classify_path(path), LintKind::HashSource, "{path}");
    }
    for path in ["", "a.", "README", "x/sh", "x.html", "data.lock", "a.rs.md", "é.Ω"] {
        assert_eq!(classify_path(path), LintKind::ProseFile, "{path}");
    }
    assert_eq!(classify_lowered("A.RS"), LintKind::ProseFile);
}

#[test]
fn display_path_of_other_calls() {
    let text = Field::Text("a.md".to_string());
    assert_eq!(get_display_path("write", &Field::Other, &text), "file");
    assert_eq!(get_display_path("write", &Field::Absent, &Field::Absent), "file");
    assert_eq!(get_display_path("edit", &Field::Absent, &Field::Other), "file");
    assert_eq!(get_display_path("bash", &text, &text), "commit message");
    assert_eq!(get_display_path("read", &text, &text), "content");
}

fn write(id: &str, path: &str, content: &str, previous: Option<&str>) -> PendingCall {
    PendingCall {
        id: id.to_string(),
        call: ToolCall::Write {
            file_path: Field::Text(path.to_string()),
            path: Field::Absent,
            content: content.to_string(),
            previous: previous.map(String::from),
        },
    }
}

fn edit(id: &str, path: &str, old: &str, new: &str, previous: Option<&str>) -> PendingCall {
    PendingCall {
        id: id.to_string(),
        call: ToolCall::Edit {
            file_path: Field::Text(path.to_string()),
            path: Field::Absent,
            old_string: old.to_string(),
            new_string: new.to_string(),
            replace_all: false,
            previous: previous.map(String::from),
        },
    }
}

fn bash(id: &str, command: &str) -> PendingCall {
    PendingCall { id: id.to_string(), call: ToolCall::Bash { command: command.to_string() } }
}

#[test]
fn hard_violations_block_a_write() {
    let config = LintConfig::default();
    let calls = vec![write("w1", "a.md", "One; two robust.", None)];
    let decision = tool_before(&calls, &config);
    assert_eq!(decision.blocked, vec!["w1"]);
    assert_eq!(
        decision.reason,
        "Writing rules blocked (2 total, 1 hard)\n a.md:\n- line 1, column 4 [semicolon]: Do not use a semicolon in prose. Write two sentences."
    );
    assert!(decision.notes.is_empty());
}

#[test]
fn soft_violations_become_notes() {
    let config = LintConfig::default();
    let decision = tool_before(&vec![write("w1", "a.md", "A robust tool.", None)], &config);
    assert!(decision.blocked.is_empty());
    assert_eq!(decision.reason, "");
    assert_eq!(
        decision.notes,
        vec!["Writing-rule warnings for a.md:\n- line 1, column 3 [marketing]: Use an approved word instead of \"robust\".. Suggested fix: use \"delete\"."]
    );
}

#[test]
fn old_violations_do_not_block() {
    let config = LintConfig::default();
    let calls = vec![
        write("w1", "a.md", "One; two.\nMore.", Some("One; two.")),
        edit("e1", "a.md", "More.", "Even more.", Some("One; two.\nMore.")),
        PendingCall { id: "r1".to_string(), call: ToolCall::Other },
        bash("b1", "ls -la"),
    ];
    let decision = tool_before(&calls, &config);
    assert!(decision.blocked.is_empty());
    assert!(decision.notes.is_empty());
}

#[test]
fn edits_of_missing_files_are_linted_alone() {
    let config = LintConfig::default();
    let decision = tool_before(&vec![edit("e1", "a.md", "x", "One; two.", None)], &config);
    assert_eq!(decision.blocked, vec!["e1"]);
    assert_eq!(
        decision.reason,
        "Writing rules blocked\n a.md:\n- line 1, column 4 [semicolon]: Do not use a semicolon in prose. Write two sentences."
    );
}

#[test]
fn edits_that_cannot_be_applied_are_noted() {
    let config = LintConfig::default();
    let decision = tool_before(&vec![edit("e1", "a.md", "x", "y; z", Some("abc"))], &config);
    assert!(decision.blocked.is_empty());
    assert_eq!(
        decision.notes,
        vec!["[simple-english] edit lint skipped (a.md): old_string not found in file"]
    );
}

#[test]
fn commit_messages_are_checked() {
    let config = LintConfig::default();
    let calls = vec![
        bash("b1", "git commit -m 'Fix a; b'"),
        bash("b2", "git commit -m \"$MSG\""),
        bash("b3", "git commit -m 'Fix the bug'"),
        bash("b4", "git commit -m 'One; two' && git commit -m 'Three; four'"),
    ];
    let decision = tool_before(&calls, &config);
    assert_eq!(decision.blocked, vec!["b1", "b2", "b4"]);
    assert_eq!(
        decision.reason,
        "Writing rules blocked\n commit message:\n- line 1, column 6 [semicolon]: Do not use a semicolon in prose. Write two sentences.\n\n\
         Writing rules could not check the git commit message. Use git commit with a static -m or --message argument.\n\n\
         Writing rules blocked (2 total, 2 hard)\n commit message:\n- line 1, column 4 [semicolon]: Do not use a semicolon in prose. Write two sentences.\n- line 1, column 6 [semicolon]: Do not use a semicolon in prose. Write two sentences."
    );
}

#[test]
fn judging_a_report() {
    let config = LintConfig::default();
    let clean = lint(LintKind::ProseFile, "Fine.", &config);
    assert!(matches!(judge("x", &clean), Outcome::Pass));
    let soft = lint(LintKind::ProseFile, "Robust.", &config);
    assert!(matches!(judge("x", &soft), Outcome::Note(_)));
    let hard = lint(LintKind::ProseFile, "a;", &config);
    assert!(matches!(judge("x", &hard), Outcome::Block(_)));
    assert!(matches!(judge_commits(&Vec::new(), &config), Outcome::Pass));
}

#[test]
fn own_fragments_are_replaced() {
    let some = |s: &str| Some(s.to_string());
    let ids = vec![some("a"), some(FRAGMENT_ID), None, some("b"), some(FRAGMENT_ID)];
    let kept = other_fragments(&ids);
    assert_eq!(kept, vec![0, 2, 3]);
    let mut once: Vec<Option<String>> = kept.iter().map(|k| ids[*k].clone()).collect();
    once.push(some(FRAGMENT_ID));
    let mut twice: Vec<Option<String>> =
        other_fragments(&once).iter().map(|k| once[*k].clone()).collect();
    twice.push(some(FRAGMENT_ID));
    assert_eq!(once, twice);
}

#[test]
fn violating_reply_is_gated_once() {
    let config = LintConfig::default();
    let mut state = ReplyState::default();
    let reply = "One; two. It is robust.";
    let message = run_idle(reply, &mut state, &config);
    assert_eq!(
        message.as_deref(),
        Some(
            "Your last reply was blocked by the writing rules (1 hard violation(s), 1 soft). Revise only the flagged lines below. Do not post the reply again. Do not answer your own open questions as user replies.\n\nHard violations:\n reply:\n- line 1, column 4 [semicolon]: Do not use a semicolon in prose. Write two sentences.\n\nSoft violations (warnings):\n reply:\n- line 1, column 17 [marketing]: Use an approved word instead of \"robust\".. Suggested fix: use \"delete\"."
        )
    );
    assert_eq!((state.hard, state.soft, state.gate_count), (1, 1, 1));
    assert_eq!(state.last_identity, Some(reply_identity(reply)));
    assert!(state.has_gated(&reply_identity(reply)));
    assert_eq!(run_idle(reply, &mut state, &config), None);
    assert_eq!((state.hard, state.soft, state.gate_count), (1, 1, 1));
}

#[test]
fn gated_reply_is_remembered_by_a_full_state() {
    let config = LintConfig::default();
    let mut state = ReplyState::default();
    state.gated_replies = (0..20).map(|n| format!("id-{n}")).collect();
    let reply = "One; two.";
    assert!(run_idle(reply, &mut state, &config).is_some());
    assert_eq!(state.gated_replies.len(), 16);
    assert_eq!(state.gated_replies[15], reply_identity(reply));
    assert_eq!(run_idle(reply, &mut state, &config), None);
}

#[test]
fn gate_chain_stops_at_its_limit() {
    let config = LintConfig::default();
    let mut state = ReplyState::default();
    for n in 0..3 {
        assert!(run_idle(&format!("Bad; reply {n}."), &mut state, &config).is_some());
        assert_eq!(state.gate_count, n + 1);
    }
    assert_eq!(run_idle("Bad; reply again.", &mut state, &config), None);
    assert_eq!(state.gate_count, 3);
    assert_eq!(state.last_identity, Some(reply_identity("Bad; reply 2.")));
    assert_eq!(run_idle("Good reply.", &mut state, &config), None);
    assert_eq!((state.hard, state.soft, state.gate_count), (0, 0, 0));
    assert!(run_idle("Bad; reply again.", &mut state, &config).is_some());
}

#[test]
fn judging_a_reply_by_its_violations() {
    let config = LintConfig::default();
    let mut state = ReplyState::default();
    let report = lint(LintKind::ProseFile, "a;", &config);
    let message = judge_reply(&report.violations, "id", &mut state);
    assert!(message.unwrap().starts_with(
        "Your last reply was blocked by the writing rules (1 hard violation(s)). Revise"
    ));
    assert_eq!(judge_reply(&report.violations, "id", &mut state), None);
    assert_eq!(judge_reply(&Vec::new(), "other", &mut state), None);
    assert_eq!(state.gate_count, 0);
}

#[test]
fn windows_are_told_by_name() {
    assert_eq!(window_named("tool.before"), Window::ToolBefore);
    assert_eq!(window_named("model.before"), Window::ModelBefore);
    assert_eq!(window_named("run.idle"), Window::RunIdle);
    assert_eq!(window_named("run.idle "), Window::Other);
    assert_eq!(payload_window("{\"window\":\"tool.before\"}"), Window::ToolBefore);
    assert_eq!(payload_window("{\"x\":1, \"window\" : \"run\\u002eidle\"}"), Window::RunIdle);
    for payload in ["", "  ", "{}", "[]", "{\"window\":1}", "not json", "{\"window\":\"other\"}"] {
        assert_eq!(payload_window(payload), Window::Other, "{payload}");
    }
}

#[test]
fn payload_names_its_session() {
    assert_eq!(payload_session("{\"session\":\"/s/1\"}"), Some("/s/1".to_string()));
    assert_eq!(payload_session("{\"session\":7}"), None);
    assert_eq!(payload_session("{"), None);
}

#[test]
fn payload_holds_its_calls() {
    let calls = payload_calls("{\"calls\":[ {\"id\":\"a\"}, 3, \"x\" ]}");
    assert_eq!(calls, vec!["{\"id\":\"a\"}", "3", "\"x\""]);
    assert!(payload_calls("{\"calls\":{}}").is_empty());
    assert!(payload_calls("oops").is_empty());
}

fn arguments(path: Field) -> Arguments {
    Arguments {
        file_path: path,
        path: Field::Other,
        content: None,
        old_string: Some("o".to_string()),
        new_string: None,
        replace_all: None,
        command: Some("ls".to_string()),
    }
}

#[test]
fn calls_follow_the_tool_name() {
    let call = call_of("write", arguments(Field::Absent), Some("p".to_string()));
    assert!(matches!(
        call,
        ToolCall::Write { file_path: Field::Absent, path: Field::Other, ref content, ref previous }
            if content.is_empty() && previous.as_deref() == Some("p")
    ));
    let mut a = arguments(Field::Text("f".to_string()));
    a.replace_all = Some(true);
    let call = call_of("edit", a, None);
    assert!(matches!(
        call,
        ToolCall::Edit { ref old_string, ref new_string, replace_all: true, previous: None, .. }
            if old_string == "o" && new_string.is_empty()
    ));
    let call = call_of("bash", arguments(Field::Absent), None);
    assert!(matches!(call, ToolCall::Bash { ref command } if command == "ls"));
    assert!(matches!(call_of("read", arguments(Field::Absent), None), ToolCall::Other));
    assert_eq!(file_of("write", &arguments(Field::Text("f".to_string()))), Some("f".to_string()));
    assert_eq!(file_of("edit", &arguments(Field::Other)), Some(String::new()));
    assert_eq!(file_of("bash", &arguments(Field::Text("f".to_string()))), None);
}

#[test]
fn calls_are_read_from_json() {
    let text = "{\"id\":\"c1\",\"name\":\"edit\",\"arguments\":{\"file_path\":\"a.md\",\"old_string\":\"x\",\"new_string\":\"y\",\"replace_all\":true}}";
    assert_eq!(call_file(text), Some("a.md".to_string()));
    let call = read_call(text, Some("x x".to_string()));
    assert_eq!(call.id, "c1");
    match call.call {
        ToolCall::Edit { file_path, path, old_string, new_string, replace_all, previous } => {
            assert!(matches!(file_path, Field::Text(ref s) if s == "a.md"));
            assert!(matches!(path, Field::Absent));
            assert_eq!((old_string.as_str(), new_string.as_str()), ("x", "y"));
            assert!(replace_all);
            assert_eq!(previous.as_deref(), Some("x x"));
        }
        other => panic!("{other:?}"),
    }
    let call = read_call("{\"name\":\"write\",\"arguments\":{\"file_path\":3,\"content\":\"One; two.\"}}", None);
    assert_eq!(call.id, "");
    assert!(matches!(call.call, ToolCall::Write { file_path: Field::Other, .. }));
    let decision = tool_before(&vec![call], &LintConfig::default());
    assert_eq!(decision.blocked, vec![""]);
    for text in ["{}", "[1]", "{\"name\":\"read\",\"arguments\":{}}", "?"] {
        assert_eq!(call_file(text), None);
        assert!(matches!(read_call(text, None).call, ToolCall::Other));
    }
    assert_eq!(call_file("{\"name\":\"write\"}"), Some(String::new()));
    let call = read_call("{\"name\":\"bash\",\"arguments\":{\"command\":\"git commit -m 'a; b'\"}}", None);
    assert_eq!(tool_before(&vec![call], &LintConfig::default()).blocked.len(), 1);
}

#[test]
fn fragment_is_put_last_and_once() {
    let request = "{\"temperature\":0.1234567890123456789,\"model\":\"m\",\"prompt_fragments\":[[\"a\",\"1\"],[\"simple-english\",\"old\"],7,[\"b\",{\"k\":1e300}]]}";
    let once = put_fragment(request, "new \"text\"\n").unwrap();
    assert_eq!(
        once,
        "{\"model\":\"m\",\"prompt_fragments\":[[\"a\",\"1\"],7,[\"b\",{\"k\":1e+300}],[\"simple-english\",\"new \\\"text\\\"\\n\"]],\"temperature\":0.12345678901234568}"
    );
    assert_eq!(put_fragment(&once, "new \"text\"\n"), Some(once.clone()));
    assert_eq!(put_fragment("{}", "s").unwrap(), "{\"prompt_fragments\":[[\"simple-english\",\"s\"]]}");
    assert_eq!(put_fragment("[]", "s"), None);
    assert_eq!(put_fragment("?", "s"), None);
}

#[test]
fn model_request_gets_the_rule_summary() {
    let config = LintConfig::default();
    let alone = put_fragment("{}", &rule_summary(&config));
    for payload in ["", "{}", "{\"request\":null}", "{\"request\":{}}"] {
        assert_eq!(model_before(payload, &config), alone, "{payload}");
    }
    let out = model_before("{\"request\":{\"x\":[1]}}", &config).unwrap();
    assert_eq!(Some(out), put_fragment("{\"x\":[1]}", &rule_summary(&config)));
    assert_eq!(model_before("{\"request\":5}", &config), None);
}

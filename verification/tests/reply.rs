use simple_english::reply::{event_reply, last_assistant_message, reply_identity, ReplyState};

#[test]
fn identity_is_stable_and_distinct() {
    assert_eq!(reply_identity("abc"), reply_identity("abc"));
    assert_ne!(reply_identity("abc"), reply_identity("abd"));
    assert_eq!(reply_identity("test").len(), 16);
}

#[test]
fn state_dedup_and_cap() {
    let mut s = ReplyState::default();
    s.record_gated("a");
    s.record_gated("a"); // dup
    assert_eq!(s.gated_replies.len(), 1);
    for i in 0..20 {
        s.record_gated(&format!("id-{i}"));
    }
    assert_eq!(s.gated_replies.len(), 16);
    assert!(!s.gated_replies.contains(&"a".to_string()));
}

#[test]
fn identities_are_fnv_hashes() {
    assert_eq!(reply_identity(""), "cbf29ce484222325");
    assert_eq!(reply_identity("a"), "af63dc4c8601ec8c");
    assert_eq!(reply_identity("foobar"), "85944171f73967e8");
    assert_eq!(reply_identity("é").len(), 16);
    assert_ne!(reply_identity("é"), reply_identity("e"));
}

#[test]
fn read_last_assistant_message_scans_from_tail() {
    let log = r#"{"v":1,"type":"user_message","ts":"t","content":"hi"}
{"v":1,"type":"assistant_message","ts":"t","content":""}
{"v":1,"type":"assistant_message","ts":"t","content":"hello there"}
{"v":1,"type":"tool_call","ts":"t"}
"#;
    assert_eq!(last_assistant_message(log).as_deref(), Some("hello there"));
}

#[test]
fn read_last_assistant_message_none_when_no_content() {
    assert_eq!(last_assistant_message("{}\n"), None);
}

#[test]
fn malformed_events_are_skipped() {
    let log = "  {\"type\":\"assistant_message\",\"content\":\"a \\u00e9\"}  \nnot json\n\n[1]\n{\"type\":\"assistant_message\",\"content\":7}\n{\"type\":\"assistant_message\"}\n{\"type\":\"assistant_message\",\"content\":\" \\n\"}\n";
    assert_eq!(last_assistant_message(log).as_deref(), Some("a é"));
    assert_eq!(last_assistant_message(""), None);
}

#[test]
fn only_assistant_messages_are_replies() {
    let some = |s: &str| Some(s.to_string());
    assert_eq!(event_reply(some("assistant_message"), some("x")), some("x"));
    assert_eq!(event_reply(some("assistant_message"), some(" ")), None);
    assert_eq!(event_reply(some("user_message"), some("x")), None);
    assert_eq!(event_reply(some("assistant_message"), None), None);
    assert_eq!(event_reply(None, some("x")), None);
}

#[test]
fn recorded_replies_are_remembered() {
    let mut s = ReplyState::default();
    assert!(!s.has_gated("a"));
    for i in 0..40 {
        let id = format!("id-{}", i % 20);
        s.record_gated(&id);
        assert!(s.has_gated(&id));
        assert!(s.gated_replies.len() <= 16);
        let mut seen = s.gated_replies.clone();
        seen.sort();
        seen.dedup();
        assert_eq!(seen.len(), s.gated_replies.len());
    }
    assert_eq!(s.gated_replies.last().map(String::as_str), Some("id-19"));
}

#[test]
fn a_state_with_too_many_replies_is_cut() {
    let mut s = ReplyState::default();
    s.gated_replies = (0..20).map(|i| format!("id-{i}")).collect();
    s.record_gated("id-0");
    assert_eq!(s.gated_replies.len(), 16);
    assert_eq!(s.gated_replies[0], "id-4");
    assert!(!s.has_gated("id-0"));
}

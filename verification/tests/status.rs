use simple_english::status::{choose_root, render_state, sessions_root, state_location};

#[test]
fn row_hidden_without_session() {
    assert!(state_location(None, None, Some("/root")).is_none());
    assert!(state_location(Some(""), None, Some("/root")).is_none());
}

#[test]
fn row_shows_hard_counts_in_red() {
    let row = render_state(2, 1);
    assert_eq!(row.text, " Writing-rule reply: 2 hard, 1 soft ");
    assert_eq!(row.color.as_str(), "red");
    assert!(row.bold);
}

#[test]
fn row_shows_soft_only_in_yellow() {
    let row = render_state(0, 3);
    assert_eq!(row.text, " Writing-rule reply: 0 hard, 3 soft ");
    assert_eq!(row.color.as_str(), "yellow");
    assert!(row.bold);
}

#[test]
fn row_shows_clean_in_green() {
    let row = render_state(0, 0);
    assert_eq!(row.text, " Writing-rule reply: 0 hard, 0 soft ");
    assert_eq!(row.color.as_str(), "green");
    assert!(!row.bold);
}

fn parts(v: &[&str]) -> Option<Vec<String>> {
    Some(v.iter().map(|s| s.to_string()).collect())
}

#[test]
fn row_prefers_session_dir_over_sessions_root() {
    assert_eq!(
        state_location(Some("sess"), Some("/host/sess"), Some("/root")),
        parts(&["/host/sess", "simple-english-state.json"])
    );
}

#[test]
fn row_session_dir_without_session_name() {
    assert_eq!(
        state_location(None, Some("/host/sess"), None),
        parts(&["/host/sess", "simple-english-state.json"])
    );
}

#[test]
fn row_empty_session_dir_uses_sessions_root() {
    assert_eq!(
        state_location(Some("fb"), Some(""), Some("/root")),
        parts(&["/root", "fb", "simple-english-state.json"])
    );
}

#[test]
fn row_session_without_a_root() {
    assert_eq!(
        state_location(Some("fb"), None, None),
        parts(&["fb", "simple-english-state.json"])
    );
}

#[test]
fn sessions_root_is_read_from_the_configuration() {
    let text = "[paths]\nsessions_root = \"/var/s\"\nother = 1\n";
    assert_eq!(sessions_root(text).as_deref(), Some("/var/s"));
    assert_eq!(sessions_root("[paths]\nother = 1\n").as_deref(), Some("sessions"));
    assert_eq!(sessions_root("[paths]\nsessions_root = 3\n").as_deref(), Some("sessions"));
    assert_eq!(sessions_root("").as_deref(), Some("sessions"));
    assert_eq!(sessions_root("[paths"), None);
}

#[test]
fn root_follows_the_setting() {
    assert_eq!(choose_root(Some(Some("x".to_string()))).as_deref(), Some("x"));
    assert_eq!(choose_root(Some(None)).as_deref(), Some("sessions"));
    assert_eq!(choose_root(None), None);
}

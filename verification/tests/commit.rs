use simple_english::commit::find_commit_invocations;

#[test]
fn no_git_commit() {
    let msgs = find_commit_invocations("ls -la");
    assert!(msgs.is_empty());
}

#[test]
fn simple_commit() {
    let msgs = find_commit_invocations("git commit -m 'fix: bug'");
    assert_eq!(msgs.len(), 1);
    assert_eq!(msgs[0].message, "fix: bug");
    assert!(!msgs[0].requires_explicit_message);
}

#[test]
fn commit_with_amend() {
    let msgs = find_commit_invocations("git commit --amend -m 'new msg'");
    assert_eq!(msgs.len(), 1);
    assert_eq!(msgs[0].message, "new msg");
}

#[test]
fn dynamic_message() {
    let msgs = find_commit_invocations("git commit -m \"fix: $(echo hi)\"");
    assert_eq!(msgs.len(), 1);
    assert!(msgs[0].requires_explicit_message);
}

#[test]
fn long_message_flag() {
    let msgs = find_commit_invocations("git commit --message=update docs");
    assert_eq!(msgs.len(), 1);
    assert_eq!(msgs[0].message, "update");
}

#[test]
fn long_message_flag_quoted() {
    let msgs = find_commit_invocations("git commit --message=\"update docs\"");
    assert_eq!(msgs.len(), 1);
    assert_eq!(msgs[0].message, "update docs");
}

fn messages(command: &str) -> Vec<String> {
    find_commit_invocations(command).iter().map(|m| m.message.clone()).collect()
}

#[test]
fn several_commits_in_one_command() {
    assert_eq!(
        messages("git add . && git commit -m 'one' ; git commit -a --message \"two it's\""),
        vec!["one", "two it's"]
    );
}

#[test]
fn tokens_end_at_white_space() {
    let found = find_commit_invocations("cd x\ngit commit -m 'a; b'");
    assert_eq!(found.len(), 1);
    assert_eq!(found[0].message, "a; b");
    assert!(!found[0].requires_explicit_message);
    assert_eq!(messages("git commit -m one\r\ngit\u{3000}commit -m two"), vec!["one", "two"]);
}

#[test]
fn commit_after_a_commit_without_a_message() {
    assert_eq!(messages("git commit; git commit -m 'a; b'"), vec!["a; b"]);
    assert_eq!(messages("git commit -a && git commit -m x && git commit"), vec!["x"]);
}

#[test]
fn commits_without_a_message() {
    assert!(messages("git commit").is_empty());
    assert!(messages("git commit -m").is_empty());
    assert!(messages("git commit file -m x").is_empty());
    assert!(messages("git commit - -m x").is_empty());
    assert!(messages("GIT COMMIT -m x").is_empty());
}

#[test]
fn flags_before_the_message_are_skipped() {
    assert_eq!(messages("git commit --amend -s -m x"), vec!["x"]);
    assert_eq!(messages("git commit --message="), vec![""]);
}

#[test]
fn dynamic_messages_are_flagged() {
    for (command, dynamic) in [
        ("git commit -m 'plain'", false),
        ("git commit -m $MSG", true),
        ("git commit --message=`date`", true),
        ("git commit -m 'costs $5'", true),
    ] {
        let found = find_commit_invocations(command);
        assert_eq!(found.len(), 1);
        assert_eq!(found[0].requires_explicit_message, dynamic, "{command}");
    }
}

#[test]
fn invocations_are_told_by_their_tokens() {
    assert_eq!(messages("git  commit -m x"), vec!["x"]);
    assert_eq!(messages("git \"commit\" -m 'x y'"), vec!["x y"]);
    assert!(messages("echo 'git commit -m x'").is_empty());
    assert_eq!(messages("Git Commit; git commit -m É"), vec!["É"]);
}

use simple_english::prose::extract_prose_lines;
use simple_english::types::LintKind;

fn prose(text: &str) -> Vec<String> {
    extract_prose_lines(LintKind::ProseFile, text)
}

#[test]
fn prose_keeps_the_layout_of_its_source() {
    let text = "Title é.\n```sh\nrun; é\n```\nUse `a — b` now.\n    code\n<!-- x\ny -->\n| a | b |\n|---|---|\n| c | d |\nEnd.";
    for kind in [LintKind::ProseFile, LintKind::CommitMessage] {
        let rows = extract_prose_lines(kind, text);
        let source: Vec<&str> = text.lines().collect();
        assert_eq!(rows.len(), source.len());
        for (row, line) in rows.iter().zip(source.iter()) {
            assert_eq!(row.len(), line.len());
        }
        assert_eq!(rows[0], "Title é.");
        assert_eq!(rows[4], "Use           now.");
        for k in [1, 2, 3, 5, 6, 7, 8, 9, 10] {
            assert!(rows[k].trim().is_empty(), "line {k}: {:?}", rows[k]);
        }
        assert_eq!(rows[11], "End.");
    }
}

#[test]
fn code_spans_are_blanked_by_bytes() {
    assert_eq!(prose("`é`x"), vec!["    x"]);
    assert_eq!(prose("a ``b ` c`` d"), vec!["a           d"]);
}

#[test]
fn spans_that_do_not_close_stay() {
    assert_eq!(prose("a `b"), vec!["a `b"]);
    assert_eq!(prose("a ``b` c"), vec!["a ``b` c"]);
    assert_eq!(prose("\\`a`b`"), vec!["\\`a   "]);
    assert_eq!(prose("`a\\`b`"), vec!["      "]);
}

#[test]
fn run_without_a_partner_stays() {
    assert_eq!(prose("``a; b`"), vec!["``a; b`"]);
    assert_eq!(prose("```a `b`"), vec!["```a    "]);
    assert_eq!(prose("\\``a`"), vec!["\\`   "]);
}

#[test]
fn backtick_in_the_info_string_opens_no_fence() {
    assert_eq!(prose("```a;b``` ok."), vec!["          ok."]);
    assert_eq!(prose("```a`\nb"), vec!["```a`", "b"]);
    assert_eq!(prose("<!-- a\n```b```\nc -->\nd"), vec!["      ", "       ", "     ", "d"]);
    assert_eq!(prose("```\n```a`\n```\nb"), vec!["   ", "     ", "   ", "b"]);
}

#[test]
fn char_literals_open_no_string() {
    let slash = |s: &str| extract_prose_lines(LintKind::SlashSource, s);
    assert_eq!(slash("let c = '\"'; // note"), vec!["note"]);
    assert_eq!(slash("let c = '\\\''; // it's"), vec!["it's"]);
    assert_eq!(slash("let c = '\\u{22}' + \"//\"; // note"), vec!["note"]);
    assert_eq!(slash("fn f(x: &'a str) // don't"), vec!["don't"]);
    assert_eq!(slash("let s = \"'\"; // note"), vec!["note"]);
}

#[test]
fn fences_close_on_their_own_kind() {
    assert_eq!(prose("~~~\n```\nx\n~~~\ny"), vec!["   ", "   ", " ", "   ", "y"]);
    assert_eq!(prose("```\nx\n``` y\nz"), vec!["   ", " ", "     ", " "]);
    assert_eq!(prose("``\nx"), vec!["``", "x"]);
}

#[test]
fn fence_inside_a_comment_opens() {
    assert_eq!(prose("<!-- a\n```\nb -->\n```\nc -->\nd"), vec![
        "      ", "   ", "     ", "   ", "     ", "d"
    ]);
}

#[test]
fn indentation_counts_bytes_of_white_space() {
    assert_eq!(prose("   a"), vec!["   a"]);
    assert_eq!(prose("    a"), vec!["     "]);
    assert_eq!(prose("\u{3000}\u{a0}a"), vec!["      "]);
    assert_eq!(prose("\t\t\ta"), vec!["\t\t\ta"]);
    assert_eq!(prose("\t\t\t\ta"), vec!["     "]);
    assert_eq!(prose("\t\t\t\t```\nx"), vec!["       ", "x"]);
    assert_eq!(prose("\u{3000}\u{3000}| a |\n|---|"), vec!["           ", "|---|"]);
    assert_eq!(prose("\t```\nx\n\t```"), vec!["    ", " ", "    "]);
}

#[test]
fn table_needs_a_header_and_a_delimiter() {
    assert_eq!(prose("|---|\n| a |"), vec!["|---|", "| a |"]);
    assert_eq!(prose("a | b\n--- | ---\nc\nd | e"), vec!["     ", "         ", "c", "d | e"]);
}

#[test]
fn slash_comments_are_extracted() {
    let text = "let a = 1; // one\n/* two */\n/* three\n   four\n   five */ x\n//\nlet u = \"http://x\";\n/* six // seven */";
    assert_eq!(
        extract_prose_lines(LintKind::SlashSource, text),
        vec!["one", "two", "three", "four", "five */", "seven */", "six // seven"]
    );
}

#[test]
fn block_comment_keeps_empty_lines() {
    assert_eq!(
        extract_prose_lines(LintKind::SlashSource, "/* a\n\n b \n*/"),
        vec!["a", "", "b ", "*/"]
    );
    assert!(extract_prose_lines(LintKind::SlashSource, "/*/").is_empty());
}

#[test]
fn hash_comments_are_extracted() {
    let text = "#!/bin/sh\n# one\nx = 1 # two\n  #three  \n#\n";
    assert_eq!(extract_prose_lines(LintKind::HashSource, text), vec!["one", "three"]);
}

#[test]
fn empty_text_has_no_prose() {
    for kind in [
        LintKind::ProseFile,
        LintKind::CommitMessage,
        LintKind::SlashSource,
        LintKind::HashSource,
    ] {
        assert!(extract_prose_lines(kind, "").is_empty());
    }
}

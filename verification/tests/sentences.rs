use simple_english::sentences::{segment_paragraphs, segment_sentences, sentence_ends};

#[test]
fn two_simple_sentences() {
    let sents = segment_sentences("Hello world. How are you?", true);
    assert_eq!(sents.len(), 2);
    assert_eq!(sents[0].text, "Hello world.");
    assert_eq!(sents[1].text, "How are you?");
}

#[test]
fn word_count() {
    let sents = segment_sentences("One two three.", true);
    assert_eq!(sents[0].word_count, 3);
}

#[test]
fn multi_line_sentence() {
    let sents = segment_sentences(
        "This is a long sentence that\nspans multiple lines.",
        true,
    );
    assert_eq!(sents.len(), 1);
    assert_eq!(
        sents[0].text,
        "This is a long sentence that spans multiple lines."
    );
}

#[test]
fn paragraphs_split_by_blank_line() {
    let text = "First para one.\nSecond sentence.\n\nNew para.";
    let sents = segment_sentences(text, true);
    let paras = segment_paragraphs(text, &sents);
    assert_eq!(paras.len(), 2);
    assert_eq!(paras[0].sentences.len(), 2);
    assert_eq!(paras[1].sentences.len(), 1);
}

#[test]
fn paragraphs_crlf() {
    let text = "Line one.\r\nLine two.\r\n\r\nLine three.";
    let sents = segment_sentences(text, true);
    let paras = segment_paragraphs(text, &sents);
    assert_eq!(paras.len(), 2);
    assert_eq!(paras[0].line, 1);
    assert_eq!(paras[1].line, 4);
}

#[test]
fn paragraphs_whitespace_only_line_breaks() {
    let text = "Para one.\n   \nPara two.";
    let sents = segment_sentences(text, true);
    let paras = segment_paragraphs(text, &sents);
    assert_eq!(paras.len(), 2);
}

#[test]
fn paragraphs_multiple_sentences_line_numbers() {
    let text = "S one.\nS two.\n\nS three.\nS four.\nS five.";
    let sents = segment_sentences(text, true);
    let paras = segment_paragraphs(text, &sents);
    assert_eq!(paras.len(), 2);
    assert_eq!(paras[0].line, 1);
    assert_eq!(paras[0].sentences.len(), 2);
    assert_eq!(paras[1].line, 4);
    assert_eq!(paras[1].sentences.len(), 3);
}

#[test]
fn empty_text() {
    let sents = segment_sentences("", true);
    assert!(sents.is_empty());
}

#[test]
fn multibyte_chars_before_terminator() {
    let line = "- **`table_grid`** (rewritten) \u{2014} wide cells wrap, truncated with `\u{2026}`. A data row spans.";
    let sents = segment_sentences(line, true);
    assert_eq!(sents.len(), 2);
    assert_eq!(
        sents[0].text,
        "**`table_grid`** (rewritten) \u{2014} wide cells wrap, truncated with `\u{2026}`."
    );
    assert_eq!(sents[1].text, "A data row spans.");
}

#[test]
fn blockquote_prefix_is_stripped_from_sentence_text() {
    let text = "> quoted first line\n> second quoted line.\n";
    let sents = segment_sentences(text, true);
    assert_eq!(sents.len(), 1);
    assert_eq!(sents[0].text, "quoted first line second quoted line.");
}

#[test]
fn cjk_sentence() {
    let sents = segment_sentences("你好世界。这是测试！", true);
    assert_eq!(sents.len(), 2);
    assert_eq!(sents[0].text, "你好世界。");
    assert_eq!(sents[1].text, "这是测试！");
}

#[test]
fn consecutive_bullets_do_not_merge_into_one_sentence() {
    let text = "- First item with no period\n- Second item with no period\n- Third item with no period\n";
    let sents = segment_sentences(text, true);
    assert_eq!(sents.len(), 3);
    for s in &sents {
        assert!(s.word_count <= 6, "sentence grew too large: {} ({})", s.text, s.word_count);
    }
}

#[test]
fn numbered_list_items_are_separate_paragraphs() {
    let text = "1. First item passes.\n2. Second item passes.\n3. Third item passes.\n4. Fourth item passes.\n5. Fifth item passes.\n6. Sixth item passes.\n7. Seventh item passes.\n";
    let sents = segment_sentences(text, true);
    let paras = segment_paragraphs(text, &sents);
    assert!(paras.len() >= 7, "each list item should be its own paragraph, got {}", paras.len());
    assert!(paras
        .iter()
        .all(|p| p.sentences.len() <= 6), "no list paragraph exceeds the limit");
}

#[test]
fn list_items_are_separate_paragraphs() {
    let text = "- One.\n- Two.\n- Three.\n- Four.\n- Five.\n- Six.\n- Seven.\n";
    let sents = segment_sentences(text, true);
    let paras = segment_paragraphs(text, &sents);
    assert_eq!(paras.len(), 7);
    assert!(paras
        .iter()
        .all(|p| p.sentences.len() <= 6), "no list paragraph exceeds the limit");
}

#[test]
fn heading_is_its_own_block_boundary() {
    let text = "Intro text.\n## Section heading with many trailing words here\nBody line after the heading follows here.\n";
    let sents = segment_sentences(text, true);
    assert_eq!(sents[0].text, "Intro text.");
    assert_eq!(sents.len(), 3);
    let heading = sents
        .iter()
        .find(|s| s.text.starts_with("Section heading"))
        .expect("heading sentence missing");
    assert!(!heading.text.contains("Body line"));
    assert_eq!(sents[2].text, "Body line after the heading follows here.");
}

#[test]
fn dotted_identifiers_do_not_split() {
    let sents = segment_sentences("Use run.idle and e2e.sh now.", true);
    assert_eq!(sents.len(), 1, "{sents:?}");
    assert_eq!(sents[0].text, "Use run.idle and e2e.sh now.");
}

#[test]
fn numeric_literals_do_not_split() {
    let sents = segment_sentences("Bind 127.0.0.1 and v1.2 now.", true);
    assert_eq!(sents.len(), 1, "{sents:?}");
    assert_eq!(sents[0].text, "Bind 127.0.0.1 and v1.2 now.");
}

#[test]
fn shebang_line_does_not_split() {
    assert!(sentence_ends("#!/bin/sh").is_empty());
    let sents = segment_sentences("#!/bin/sh", true);
    assert_eq!(sents.len(), 1, "{sents:?}");
    assert_eq!(sents[0].text, "#!/bin/sh");
}

#[test]
fn source_mode_keeps_comment_lines_separate() {
    let text = "alpha beta\ngamma delta\ndelta zeta.";
    let sents = segment_sentences(text, false);
    assert_eq!(sents.len(), 3, "{sents:?}");
    assert_eq!(sents[0].text, "alpha beta");
    let merged = segment_sentences(text, true);
    assert_eq!(merged.len(), 1, "{merged:?}");
}

fn texts(text: &str, merge_lines: bool) -> Vec<String> {
    segment_sentences(text, merge_lines).iter().map(|s| s.text.clone()).collect()
}

#[test]
fn abbreviations_do_not_split() {
    assert_eq!(
        texts("Use a tool, e.g. a hammer. See Fig. 2 vs. No. 3 etc. for more. Done.", true),
        vec!["Use a tool, e.g. a hammer.", "See Fig. 2 vs. No. 3 etc. for more.", "Done."]
    );
}

#[test]
fn abbreviations_are_whole_words() {
    assert_eq!(sentence_ends("Slavs. Go."), vec![(5, 6), (9, 10)]);
    assert_eq!(texts("See (vs. that) and (etc.) now. Go.", true), vec![
        "See (vs. that) and (etc.) now.", "Go."
    ]);
    assert_eq!(texts("vs. all. xetc. y", true), vec!["vs. all.", "xetc.", "y"]);
}

#[test]
fn marks_and_closing_delimiters_stay_together() {
    assert_eq!(texts("He said \"stop.\" Go?! Yes... (Nope.) End", true), vec![
        "He said \"stop.\"", "Go?!", "Yes...", "(Nope.)", "End"
    ]);
}

#[test]
fn sentence_ends_are_byte_ranges() {
    assert_eq!(sentence_ends("你好。b!"), vec![(6, 9), (10, 11)]);
    assert_eq!(sentence_ends("a.b 1. c.)"), vec![(8, 10)]);
    assert_eq!(sentence_ends("#! x!"), vec![(4, 5)]);
}

#[test]
fn sentences_carry_the_place_of_their_first_character() {
    let sents = segment_sentences("  One. Two\nthree\n - é four. Five.", true);
    let places: Vec<(usize, usize, usize)> =
        sents.iter().map(|s| (s.line, s.column, s.word_count)).collect();
    assert_eq!(places, vec![(1, 3, 1), (1, 8, 2), (3, 4, 2), (3, 13, 1)]);
    assert_eq!(sents[1].text, "Two three");
    assert_eq!(sents[2].text, "é four.");
}

#[test]
fn thematic_breaks_and_underlines_separate() {
    assert_eq!(texts("a\n---\nb\n===\nc\n* * *\nd", true), vec!["a", "b", "c", "d"]);
    assert_eq!(texts("a\n--\nb", true), vec!["a -- b"]);
    assert_eq!(texts("a\n-_-\nb", true), vec!["a -_- b"]);
}

#[test]
fn block_markers_are_stripped() {
    assert_eq!(texts("## Head\n1) one\n12. two\n+ three\n> quote", true), vec![
        "Head", "one", "two", "three quote"
    ]);
    assert_eq!(texts("####### seven\n#tag\n-x\n1234567890. ten", true), vec![
        "####### seven #tag -x 1234567890. ten"
    ]);
    assert_eq!(texts("a\n    - b", true), vec!["a - b"]);
    assert!(texts("#\n-\t\n1.", true).is_empty());
}

#[test]
fn a_line_of_digits_is_plain_text() {
    assert_eq!(texts("42", true), vec!["42"]);
    assert_eq!(texts("Answer:\n42", true), vec!["Answer: 42"]);
}

#[test]
fn unmerged_sentences_keep_to_one_line() {
    assert_eq!(texts("alpha. beta\ngamma", false), vec!["alpha.", "beta", "gamma"]);
}

#[test]
fn every_sentence_belongs_to_a_paragraph() {
    let text = "One. Two.\nThree\n\n- Four\n  five.\n# Six\nSeven";
    let sents = segment_sentences(text, true);
    let paras = segment_paragraphs(text, &sents);
    let grouped: usize = paras.iter().map(|p| p.sentences.len()).sum();
    assert_eq!(grouped, sents.len());
    let places: Vec<(usize, usize, usize)> =
        paras.iter().map(|p| (p.line, p.column, p.sentences.len())).collect();
    assert_eq!(places, vec![(1, 1, 3), (4, 1, 1), (6, 1, 2)]);
}

#[test]
fn sentences_outside_the_text_have_no_paragraph() {
    let sents = segment_sentences("One.\n\n\nTwo.", true);
    assert_eq!(sents[1].line, 4);
    let paras = segment_paragraphs("One.", &sents);
    assert_eq!(paras.len(), 1);
    assert_eq!(paras[0].sentences.len(), 1);
}

#[test]
fn unmerged_texts_concatenate() {
    let parts = ["One. Two\nthree", "", "- four. Five", "# six", "e.g. seven", "no end"];
    for a in parts {
        for b in parts {
            let mut expected = texts(a, false);
            expected.extend(texts(b, false));
            assert_eq!(texts(&format!("{a}\n{b}"), false), expected, "{a:?} {b:?}");
        }
    }
}

#[test]
fn paragraphs_partition_the_sentences() {
    let text = "\n\nOne. Two\nthree.\n\n> Quote. More\n- Four\n  five.\n# Six\nSeven\n---\nEight";
    for merge_lines in [true, false] {
        let sents = segment_sentences(text, merge_lines);
        let paras = segment_paragraphs(text, &sents);
        let gathered: Vec<(String, usize, usize)> = paras
            .iter()
            .flat_map(|p| p.sentences.iter())
            .map(|s| (s.text.clone(), s.line, s.column))
            .collect();
        let given: Vec<(String, usize, usize)> =
            sents.iter().map(|s| (s.text.clone(), s.line, s.column)).collect();
        assert_eq!(gathered, given);
        let mut last = 0;
        for p in &paras {
            assert!(p.line > last && p.column == 1 && !p.sentences.is_empty());
            assert!(p.sentences.iter().all(|s| p.line <= s.line));
            last = p.line;
        }
    }
}

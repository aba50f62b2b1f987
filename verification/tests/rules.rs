use simple_english::rules::{
    check_contractions, check_hedging, check_marketing, check_phrasal_verbs, check_semicolons,
    check_ste_dictionary, check_suppression, contraction_violations, names_of, phrase_columns,
    REGISTERED_RULE_IDS,
};
use simple_english::types::Severity;

fn lines(text: &str) -> Vec<String> {
    text.split('\n').map(String::from).collect()
}

#[test]
fn detects_contractions() {
    let v = check_contractions(&lines("Don't do it; won't stop."), Severity::Hard);
    assert!(!v.is_empty());
    assert!(v.iter().all(|x| x.rule_id == "contraction"));
}

#[test]
fn detects_semicolon() {
    let v = check_semicolons(&lines("one; two"), Severity::Hard);
    assert_eq!(v.len(), 1);
    assert_eq!(v[0].rule_id, "semicolon");
}

#[test]
fn no_false_positive_semicolon_in_code() {
    let v = check_semicolons(&lines("let x = 1;"), Severity::Hard);
    assert!(!v.is_empty());
}

#[test]
fn detects_phrasal_verb() {
    let v = check_phrasal_verbs(&lines("We will carry out the plan."), Severity::Hard);
    assert!(!v.is_empty());
    assert!(v[0].rule_id == "phrasal-verb");
}

#[test]
fn detects_marketing() {
    let v = check_marketing(
        &lines("This is a seamless and powerful solution."),
        Severity::Soft,
    );
    assert!(v.len() >= 2);
}

#[test]
fn detects_hedging() {
    let v = check_hedging(
        &lines("It is important to note that this is a test."),
        Severity::Soft,
    );
    assert!(!v.is_empty());
}

#[test]
fn detects_ste_word() {
    let v = check_ste_dictionary(&lines("We need to utilize this tool."), Severity::Hard);
    assert!(!v.is_empty());
    assert!(v[0].rule_id == "dictionary-not-approved-word");
}

#[test]
fn suppression_unknown_rule() {
    let v = check_suppression(
        &lines("// ste-disable-next-line bogus-rule"),
        REGISTERED_RULE_IDS,
        Severity::Hard,
    );
    assert!(!v.is_empty());
    assert_eq!(v[0].rule_id, "invalid-suppression");
}

#[test]
fn suppression_valid_rule() {
    let v = check_suppression(
        &lines("// ste-disable-next-line semicolon"),
        REGISTERED_RULE_IDS,
        Severity::Hard,
    );
    assert!(v.is_empty());
}

#[test]
fn contractions_are_quoted_with_their_column() {
    let v = check_contractions(&lines("Well\nI don't and It\u{2019}s é we'll."), Severity::Soft);
    let found: Vec<(usize, usize, &str)> =
        v.iter().map(|x| (x.line, x.column, x.message.as_str())).collect();
    assert_eq!(
        found,
        vec![
            (2, 3, "Do not use a contraction. Write the words in full. Found \"don't\"."),
            (2, 23, "Do not use a contraction. Write the words in full. Found \"we'll\"."),
            (2, 13, "Do not use a contraction. Write the words in full. Found \"It\u{2019}s\"."),
        ]
    );
    assert!(v.iter().all(|x| x.severity == Severity::Soft && x.suggestions.is_none()));
}

#[test]
fn possessives_are_no_contractions() {
    assert!(check_contractions(&lines("The dog's tail. 'Quoted' text."), Severity::Hard).is_empty());
}

#[test]
fn contraction_violations_follow_the_matches() {
    let found = vec![(4, "can't".to_string()), (0, "it's".to_string())];
    let v = contraction_violations(&found, 7, Severity::Hard);
    assert_eq!(v.len(), 2);
    assert_eq!((v[0].line, v[0].column), (7, 5));
    assert_eq!((v[1].line, v[1].column), (7, 1));
    assert_eq!(
        v[1].message,
        "Do not use a contraction. Write the words in full. Found \"it's\"."
    );
}

#[test]
fn every_semicolon_counts() {
    let v = check_semicolons(&lines("é;;\nx\n;"), Severity::Hard);
    let found: Vec<(usize, usize)> = v.iter().map(|x| (x.line, x.column)).collect();
    assert_eq!(found, vec![(1, 3), (1, 4), (3, 1)]);
    assert_eq!(v[0].message, "Do not use a semicolon in prose. Write two sentences.");
}

#[test]
fn phrases_need_word_boundaries() {
    let v = check_marketing(&lines("Robust. robustness xrobust robust2 _ROBUST_"), Severity::Soft);
    let columns: Vec<usize> = v.iter().map(|x| x.column).collect();
    assert_eq!(columns, vec![1, 37]);
    assert_eq!(v[0].message, "Use an approved word instead of \"robust\".");
    assert_eq!(v[0].suggestions, Some(vec!["delete".to_string()]));
}

#[test]
fn phrases_next_to_wide_characters() {
    let v = check_marketing(&lines("\u{2014}robust\u{2014} \u{e9}robust robust\u{e9}"), Severity::Soft);
    let columns: Vec<usize> = v.iter().map(|x| x.column).collect();
    assert_eq!(columns, vec![4]);
}

#[test]
fn phrases_come_in_dictionary_order() {
    let v = check_ste_dictionary(&lines("Prior to that, utilize it.\nInitiate."), Severity::Hard);
    let found: Vec<(usize, usize, String)> = v
        .iter()
        .map(|x| (x.line, x.column, x.suggestions.as_ref().unwrap()[0].clone()))
        .collect();
    assert_eq!(
        found,
        vec![
            (2, 1, "start".to_string()),
            (1, 16, "use".to_string()),
            (1, 1, "before".to_string()),
            (1, 1, "before".to_string()),
        ]
    );
}

fn columns(line: &str, phrase: &str) -> Vec<usize> {
    let lowered: Vec<String> = line.chars().map(|c| c.to_lowercase().collect()).collect();
    phrase_columns(line, &lowered, phrase)
}

#[test]
fn phrase_columns_count_the_written_line() {
    assert_eq!(columns("AbAb ab", "ab"), vec![6]);
    assert_eq!(columns("a a", "a"), vec![1, 3]);
    assert_eq!(columns("É spin up", "spin up"), vec![4]);
    assert_eq!(columns("İ spin up", "spin up"), vec![4]);
    assert_eq!(columns("x İ", "i\u{307}"), vec![3]);
    assert!(columns("İ", "i").is_empty());
    assert_eq!(phrase_columns("ab", &vec!["x".to_string(), "yz".to_string()], "xyz"), vec![1]);
}

#[test]
fn phrases_are_found_after_wide_letters() {
    let v = check_phrasal_verbs(&lines("\u{130} spin up, \u{212a}ic\u{212a} off"), Severity::Hard);
    let found: Vec<(usize, String)> =
        v.iter().map(|x| (x.column, x.suggestions.as_ref().unwrap()[0].clone())).collect();
    assert_eq!(found, vec![(4, "start".to_string()), (13, "start".to_string())]);
}

#[test]
fn suppression_without_a_name() {
    let v = check_suppression(&lines("é ste-disable-next-line ,:"), REGISTERED_RULE_IDS, Severity::Hard);
    assert_eq!(v.len(), 1);
    assert_eq!(v[0].message, "Suppression directive must name at least one rule id.");
    assert_eq!((v[0].line, v[0].column), (1, 4));
}

#[test]
fn suppression_lists_all_unknown_names() {
    let v = check_suppression(
        &lines("x\nste-disable-next-line: bogus, semicolon other"),
        REGISTERED_RULE_IDS,
        Severity::Soft,
    );
    assert_eq!(v.len(), 1);
    assert_eq!(
        v[0].message,
        "Suppression directive names unknown rule ids: \"bogus\", \"other\"."
    );
    assert_eq!((v[0].line, v[0].column), (2, 1));
}

#[test]
fn suppression_reads_to_the_end_of_the_line() {
    let line = "ste-disable-next-line semicolon ste-disable-next-line bogus";
    let v = check_suppression(&lines(line), REGISTERED_RULE_IDS, Severity::Hard);
    assert_eq!(v.len(), 1);
    assert_eq!(v[0].message, "Suppression directive names unknown rule ids: \"bogus\".");
    let line = "ste-disable-next-line semicolon ste-disable-next-line hedging";
    assert!(check_suppression(&lines(line), REGISTERED_RULE_IDS, Severity::Hard).is_empty());
    let line = "ste-disable-next-line ste-disable-next-line";
    let v = check_suppression(&lines(line), REGISTERED_RULE_IDS, Severity::Hard);
    assert_eq!(v[0].message, "Suppression directive must name at least one rule id.");
}

#[test]
fn names_are_split_at_separators() {
    let chars: Vec<char> = ", a:b\u{3000}c,,".chars().collect();
    assert_eq!(names_of(&chars), vec!["a", "b", "c"]);
}

#[test]
fn hedging_and_phrasal_verbs_suggest_words() {
    let v = check_phrasal_verbs(&lines("They SPUN UP a host."), Severity::Hard);
    assert_eq!(v.len(), 1);
    assert_eq!(v[0].suggestions, Some(vec!["start".to_string()]));
    assert_eq!(v[0].message, "Use an approved word instead of \"spun up\".");
    let v = check_hedging(&lines("As mentioned, go."), Severity::Soft);
    assert_eq!(v[0].suggestions, Some(vec!["delete".to_string()]));
}

#[test]
fn dictionary_reports_its_words_and_no_suggestion() {
    for entry in simple_english::dictionaries::ste_dictionary() {
        for phrase in &entry.unapproved {
            for line in [phrase.clone(), phrase.to_uppercase()] {
                let v = check_ste_dictionary(&[line.clone()], Severity::Soft);
                assert!(
                    v.iter().any(|x| x.rule_id == "dictionary-not-approved-word"
                        && x.severity == Severity::Soft
                        && (x.line, x.column) == (1, 1)
                        && x.suggestions == Some(vec![entry.suggestions[0].clone()])),
                    "{line}"
                );
            }
        }
        for word in &entry.suggestions {
            assert!(check_ste_dictionary(&[word.clone()], Severity::Hard).is_empty(), "{word}");
        }
    }
}

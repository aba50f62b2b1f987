use simple_english::dictionaries::{hedging, marketing, phrasal_verbs, ste_dictionary, PhraseEntry};
use simple_english::types::LintConfig;

fn phrases(entries: &[PhraseEntry]) -> usize {
    entries.iter().map(|e| e.unapproved.len()).sum()
}

#[test]
fn dictionaries_have_their_entries() {
    assert_eq!((phrasal_verbs().len(), phrases(&phrasal_verbs())), (11, 46));
    assert_eq!((hedging().len(), phrases(&hedging())), (1, 6));
    assert_eq!((marketing().len(), phrases(&marketing())), (1, 24));
    assert_eq!((ste_dictionary().len(), phrases(&ste_dictionary())), (43, 117));
}

#[test]
fn entries_suggest_replacements() {
    let verbs = phrasal_verbs();
    assert_eq!(verbs[3].unapproved, vec!["tear down", "tears down", "tore down", "torn down", "tearing down"]);
    assert_eq!(verbs[3].suggestions, vec!["remove"]);
    let words = ste_dictionary();
    assert_eq!(words[42].unapproved, vec!["provenance"]);
    assert_eq!(words[42].clone().suggestions, vec!["origin"]);
}

#[test]
fn rule_settings_are_kept_by_key() {
    let mut config = LintConfig::default();
    config.rules.insert("a".to_string(), "hard".to_string());
    config.rules.insert("b".to_string(), "soft".to_string());
    config.rules.insert("a".to_string(), "off".to_string());
    assert_eq!(config.rules.get("a"), Some("off"));
    assert_eq!(config.rules.get("b"), Some("soft"));
    assert_eq!(config.rules.get("c"), None);
    let copy = config.clone();
    assert_eq!(copy.rules.get("a"), Some("off"));
    assert!(!copy.rules.is_empty());
}

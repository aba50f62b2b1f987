use simple_english::types::LintConfig;

#[test]
fn default_config_when_no_file() {
    let config = LintConfig::default();
    assert!(config.rules.is_empty());
    assert!(config.max_sentence_words.is_none());
}

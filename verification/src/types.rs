//! Core types.

use vstd::prelude::*;

use crate::lines;
use crate::text;

verus! {

/// Severity of a rule violation.
#[derive(Debug, Clone, Copy, PartialEq, Eq, Structural)]
pub enum Severity {
    Hard,
    Soft,
}

impl Severity {
    /// The name of a severity.
    pub open spec fn name(self) -> Seq<char> {
        match self {
            Severity::Hard => "hard"@,
            Severity::Soft => "soft"@,
        }
    }

    /// The name of a severity.
    pub fn as_str(&self) -> (r: &'static str)
        ensures
            r@ == self.name(),
    {
        match self {
            Severity::Hard => "hard",
            Severity::Soft => "soft",
        }
    }
}

/// A single rule violation.
#[derive(Debug)]
pub struct Violation {
    pub rule_id: &'static str,
    pub severity: Severity,
    pub message: String,
    pub suggestions: Option<Vec<String>>,
    /// 1-based prose line.
    pub line: usize,
    /// 1-based byte column.
    pub column: usize,
}

/// What a violation says.
pub struct ViolationModel {
    pub rule_id: Seq<char>,
    pub severity: Severity,
    pub message: Seq<char>,
    pub suggestions: Option<Seq<Seq<char>>>,
    pub line: int,
    pub column: int,
}

impl View for Violation {
    type V = ViolationModel;

    open spec fn view(&self) -> ViolationModel {
        ViolationModel {
            rule_id: self.rule_id@,
            severity: self.severity,
            message: self.message@,
            suggestions: match self.suggestions {
                Some(s) => Some(lines::texts(s@)),
                None => None,
            },
            line: self.line as int,
            column: self.column as int,
        }
    }
}

/// What a sequence of violations says.
pub open spec fn models(v: Seq<Violation>) -> Seq<ViolationModel> {
    Seq::new(v.len(), |i: int| v[i]@)
}

/// Copies a list of strings.
pub fn copy_strings(v: &Vec<String>) -> (r: Vec<String>)
    ensures
        lines::texts(r@) == lines::texts(v@),
{
    let mut r: Vec<String> = Vec::new();
    let mut i: usize = 0;
    while i < v.len()
        invariant
            i <= v@.len(),
            r@.len() == i,
            forall|k: int| 0 <= k < i ==> r@[k]@ == v@[k]@,
        decreases v@.len() - i,
    {
        r.push(v[i].clone());
        i += 1;
    }
    assert(lines::texts(r@) =~= lines::texts(v@));
    r
}

impl Clone for Violation {
    fn clone(&self) -> (r: Self)
        ensures
            r@ == self@,
    {
        let suggestions = match &self.suggestions {
            Some(s) => Some(copy_strings(s)),
            None => None,
        };
        Violation {
            rule_id: self.rule_id,
            severity: self.severity,
            message: self.message.clone(),
            suggestions,
            line: self.line,
            column: self.column,
        }
    }
}

/// Summary of a lint pass.
#[derive(Debug, Clone, Copy, PartialEq, Eq)]
pub struct LintSummary {
    pub total: usize,
    pub hard: usize,
}

impl Default for LintSummary {
    fn default() -> (r: Self)
        ensures
            r.total == 0,
            r.hard == 0,
    {
        LintSummary { total: 0, hard: 0 }
    }
}

/// The full lint report.
#[derive(Debug)]
pub struct LintReport {
    pub violations: Vec<Violation>,
    pub summary: LintSummary,
}

/// What a report says.
pub struct ReportModel {
    pub violations: Seq<ViolationModel>,
    pub total: int,
    pub hard: int,
}

impl View for LintReport {
    type V = ReportModel;

    open spec fn view(&self) -> ReportModel {
        ReportModel {
            violations: models(self.violations@),
            total: self.summary.total as int,
            hard: self.summary.hard as int,
        }
    }
}

/// Copies a list of violations.
pub fn copy_violations(v: &Vec<Violation>) -> (r: Vec<Violation>)
    ensures
        models(r@) == models(v@),
{
    let mut r: Vec<Violation> = Vec::new();
    let mut i: usize = 0;
    while i < v.len()
        invariant
            i <= v@.len(),
            r@.len() == i,
            forall|k: int| 0 <= k < i ==> #[trigger] r@[k]@ == v@[k]@,
        decreases v@.len() - i,
    {
        r.push(v[i].clone());
        i += 1;
    }
    assert(models(r@) =~= models(v@));
    r
}

impl Clone for LintReport {
    fn clone(&self) -> (r: Self)
        ensures
            r@ == self@,
    {
        LintReport {
            violations: copy_violations(&self.violations),
            summary: LintSummary { total: self.summary.total, hard: self.summary.hard },
        }
    }
}

/// Content kind determines how prose is extracted from the source.
#[derive(Debug, Clone, Copy, PartialEq, Eq, Structural)]
pub enum LintKind {
    ProseFile,
    SlashSource,
    HashSource,
    CommitMessage,
}

impl LintKind {
    /// The kinds whose prose is the comments of source code.
    pub open spec fn is_source(self) -> bool {
        self == LintKind::SlashSource || self == LintKind::HashSource
    }

    /// True for the kinds whose prose is the comments of source code.
    pub fn source(&self) -> (r: bool)
        ensures
            r == self.is_source(),
    {
        match self {
            LintKind::SlashSource => true,
            LintKind::HashSource => true,
            _ => false,
        }
    }
}

/// Per-rule setting: severity or off.
pub type RuleSetting = Option<Severity>;

/// Per-rule overrides, keyed by rule id. No key occurs twice.
#[derive(Debug)]
pub struct RuleMap {
    entries: Vec<(String, String)>,
}

impl RuleMap {
    #[verifier::type_invariant]
    spec fn distinct(self) -> bool {
        forall|i: int, j: int|
            0 <= i < j < self.entries@.len() ==> self.entries@[i].0@ != self.entries@[j].0@
    }

    /// The place of a key.
    spec fn place(self, key: Seq<char>) -> int {
        choose|i: int| 0 <= i < self.entries@.len() && self.entries@[i].0@ == key
    }

    /// An empty map.
    pub fn new() -> (r: Self)
        ensures
            r@ == Map::<Seq<char>, Seq<char>>::empty(),
    {
        let r = RuleMap { entries: Vec::new() };
        assert(r@ =~= Map::<Seq<char>, Seq<char>>::empty());
        r
    }

    /// True when the map holds no override.
    pub fn is_empty(&self) -> (r: bool)
        ensures
            r <==> self@ == Map::<Seq<char>, Seq<char>>::empty(),
    {
        if self.entries.len() == 0 {
            assert(self@ =~= Map::<Seq<char>, Seq<char>>::empty());
            true
        } else {
            assert(self.entries@[0].0@ == self.entries@[0].0@);
            assert(self@.dom().contains(self.entries@[0].0@));
            false
        }
    }

    /// The override for a key.
    pub fn get(&self, key: &str) -> (r: Option<&str>)
        ensures
            match r {
                Some(v) => self@.dom().contains(key@) && self@[key@] == v@,
                None => !self@.dom().contains(key@),
            },
    {
        proof {
            use_type_invariant(self);
        }
        let mut i: usize = 0;
        while i < self.entries.len()
            invariant
                i <= self.entries@.len(),
                forall|k: int| 0 <= k < i ==> self.entries@[k].0@ != key@,
                self.distinct(),
            decreases self.entries@.len() - i,
        {
            if text::same(self.entries[i].0.as_str(), key) {
                return Some(self.entries[i].1.as_str());
            }
            i += 1;
        }
        None
    }

    /// Sets the override for a key.
    pub fn insert(&mut self, key: String, value: String)
        ensures
            final(self)@ == old(self)@.insert(key@, value@),
    {
        proof {
            use_type_invariant(&*self);
        }
        let ghost before = *self;
        let ghost k = key@;
        let ghost v = value@;
        let mut entries: Vec<(String, String)> = Vec::new();
        std::mem::swap(&mut entries, &mut self.entries);
        let mut i: usize = 0;
        while i < entries.len()
            invariant
                i <= entries@.len(),
                entries@ == before.entries@,
                before.distinct(),
                forall|j: int| 0 <= j < i ==> entries@[j].0@ != k,
                k == key@,
            ensures
                i <= entries@.len(),
                forall|j: int| 0 <= j < i ==> entries@[j].0@ != k,
                i < entries@.len() ==> entries@[i as int].0@ == k,
            decreases entries@.len() - i,
        {
            if text::same(entries[i].0.as_str(), key.as_str()) {
                break;
            }
            i += 1;
        }
        if i < entries.len() {
            entries[i] = (key, value);
            self.entries = entries;
            assert forall|q: Seq<char>| #[trigger] self@.dom().contains(q) == before@.insert(
                k,
                v,
            ).dom().contains(q) by {
                if before@.dom().contains(q) {
                    let p = before.place(q);
                    assert(self.entries@[p].0@ == q);
                }
                if self@.dom().contains(q) {
                    let p = self.place(q);
                    assert(before.entries@[p].0@ == q);
                }
            }
        } else {
            entries.push((key, value));
            self.entries = entries;
            assert forall|q: Seq<char>| #[trigger] self@.dom().contains(q) == before@.insert(
                k,
                v,
            ).dom().contains(q) by {
                if before@.dom().contains(q) {
                    let p = before.place(q);
                    assert(self.entries@[p].0@ == q);
                }
                if q == k {
                    assert(self.entries@[i as int].0@ == q);
                } else if self@.dom().contains(q) {
                    let p = self.place(q);
                    assert(before.entries@[p].0@ == q);
                }
            }
        }
        proof {
            use_type_invariant(&*self);
            assert(self.entries@[i as int].0@ == k);
            assert forall|q: Seq<char>| self@.dom().contains(q) implies #[trigger] self@[q]
                == before@.insert(k, v)[q] by {
                let p = self.place(q);
                if q == k {
                    assert(p == i);
                } else {
                    assert(p != i);
                    assert(before.entries@[p].0@ == q);
                    assert(before.place(q) == p);
                }
            }
            assert(self@ =~= before@.insert(k, v));
        }
    }
}

impl View for RuleMap {
    type V = Map<Seq<char>, Seq<char>>;

    closed spec fn view(&self) -> Map<Seq<char>, Seq<char>> {
        Map::new(
            |key: Seq<char>|
                exists|i: int| 0 <= i < self.entries@.len() && self.entries@[i].0@ == key,
            |key: Seq<char>| self.entries@[self.place(key)].1@,
        )
    }
}

impl Clone for RuleMap {
    fn clone(&self) -> (r: Self)
        ensures
            r@ == self@,
    {
        proof {
            use_type_invariant(self);
        }
        let mut entries: Vec<(String, String)> = Vec::new();
        let mut i: usize = 0;
        while i < self.entries.len()
            invariant
                i <= self.entries@.len(),
                entries@.len() == i,
                forall|k: int|
                    0 <= k < i ==> entries@[k].0@ == self.entries@[k].0@ && entries@[k].1@
                        == self.entries@[k].1@,
                self.distinct(),
            decreases self.entries@.len() - i,
        {
            entries.push((self.entries[i].0.clone(), self.entries[i].1.clone()));
            i += 1;
        }
        let r = RuleMap { entries };
        proof {
            assert forall|q: Seq<char>| #[trigger] r@.dom().contains(q) == self@.dom().contains(
                q,
            ) by {
                if self@.dom().contains(q) {
                    let p = self.place(q);
                    assert(r.entries@[p].0@ == q);
                }
                if r@.dom().contains(q) {
                    let p = r.place(q);
                    assert(self.entries@[p].0@ == q);
                }
            }
            assert forall|q: Seq<char>| r@.dom().contains(q) implies #[trigger] r@[q]
                == self@[q] by {
                let p = self.place(q);
                assert(r.entries@[p].0@ == q);
                assert(r.place(q) == p);
            }
            assert(r@ =~= self@);
        }
        r
    }
}

impl Default for RuleMap {
    fn default() -> (r: Self)
        ensures
            r@ == Map::<Seq<char>, Seq<char>>::empty(),
    {
        RuleMap::new()
    }
}

/// Configuration for the lint engine.
#[derive(Debug)]
pub struct LintConfig {
    /// Per-rule overrides. Keys are rule IDs, values are "hard", "soft", or "off".
    pub rules: RuleMap,
    /// Maximum words per sentence.
    pub max_sentence_words: Option<usize>,
    /// Maximum sentences per paragraph. Zero turns the rule off.
    pub max_paragraph_sentences: Option<usize>,
    /// Whether to exempt block-quoted content from linting.
    pub exempt_block_quotes: bool,
}

/// What a configuration says.
pub struct ConfigModel {
    pub rules: Map<Seq<char>, Seq<char>>,
    pub max_sentence_words: Option<usize>,
    pub max_paragraph_sentences: Option<usize>,
    pub exempt_block_quotes: bool,
}

impl View for LintConfig {
    type V = ConfigModel;

    open spec fn view(&self) -> ConfigModel {
        ConfigModel {
            rules: self.rules@,
            max_sentence_words: self.max_sentence_words,
            max_paragraph_sentences: self.max_paragraph_sentences,
            exempt_block_quotes: self.exempt_block_quotes,
        }
    }
}

impl Clone for LintConfig {
    fn clone(&self) -> (r: Self)
        ensures
            r@ == self@,
    {
        LintConfig {
            rules: self.rules.clone(),
            max_sentence_words: self.max_sentence_words,
            max_paragraph_sentences: self.max_paragraph_sentences,
            exempt_block_quotes: self.exempt_block_quotes,
        }
    }
}

impl Default for LintConfig {
    fn default() -> (r: Self)
        ensures
            r.rules@ == Map::<Seq<char>, Seq<char>>::empty(),
            r.max_sentence_words is None,
            r.max_paragraph_sentences is None,
            !r.exempt_block_quotes,
    {
        LintConfig {
            rules: RuleMap::new(),
            max_sentence_words: None,
            max_paragraph_sentences: None,
            exempt_block_quotes: false,
        }
    }
}

/// What a configured setting means. Anything but the two severities turns
/// the rule off.
pub open spec fn setting(value: Seq<char>) -> RuleSetting {
    if value == "hard"@ {
        Some(Severity::Hard)
    } else if value == "soft"@ {
        Some(Severity::Soft)
    } else {
        None
    }
}

/// The rules that are hard unless configured otherwise.
pub open spec fn hard_by_default(rule_id: Seq<char>) -> bool {
    ||| rule_id == "contraction"@
    ||| rule_id == "dictionary-not-approved-word"@
    ||| rule_id == "invalid-suppression"@
    ||| rule_id == "paragraph-length"@
    ||| rule_id == "phrasal-verb"@
    ||| rule_id == "semicolon"@
    ||| rule_id == "sentence-length"@
    ||| rule_id == "verb-progressive"@
    ||| rule_id == "verb-perfect"@
}

/// The rules that are soft unless configured otherwise.
pub open spec fn soft_by_default(rule_id: Seq<char>) -> bool {
    ||| rule_id == "hedging"@
    ||| rule_id == "marketing"@
    ||| rule_id == "verb-passive"@
}

/// The severity of a rule that has no override.
pub open spec fn default_setting(rule_id: Seq<char>) -> RuleSetting {
    if hard_by_default(rule_id) {
        Some(Severity::Hard)
    } else if soft_by_default(rule_id) {
        Some(Severity::Soft)
    } else {
        None
    }
}

/// The setting of a rule under the overrides `rules`.
pub open spec fn resolved(rules: Map<Seq<char>, Seq<char>>, rule_id: Seq<char>) -> RuleSetting {
    if rules.dom().contains(rule_id) {
        setting(rules[rule_id])
    } else {
        default_setting(rule_id)
    }
}

/// A configuration with one rule turned off.
pub open spec fn turned_off(config: ConfigModel, rule_id: Seq<char>) -> ConfigModel {
    ConfigModel { rules: config.rules.insert(rule_id, "off"@), ..config }
}

/// Turning a rule off leaves it without a setting, and changes no other.
pub proof fn lemma_resolved_off(
    rules: Map<Seq<char>, Seq<char>>,
    rule_id: Seq<char>,
    other: Seq<char>,
)
    ensures
        resolved(rules.insert(rule_id, "off"@), other) == (if other == rule_id {
            None
        } else {
            resolved(rules, other)
        }),
{
    reveal_strlit("off");
    reveal_strlit("hard");
    reveal_strlit("soft");
    assert("off"@.len() == 3);
    assert("hard"@.len() == 4);
    assert("soft"@.len() == 4);
}

impl LintConfig {
    /// Resolve the effective setting for a rule, falling back to defaults.
    pub fn resolve_rule(&self, rule_id: &str) -> (r: RuleSetting)
        ensures
            r == resolved(self.rules@, rule_id@),
    {
        if let Some(value) = self.rules.get(rule_id) {
            return if text::same(value, "hard") {
                Some(Severity::Hard)
            } else if text::same(value, "soft") {
                Some(Severity::Soft)
            } else {
                None
            };
        }
        if text::same(rule_id, "contraction") || text::same(rule_id, "dictionary-not-approved-word")
            || text::same(rule_id, "invalid-suppression") || text::same(rule_id, "paragraph-length")
            || text::same(rule_id, "phrasal-verb") || text::same(rule_id, "semicolon")
            || text::same(rule_id, "sentence-length") || text::same(rule_id, "verb-progressive")
            || text::same(rule_id, "verb-perfect") {
            Some(Severity::Hard)
        } else if text::same(rule_id, "hedging") || text::same(rule_id, "marketing") || text::same(
            rule_id,
            "verb-passive",
        ) {
            Some(Severity::Soft)
        } else {
            None
        }
    }
}

/// A sentence with position information.
#[derive(Debug)]
pub struct Sentence {
    /// The text of the sentence (including terminal punctuation).
    pub text: String,
    /// 1-based line of the first character that is not white.
    pub line: usize,
    /// 1-based byte column of the first character that is not white.
    pub column: usize,
    pub word_count: usize,
}

/// What a sentence says and where it stands.
pub struct SentenceModel {
    pub text: Seq<char>,
    pub line: int,
    pub column: int,
    pub word_count: int,
}

impl View for Sentence {
    type V = SentenceModel;

    open spec fn view(&self) -> SentenceModel {
        SentenceModel {
            text: self.text@,
            line: self.line as int,
            column: self.column as int,
            word_count: self.word_count as int,
        }
    }
}

impl Clone for Sentence {
    fn clone(&self) -> (r: Self)
        ensures
            r@ == self@,
    {
        Sentence {
            text: self.text.clone(),
            line: self.line,
            column: self.column,
            word_count: self.word_count,
        }
    }
}

/// What a sequence of sentences says.
pub open spec fn sentence_models(v: Seq<Sentence>) -> Seq<SentenceModel> {
    Seq::new(v.len(), |i: int| v[i]@)
}

/// A paragraph containing sentences.
#[derive(Debug)]
pub struct Paragraph {
    pub sentences: Vec<Sentence>,
    /// 1-based line of the first line that is not blank.
    pub line: usize,
    pub column: usize,
}

/// What a paragraph says and where it stands.
pub struct ParagraphModel {
    pub sentences: Seq<SentenceModel>,
    pub line: int,
    pub column: int,
}

impl View for Paragraph {
    type V = ParagraphModel;

    open spec fn view(&self) -> ParagraphModel {
        ParagraphModel {
            sentences: sentence_models(self.sentences@),
            line: self.line as int,
            column: self.column as int,
        }
    }
}

impl Clone for Paragraph {
    fn clone(&self) -> (r: Self)
        ensures
            r@ == self@,
    {
        let mut sentences: Vec<Sentence> = Vec::new();
        let mut i: usize = 0;
        while i < self.sentences.len()
            invariant
                i <= self.sentences@.len(),
                sentences@.len() == i,
                forall|k: int| 0 <= k < i ==> #[trigger] sentences@[k]@ == self.sentences@[k]@,
            decreases self.sentences@.len() - i,
        {
            sentences.push(self.sentences[i].clone());
            i += 1;
        }
        assert(sentence_models(sentences@) =~= sentence_models(self.sentences@));
        Paragraph { sentences, line: self.line, column: self.column }
    }
}

/// What a sequence of paragraphs says.
pub open spec fn paragraph_models(v: Seq<Paragraph>) -> Seq<ParagraphModel> {
    Seq::new(v.len(), |i: int| v[i]@)
}

} // verus!

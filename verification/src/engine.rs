//! Core lint orchestration.
//!
//! `lint()` extracts prose from the source text based on the kind.
//! It segments sentences and paragraphs. It runs the enabled rules
//! that apply to the kind. It collects violations into a report.
//! The semicolon rule runs only for the prose kinds. It skips source
//! kinds because a semicolon there is code punctuation.

use vstd::prelude::*;
use vstd::string::StringExecFns;

use crate::dictionaries;
use crate::lines;
use crate::prose;
use crate::rules;
use crate::sentences;
use crate::sentences::{segment_paragraphs, segment_sentences};
use crate::text;
use crate::types;
use crate::types::{
    ConfigModel, LintConfig, LintKind, LintReport, LintSummary, Paragraph, ParagraphModel,
    ReportModel, RuleSetting, Sentence, SentenceModel, Severity, Violation, ViolationModel,
};

verus! {

/// The default maximum words per sentence.
pub const DEFAULT_MAX_SENTENCE_WORDS: usize = 25;

/// The default maximum sentences per paragraph of prose.
pub const DEFAULT_MAX_PARAGRAPH_SENTENCES: usize = 6;

// ── Sentence and paragraph length ──────────────────────────────────────────

/// The start of a sentence, as a message quotes it.
pub open spec fn snippet(s: Seq<char>) -> Seq<char> {
    if s.len() > 60 {
        s.take(60) + "..."@
    } else {
        s
    }
}

/// The violation of a sentence that is too long.
pub open spec fn long_sentence(s: SentenceModel, max: nat, severity: Severity) -> ViolationModel {
    rules::plain(
        "sentence-length"@,
        severity,
        "Sentence has "@ + text::decimal(s.word_count as nat) + " words; the maximum is "@
            + text::decimal(max) + ". \""@ + snippet(s.text) + "\""@,
        s.line,
        s.column,
    )
}

/// The violations of the first `n` sentences: one for each that has more
/// than `max` words.
pub open spec fn long_sentences_to(
    given: Seq<SentenceModel>,
    max: nat,
    severity: Severity,
    n: int,
) -> Seq<ViolationModel>
    decreases n,
{
    if n <= 0 {
        Seq::empty()
    } else if given[n - 1].word_count > max {
        long_sentences_to(given, max, severity, n - 1).push(
            long_sentence(given[n - 1], max, severity),
        )
    } else {
        long_sentences_to(given, max, severity, n - 1)
    }
}

/// The violation of a paragraph that is too long.
pub open spec fn long_paragraph(p: ParagraphModel, max: nat, severity: Severity) -> ViolationModel {
    rules::plain(
        "paragraph-length"@,
        severity,
        "Paragraph has "@ + text::decimal(p.sentences.len()) + " sentences; the maximum is "@
            + text::decimal(max) + "."@,
        p.line,
        p.column,
    )
}

/// The violations of the first `n` paragraphs: one for each that has more
/// than `max` sentences. A cap of zero turns the rule off.
pub open spec fn long_paragraphs_to(
    given: Seq<ParagraphModel>,
    max: nat,
    severity: Severity,
    n: int,
) -> Seq<ViolationModel>
    decreases n,
{
    if n <= 0 || max == 0 {
        Seq::empty()
    } else if given[n - 1].sentences.len() > max {
        long_paragraphs_to(given, max, severity, n - 1).push(
            long_paragraph(given[n - 1], max, severity),
        )
    } else {
        long_paragraphs_to(given, max, severity, n - 1)
    }
}

fn snippet_of(s: &str) -> (r: String)
    ensures
        r@ == snippet(s@),
{
    let chars = text::chars_of(s);
    if chars.len() > 60 {
        let mut r = text::string_of(&chars, 0, 60);
        assert(r@ =~= s@.take(60));
        r.append("...");
        r
    } else {
        s.to_owned()
    }
}

/// Check sentence-length violations.
fn check_sentence_length(given: &Vec<Sentence>, max: usize, severity: Severity) -> (r: Vec<
    Violation,
>)
    ensures
        types::models(r@) == long_sentences_to(
            types::sentence_models(given@),
            max as nat,
            severity,
            given@.len() as int,
        ),
{
    let ghost all = types::sentence_models(given@);
    let mut r: Vec<Violation> = Vec::new();
    assert(types::models(r@) =~= Seq::<ViolationModel>::empty());
    let mut i: usize = 0;
    while i < given.len()
        invariant
            all == types::sentence_models(given@),
            i <= given@.len(),
            types::models(r@) == long_sentences_to(all, max as nat, severity, i as int),
        decreases given@.len() - i,
    {
        let s = &given[i];
        assert(all[i as int] == s@);
        if s.word_count > max {
            let ghost before = types::models(r@);
            let mut message = "Sentence has ".to_owned();
            message.append(text::decimal_of(s.word_count).as_str());
            message.append(" words; the maximum is ");
            message.append(text::decimal_of(max).as_str());
            message.append(". \"");
            message.append(snippet_of(s.text.as_str()).as_str());
            message.append("\"");
            let v = Violation {
                rule_id: "sentence-length",
                severity,
                message,
                suggestions: None,
                line: s.line,
                column: s.column,
            };
            let ghost m = v@;
            r.push(v);
            assert(m == long_sentence(s@, max as nat, severity));
            assert(types::models(r@) =~= before.push(m));
        }
        i += 1;
    }
    r
}

/// Check paragraph-length violations. `max` is the per-paragraph cap. A cap
/// of zero disables the check.
fn check_paragraph_length(given: &Vec<Paragraph>, max: usize, severity: Severity) -> (r: Vec<
    Violation,
>)
    ensures
        types::models(r@) == long_paragraphs_to(
            types::paragraph_models(given@),
            max as nat,
            severity,
            given@.len() as int,
        ),
{
    let ghost all = types::paragraph_models(given@);
    let mut r: Vec<Violation> = Vec::new();
    assert(types::models(r@) =~= Seq::<ViolationModel>::empty());
    if max == 0 {
        return r;
    }
    let mut i: usize = 0;
    while i < given.len()
        invariant
            max > 0,
            all == types::paragraph_models(given@),
            i <= given@.len(),
            types::models(r@) == long_paragraphs_to(all, max as nat, severity, i as int),
        decreases given@.len() - i,
    {
        let p = &given[i];
        assert(all[i as int] == p@);
        if p.sentences.len() > max {
            let ghost before = types::models(r@);
            let mut message = "Paragraph has ".to_owned();
            message.append(text::decimal_of(p.sentences.len()).as_str());
            message.append(" sentences; the maximum is ");
            message.append(text::decimal_of(max).as_str());
            message.append(".");
            let v = Violation {
                rule_id: "paragraph-length",
                severity,
                message,
                suggestions: None,
                line: p.line,
                column: p.column,
            };
            let ghost m = v@;
            r.push(v);
            assert(m == long_paragraph(p@, max as nat, severity));
            assert(types::models(r@) =~= before.push(m));
        }
        i += 1;
    }
    r
}

// ── Suppression ────────────────────────────────────────────────────────────

/// The names that a directive in line `s` gives.
pub open spec fn directive_names(s: Seq<char>) -> Seq<Seq<char>> {
    match text::find_from(s, rules::MARKER@, 0) {
        Some(_) => rules::names(rules::after_marker(s)),
        None => Seq::empty(),
    }
}

/// A directive in line `s` suppresses a registered rule on the next line.
pub open spec fn suppresses(s: Seq<char>, rule_id: Seq<char>) -> bool {
    &&& directive_names(s).contains(rule_id)
    &&& dictionaries::strs(rules::REGISTERED_RULE_IDS@).contains(rule_id)
}

/// A directive on the line before suppresses a violation.
pub open spec fn is_suppressed(rows: Seq<Seq<char>>, v: ViolationModel) -> bool {
    2 <= v.line <= rows.len() + 1 && suppresses(rows[v.line - 2], v.rule_id)
}

/// Those of the first `n` violations that are not suppressed.
pub open spec fn unsuppressed_to(
    rows: Seq<Seq<char>>,
    found: Seq<ViolationModel>,
    n: int,
) -> Seq<ViolationModel>
    decreases n,
{
    if n <= 0 {
        Seq::empty()
    } else if is_suppressed(rows, found[n - 1]) {
        unsuppressed_to(rows, found, n - 1)
    } else {
        unsuppressed_to(rows, found, n - 1).push(found[n - 1])
    }
}

/// The names that each line suppresses on the line after it.
fn suppressed_rule_ids_by_line(lines: &[String]) -> (r: Vec<Vec<String>>)
    ensures
        r@.len() == lines@.len(),
        forall|k: int|
            0 <= k < r@.len() ==> lines::texts((#[trigger] r@[k])@) == directive_names(lines@[k]@),
{
    let mut r: Vec<Vec<String>> = Vec::new();
    let mut i: usize = 0;
    while i < lines.len()
        invariant
            i <= lines@.len(),
            r@.len() == i,
            forall|k: int|
                0 <= k < i ==> lines::texts((#[trigger] r@[k])@) == directive_names(lines@[k]@),
        decreases lines@.len() - i,
    {
        let s = text::chars_of(lines[i].as_str());
        let names = match rules::find_marker(&s) {
            Some(at) => rules::names_of(&rules::rest_after(&s, at)),
            None => Vec::new(),
        };
        assert(lines::texts(names@) =~= directive_names(s@));
        r.push(names);
        i += 1;
    }
    r
}

/// True when `id` is one of `v`.
fn is_listed(v: &Vec<String>, id: &str) -> (r: bool)
    ensures
        r == lines::texts(v@).contains(id@),
{
    let ghost all = lines::texts(v@);
    let mut i: usize = 0;
    while i < v.len()
        invariant
            all == lines::texts(v@),
            i <= v@.len(),
            forall|k: int| 0 <= k < i ==> #[trigger] all[k] != id@,
        decreases v@.len() - i,
    {
        if text::same(v[i].as_str(), id) {
            assert(all[i as int] == id@);
            return true;
        }
        i += 1;
    }
    false
}

/// Keeps the violations that are not suppressed.
fn drop_suppressed(found: &Vec<Violation>, lines: &[String]) -> (r: Vec<Violation>)
    ensures
        types::models(r@) == unsuppressed_to(
            lines::texts(lines@),
            types::models(found@),
            found@.len() as int,
        ),
{
    let ghost rows = lines::texts(lines@);
    let ghost all = types::models(found@);
    let suppressed = suppressed_rule_ids_by_line(lines);
    let mut r: Vec<Violation> = Vec::new();
    assert(types::models(r@) =~= Seq::<ViolationModel>::empty());
    let mut i: usize = 0;
    while i < found.len()
        invariant
            rows == lines::texts(lines@),
            all == types::models(found@),
            suppressed@.len() == lines@.len(),
            forall|k: int|
                0 <= k < suppressed@.len() ==> lines::texts((#[trigger] suppressed@[k])@)
                    == directive_names(lines@[k]@),
            i <= found@.len(),
            types::models(r@) == unsuppressed_to(rows, all, i as int),
        decreases found@.len() - i,
    {
        let v = &found[i];
        assert(all[i as int] == v@);
        assert(2 <= v.line <= rows.len() + 1 ==> rows[v.line - 2] == lines@[v.line - 2]@);
        let dropped = v.line >= 2 && v.line - 2 < suppressed.len() && is_listed(
            &suppressed[v.line - 2],
            v.rule_id,
        ) && rules::is_one_of(rules::REGISTERED_RULE_IDS, v.rule_id);
        if !dropped {
            let ghost before = types::models(r@);
            let copy = v.clone();
            r.push(copy);
            assert(types::models(r@) =~= before.push(v@));
        }
        i += 1;
    }
    r
}

// ── Order ──────────────────────────────────────────────────────────────────

/// `a` stands after `b` in the text.
pub open spec fn is_after(a: ViolationModel, b: ViolationModel) -> bool {
    a.line > b.line || (a.line == b.line && a.column > b.column)
}

/// Where `x` goes among the first `p` violations: before those that stand
/// after it.
pub open spec fn slot(v: Seq<ViolationModel>, x: ViolationModel, p: int) -> int
    decreases p,
{
    if 0 < p <= v.len() && is_after(v[p - 1], x) {
        slot(v, x, p - 1)
    } else {
        p
    }
}

/// The first `n` violations by line, then column. Violations at one place
/// keep their order.
pub open spec fn sorted_to(v: Seq<ViolationModel>, n: int) -> Seq<ViolationModel>
    decreases n,
{
    if n <= 0 {
        Seq::empty()
    } else {
        let before = sorted_to(v, n - 1);
        before.insert(slot(before, v[n - 1], before.len() as int), v[n - 1])
    }
}

/// How many of the first `n` violations are hard.
pub open spec fn hard_to(v: Seq<ViolationModel>, n: int) -> nat
    decreases n,
{
    if n <= 0 {
        0
    } else {
        hard_to(v, n - 1) + if v[n - 1].severity == Severity::Hard {
            1nat
        } else {
            0
        }
    }
}

/// Sort by line, then column.
fn sort_violations(found: &Vec<Violation>) -> (r: Vec<Violation>)
    ensures
        types::models(r@) == sorted_to(types::models(found@), found@.len() as int),
{
    let ghost all = types::models(found@);
    let mut r: Vec<Violation> = Vec::new();
    assert(types::models(r@) =~= Seq::<ViolationModel>::empty());
    let mut i: usize = 0;
    while i < found.len()
        invariant
            all == types::models(found@),
            i <= found@.len(),
            types::models(r@) == sorted_to(all, i as int),
        decreases found@.len() - i,
    {
        let x = found[i].clone();
        let ghost m = x@;
        let ghost before = types::models(r@);
        assert(m == all[i as int]);
        let mut p: usize = r.len();
        while p > 0 && (r[p - 1].line > x.line || (r[p - 1].line == x.line && r[p - 1].column
            > x.column))
            invariant
                m == x@,
                before == types::models(r@),
                p <= r@.len(),
                slot(before, m, before.len() as int) == slot(before, m, p as int),
            decreases p,
        {
            assert(before[p - 1] == r@[p - 1]@);
            p -= 1;
        }
        assert(p > 0 ==> before[p - 1] == r@[p - 1]@);
        r.insert(p, x);
        assert(types::models(r@) =~= before.insert(p as int, m));
        i += 1;
    }
    r
}

/// Counts the hard violations.
pub fn count_hard(v: &Vec<Violation>) -> (r: usize)
    ensures
        r == hard_to(types::models(v@), v@.len() as int),
        r <= v@.len(),
{
    let ghost all = types::models(v@);
    let mut r: usize = 0;
    let mut i: usize = 0;
    while i < v.len()
        invariant
            all == types::models(v@),
            i <= v@.len(),
            r <= i,
            r == hard_to(all, i as int),
        decreases v@.len() - i,
    {
        assert(all[i as int] == v@[i as int]@);
        if v[i].severity == Severity::Hard {
            r += 1;
        }
        i += 1;
    }
    r
}

// ── The report ─────────────────────────────────────────────────────────────

/// The report on a list of violations, in their order.
pub open spec fn report_of(v: Seq<ViolationModel>) -> ReportModel {
    ReportModel { violations: v, total: v.len() as int, hard: hard_to(v, v.len() as int) as int }
}

/// The report on what the rules found in the prose lines: without what is
/// suppressed, and in the order of the text.
pub open spec fn finished(found: Seq<ViolationModel>, rows: Seq<Seq<char>>) -> ReportModel {
    let left = unsuppressed_to(rows, found, found.len() as int);
    report_of(sorted_to(left, left.len() as int))
}

/// A line whose first character that is not white is `>`.
pub open spec fn is_quote(s: Seq<char>) -> bool {
    let w = text::white_end(s, 0);
    w < s.len() && s[w] == '>'
}

/// The lines with block quotes blanked out.
pub open spec fn without_quotes(rows: Seq<Seq<char>>) -> Seq<Seq<char>> {
    Seq::new(
        rows.len(),
        |k: int|
            if is_quote(rows[k]) {
                prose::blanked(rows[k])
            } else {
                rows[k]
            },
    )
}

/// The prose lines that are linted.
pub open spec fn linted(kind: LintKind, text: Seq<char>, config: ConfigModel) -> Seq<Seq<char>> {
    let rows = prose::prose(kind, text);
    if config.exempt_block_quotes {
        without_quotes(rows)
    } else {
        rows
    }
}

/// The word limit of a configuration.
pub open spec fn max_words(config: ConfigModel) -> nat {
    match config.max_sentence_words {
        Some(n) => n as nat,
        None => DEFAULT_MAX_SENTENCE_WORDS as nat,
    }
}

/// The paragraph cap of a configuration. Source kinds default off, because
/// their comments are sparse.
pub open spec fn max_sentences(kind: LintKind, config: ConfigModel) -> nat {
    match config.max_paragraph_sentences {
        Some(n) => n as nat,
        None => if kind.is_source() {
            0
        } else {
            DEFAULT_MAX_PARAGRAPH_SENTENCES as nat
        },
    }
}

/// The sentences of the prose lines. Source kinds keep each comment line
/// its own sentence.
pub open spec fn sentences_of(kind: LintKind, rows: Seq<Seq<char>>) -> Seq<SentenceModel> {
    sentences::sentences(lines::join(rows, "\n"@), !kind.is_source())
}

/// The paragraphs of the prose lines.
pub open spec fn paragraphs_of(kind: LintKind, rows: Seq<Seq<char>>) -> Seq<ParagraphModel> {
    sentences::paragraphs(lines::join(rows, "\n"@), sentences_of(kind, rows))
}

/// What the rule `sentence-length` finds.
pub open spec fn sentence_length(
    kind: LintKind,
    rows: Seq<Seq<char>>,
    config: ConfigModel,
) -> Seq<ViolationModel> {
    let given = sentences_of(kind, rows);
    match types::resolved(config.rules, "sentence-length"@) {
        Some(severity) => long_sentences_to(
            given,
            max_words(config),
            severity,
            given.len() as int,
        ),
        None => Seq::empty(),
    }
}

/// What the rule `paragraph-length` finds.
pub open spec fn paragraph_length(
    kind: LintKind,
    rows: Seq<Seq<char>>,
    config: ConfigModel,
) -> Seq<ViolationModel> {
    let given = paragraphs_of(kind, rows);
    match types::resolved(config.rules, "paragraph-length"@) {
        Some(severity) => long_paragraphs_to(
            given,
            max_sentences(kind, config),
            severity,
            given.len() as int,
        ),
        None => Seq::empty(),
    }
}

/// What the rule `contraction` finds.
pub open spec fn contraction(rows: Seq<Seq<char>>, config: ConfigModel) -> Seq<ViolationModel> {
    match types::resolved(config.rules, "contraction"@) {
        Some(severity) => rules::contractions_to(rows, severity, rows.len() as int),
        None => Seq::empty(),
    }
}

/// What the rule `semicolon` finds. It runs for the prose kinds only.
pub open spec fn semicolon(kind: LintKind, rows: Seq<Seq<char>>, config: ConfigModel) -> Seq<
    ViolationModel,
> {
    match types::resolved(config.rules, "semicolon"@) {
        Some(severity) => if kind.is_source() {
            Seq::empty()
        } else {
            rules::semicolons_to(rows, severity, rows.len() as int)
        },
        None => Seq::empty(),
    }
}

/// What the rule `phrasal-verb` finds.
pub open spec fn phrasal_verb(rows: Seq<Seq<char>>, config: ConfigModel) -> Seq<ViolationModel> {
    match types::resolved(config.rules, "phrasal-verb"@) {
        Some(severity) => rules::phrases(
            rows,
            "phrasal-verb"@,
            severity,
            dictionaries::phrasal_verb_entries(),
        ),
        None => Seq::empty(),
    }
}

/// What the rule `hedging` finds.
pub open spec fn hedging(rows: Seq<Seq<char>>, config: ConfigModel) -> Seq<ViolationModel> {
    match types::resolved(config.rules, "hedging"@) {
        Some(severity) => rules::phrases(
            rows,
            "hedging"@,
            severity,
            dictionaries::hedging_entries(),
        ),
        None => Seq::empty(),
    }
}

/// What the rule `marketing` finds.
pub open spec fn marketing(rows: Seq<Seq<char>>, config: ConfigModel) -> Seq<ViolationModel> {
    match types::resolved(config.rules, "marketing"@) {
        Some(severity) => rules::phrases(
            rows,
            "marketing"@,
            severity,
            dictionaries::marketing_entries(),
        ),
        None => Seq::empty(),
    }
}

/// What the rule `dictionary-not-approved-word` finds.
pub open spec fn ste_dictionary(rows: Seq<Seq<char>>, config: ConfigModel) -> Seq<ViolationModel> {
    match types::resolved(config.rules, "dictionary-not-approved-word"@) {
        Some(severity) => rules::phrases(
            rows,
            "dictionary-not-approved-word"@,
            severity,
            dictionaries::ste_dictionary_entries(),
        ),
        None => Seq::empty(),
    }
}

/// What the rule `invalid-suppression` finds.
pub open spec fn invalid_suppression(rows: Seq<Seq<char>>, config: ConfigModel) -> Seq<
    ViolationModel,
> {
    match types::resolved(config.rules, "invalid-suppression"@) {
        Some(severity) => rules::suppression_to(
            rows,
            dictionaries::strs(rules::REGISTERED_RULE_IDS@),
            severity,
            rows.len() as int,
        ),
        None => Seq::empty(),
    }
}

/// What all rules find in the prose lines.
pub open spec fn found(kind: LintKind, rows: Seq<Seq<char>>, config: ConfigModel) -> Seq<
    ViolationModel,
> {
    sentence_length(kind, rows, config) + paragraph_length(kind, rows, config) + contraction(
        rows,
        config,
    ) + semicolon(kind, rows, config) + phrasal_verb(rows, config) + hedging(rows, config)
        + marketing(rows, config) + ste_dictionary(rows, config) + invalid_suppression(rows, config)
}

/// The report on a text.
pub open spec fn report(kind: LintKind, text: Seq<char>, config: ConfigModel) -> ReportModel {
    let rows = linted(kind, text, config);
    finished(found(kind, rows, config), rows)
}

/// The report on a list of violations, in their order.
pub fn make_report(violations: Vec<Violation>) -> (r: LintReport)
    ensures
        r@ == report_of(types::models(violations@)),
{
    let total = violations.len();
    let hard = count_hard(&violations);
    LintReport { violations, summary: LintSummary { total, hard } }
}

/// The report on what the rules found in the prose lines.
pub fn finish_report(found: &Vec<Violation>, lines: &[String]) -> (r: LintReport)
    ensures
        r@ == finished(types::models(found@), lines::texts(lines@)),
{
    make_report(sort_violations(&drop_suppressed(found, lines)))
}

fn exempt_quotes(rows: &Vec<String>) -> (r: Vec<String>)
    ensures
        lines::texts(r@) == without_quotes(lines::texts(rows@)),
{
    let ghost all = lines::texts(rows@);
    let mut r: Vec<String> = Vec::new();
    let mut i: usize = 0;
    while i < rows.len()
        invariant
            all == lines::texts(rows@),
            i <= rows@.len(),
            r@.len() == i,
            forall|k: int| 0 <= k < i ==> #[trigger] r@[k]@ == without_quotes(all)[k],
        decreases rows@.len() - i,
    {
        let s = text::chars_of(rows[i].as_str());
        let w = text::skip_white(&s, 0);
        assert(all[i as int] == s@);
        if w < s.len() && s[w] == '>' {
            r.push(text::spaces_of(text::byte_length(rows[i].as_str())));
        } else {
            r.push(rows[i].clone());
        }
        i += 1;
    }
    assert(lines::texts(r@) =~= without_quotes(all));
    r
}

fn extend(out: &mut Vec<Violation>, more: Vec<Violation>)
    ensures
        types::models(final(out)@) == types::models(old(out)@) + types::models(more@),
{
    let ghost a = types::models(out@);
    let ghost b = types::models(more@);
    let mut more = more;
    out.append(&mut more);
    assert(types::models(out@) =~= a + b);
}

fn none() -> (r: Vec<Violation>)
    ensures
        types::models(r@) == Seq::<ViolationModel>::empty(),
{
    let r: Vec<Violation> = Vec::new();
    assert(types::models(r@) =~= Seq::<ViolationModel>::empty());
    r
}

/// Sentence and paragraph length.
fn run_length_rules(kind: LintKind, lines: &Vec<String>, config: &LintConfig) -> (r: Vec<
    Violation,
>)
    ensures
        types::models(r@) == sentence_length(kind, lines::texts(lines@), config@)
            + paragraph_length(kind, lines::texts(lines@), config@),
{
    let prose_text = lines::join_strings(lines, "\n");
    let sentences = segment_sentences(prose_text.as_str(), !kind.source());
    let mut r = match config.resolve_rule("sentence-length") {
        Some(severity) => {
            let max = match config.max_sentence_words {
                Some(n) => n,
                None => DEFAULT_MAX_SENTENCE_WORDS,
            };
            check_sentence_length(&sentences, max, severity)
        },
        None => none(),
    };
    let more = match config.resolve_rule("paragraph-length") {
        Some(severity) => {
            let paragraphs = segment_paragraphs(prose_text.as_str(), sentences.as_slice());
            let max = match config.max_paragraph_sentences {
                Some(n) => n,
                None => if kind.source() {
                    0
                } else {
                    DEFAULT_MAX_PARAGRAPH_SENTENCES
                },
            };
            check_paragraph_length(&paragraphs, max, severity)
        },
        None => none(),
    };
    extend(&mut r, more);
    r
}

/// Contractions and semicolons. Semicolons count for the prose kinds only.
/// In source files a semicolon is code punctuation, so it stays out of
/// reports even when it sits inside a comment.
fn run_character_rules(kind: LintKind, lines: &Vec<String>, config: &LintConfig) -> (r: Vec<
    Violation,
>)
    ensures
        types::models(r@) == contraction(lines::texts(lines@), config@) + semicolon(
            kind,
            lines::texts(lines@),
            config@,
        ),
{
    let mut r = match config.resolve_rule("contraction") {
        Some(severity) => rules::check_contractions(lines.as_slice(), severity),
        None => none(),
    };
    let more = match config.resolve_rule("semicolon") {
        Some(severity) => if kind.source() {
            none()
        } else {
            rules::check_semicolons(lines.as_slice(), severity)
        },
        None => none(),
    };
    extend(&mut r, more);
    r
}

/// Phrasal verbs and hedging.
fn run_verb_rules(lines: &Vec<String>, config: &LintConfig) -> (r: Vec<Violation>)
    ensures
        types::models(r@) == phrasal_verb(lines::texts(lines@), config@) + hedging(
            lines::texts(lines@),
            config@,
        ),
{
    let mut r = match config.resolve_rule("phrasal-verb") {
        Some(severity) => rules::check_phrasal_verbs(lines.as_slice(), severity),
        None => none(),
    };
    let more = match config.resolve_rule("hedging") {
        Some(severity) => rules::check_hedging(lines.as_slice(), severity),
        None => none(),
    };
    extend(&mut r, more);
    r
}

/// Marketing language and the STE dictionary.
fn run_word_rules(lines: &Vec<String>, config: &LintConfig) -> (r: Vec<Violation>)
    ensures
        types::models(r@) == marketing(lines::texts(lines@), config@) + ste_dictionary(
            lines::texts(lines@),
            config@,
        ),
{
    let mut r = match config.resolve_rule("marketing") {
        Some(severity) => rules::check_marketing(lines.as_slice(), severity),
        None => none(),
    };
    let more = match config.resolve_rule("dictionary-not-approved-word") {
        Some(severity) => rules::check_ste_dictionary(lines.as_slice(), severity),
        None => none(),
    };
    extend(&mut r, more);
    r
}

/// Suppression directive validation.
fn run_directive_rule(lines: &Vec<String>, config: &LintConfig) -> (r: Vec<Violation>)
    ensures
        types::models(r@) == invalid_suppression(lines::texts(lines@), config@),
{
    match config.resolve_rule("invalid-suppression") {
        Some(severity) => rules::check_suppression(
            lines.as_slice(),
            rules::REGISTERED_RULE_IDS,
            severity,
        ),
        None => none(),
    }
}

/// What all rules find in the prose lines.
fn run_rules(kind: LintKind, lines: &Vec<String>, config: &LintConfig) -> (r: Vec<Violation>)
    ensures
        types::models(r@) == found(kind, lines::texts(lines@), config@),
{
    let mut r = run_length_rules(kind, lines, config);
    extend(&mut r, run_character_rules(kind, lines, config));
    extend(&mut r, run_verb_rules(lines, config));
    extend(&mut r, run_word_rules(lines, config));
    extend(&mut r, run_directive_rule(lines, config));
    assert(types::models(r@) =~= found(kind, lines::texts(lines@), config@));
    r
}

/// Lint `text` of the given `kind`, returning a report of all violations.
pub fn lint(kind: LintKind, text: &str, config: &LintConfig) -> (r: LintReport)
    ensures
        r@ == report(kind, text@, config@),
{
    let mut prose_lines = prose::extract_prose_lines(kind, text);
    if config.exempt_block_quotes {
        prose_lines = exempt_quotes(&prose_lines);
    }
    let found = run_rules(kind, &prose_lines, config);
    finish_report(&found, prose_lines.as_slice())
}

} // verus!

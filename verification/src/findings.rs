//! Laws of what the rules find in prose lines.

use vstd::prelude::*;

use crate::dictionaries;
use crate::dictionaries::EntryModel;
use crate::engine;
use crate::foreign;
use crate::lines;
use crate::lists;
use crate::rules;
use crate::text;
use crate::types;
use crate::types::{ConfigModel, LintKind, ParagraphModel, SentenceModel, Severity, ViolationModel};

verus! {

/// A list of one violation, without a suggestion.
pub open spec fn one(
    rule_id: Seq<char>,
    severity: Severity,
    message: Seq<char>,
    line: int,
    column: int,
) -> Seq<ViolationModel> {
    seq![ViolationModel { rule_id, severity, message, suggestions: None, line, column }]
}

// ── Sentences ──────────────────────────────────────────────────────────────

/// The most words a sentence may have: as configured, or 25.
pub open spec fn word_cap(config: ConfigModel) -> nat {
    match config.max_sentence_words {
        Some(n) => n as nat,
        None => 25,
    }
}

/// The start of a sentence, cut after 60 characters.
pub open spec fn excerpt(s: Seq<char>) -> Seq<char> {
    if s.len() <= 60 {
        s
    } else {
        s.subrange(0, 60) + seq!['.', '.', '.']
    }
}

/// What is said of a sentence with too many words.
pub open spec fn sentence_message(s: SentenceModel, cap: nat) -> Seq<char> {
    "Sentence has "@ + text::decimal(s.word_count as nat) + " words; the maximum is "@
        + text::decimal(cap) + ". \""@ + excerpt(s.text) + "\""@
}

/// What the rule `sentence-length` has to find in one sentence.
pub open spec fn sentence_finding(s: SentenceModel, cap: nat, severity: Severity) -> Seq<
    ViolationModel,
> {
    if s.word_count <= cap {
        Seq::empty()
    } else {
        one("sentence-length"@, severity, sentence_message(s, cap), s.line, s.column)
    }
}

proof fn lemma_long_sentences(given: Seq<SentenceModel>, cap: nat, severity: Severity, n: int)
    requires
        0 <= n <= given.len(),
    ensures
        engine::long_sentences_to(given, cap, severity, n) == lists::collected(
            n as nat,
            |k: int| sentence_finding(given[k], cap, severity),
        ),
    decreases n,
{
    let f = |k: int| sentence_finding(given[k], cap, severity);
    lists::lemma_collected(n as nat, f);
    if n > 0 {
        lemma_long_sentences(given, cap, severity, n - 1);
        let s = given[n - 1];
        reveal_strlit("...");
        assert("..."@ =~= seq!['.', '.', '.']);
        assert(engine::snippet(s.text) =~= excerpt(s.text));
        let before = engine::long_sentences_to(given, cap, severity, n - 1);
        assert(f(n - 1) == sentence_finding(s, cap, severity));
        assert(engine::long_sentences_to(given, cap, severity, n) =~= before + f(n - 1));
    }
}

/// The rule `sentence-length` finds one violation for each sentence with more
/// words than the cap, at its line and column, in the order of the sentences,
/// and no other.
pub proof fn law_sentence_length(kind: LintKind, rows: Seq<Seq<char>>, config: ConfigModel)
    ensures
        ({
            let given = engine::sentences_of(kind, rows);
            let got = engine::sentence_length(kind, rows, config);
            match types::resolved(config.rules, "sentence-length"@) {
                Some(severity) => got == lists::collected(
                    given.len(),
                    |k: int| sentence_finding(given[k], word_cap(config), severity),
                ),
                None => got.len() == 0,
            }
        }),
{
    let given = engine::sentences_of(kind, rows);
    if let Some(severity) = types::resolved(config.rules, "sentence-length"@) {
        lemma_long_sentences(given, word_cap(config), severity, given.len() as int);
    }
}

// ── Paragraphs ─────────────────────────────────────────────────────────────

/// The most sentences a paragraph may have: as configured, or 6 in prose.
/// Zero means that there is no cap.
pub open spec fn sentence_cap(kind: LintKind, config: ConfigModel) -> nat {
    match config.max_paragraph_sentences {
        Some(n) => n as nat,
        None => match kind {
            LintKind::ProseFile => 6,
            LintKind::CommitMessage => 6,
            LintKind::SlashSource => 0,
            LintKind::HashSource => 0,
        },
    }
}

/// What is said of a paragraph with too many sentences.
pub open spec fn paragraph_message(p: ParagraphModel, cap: nat) -> Seq<char> {
    "Paragraph has "@ + text::decimal(p.sentences.len()) + " sentences; the maximum is "@
        + text::decimal(cap) + "."@
}

/// What the rule `paragraph-length` has to find in one paragraph.
pub open spec fn paragraph_finding(p: ParagraphModel, cap: nat, severity: Severity) -> Seq<
    ViolationModel,
> {
    if cap == 0 || p.sentences.len() <= cap {
        Seq::empty()
    } else {
        one("paragraph-length"@, severity, paragraph_message(p, cap), p.line, p.column)
    }
}

proof fn lemma_long_paragraphs(given: Seq<ParagraphModel>, cap: nat, severity: Severity, n: int)
    requires
        0 <= n <= given.len(),
    ensures
        engine::long_paragraphs_to(given, cap, severity, n) == lists::collected(
            n as nat,
            |k: int| paragraph_finding(given[k], cap, severity),
        ),
    decreases n,
{
    let f = |k: int| paragraph_finding(given[k], cap, severity);
    lists::lemma_collected(n as nat, f);
    if n > 0 {
        lemma_long_paragraphs(given, cap, severity, n - 1);
        let before = engine::long_paragraphs_to(given, cap, severity, n - 1);
        assert(f(n - 1) == paragraph_finding(given[n - 1], cap, severity));
        assert(engine::long_paragraphs_to(given, cap, severity, n) =~= before + f(n - 1));
    }
}

/// The rule `paragraph-length` finds one violation for each paragraph with
/// more sentences than the cap, at the line and column of the paragraph, in
/// their order, and no other.
pub proof fn law_paragraph_length(kind: LintKind, rows: Seq<Seq<char>>, config: ConfigModel)
    ensures
        ({
            let given = engine::paragraphs_of(kind, rows);
            let got = engine::paragraph_length(kind, rows, config);
            match types::resolved(config.rules, "paragraph-length"@) {
                Some(severity) => got == lists::collected(
                    given.len(),
                    |k: int| paragraph_finding(given[k], sentence_cap(kind, config), severity),
                ),
                None => got.len() == 0,
            }
        }),
{
    let given = engine::paragraphs_of(kind, rows);
    if let Some(severity) = types::resolved(config.rules, "paragraph-length"@) {
        lemma_long_paragraphs(given, sentence_cap(kind, config), severity, given.len() as int);
    }
}

// ── Contractions ───────────────────────────────────────────────────────────

/// What the rule `contraction` has to find on one line, given what the two
/// patterns match there. A line without an apostrophe holds no contraction.
pub open spec fn contraction_findings(s: Seq<char>, line: int, severity: Severity) -> Seq<
    ViolationModel,
> {
    let all = foreign::regex_matches(foreign::CONTRACTION_RE@, s) + foreign::regex_matches(
        foreign::CONTRACTION_S_RE@,
        s,
    );
    if exists|i: int| 0 <= i < s.len() && (#[trigger] s[i] == '\'' || s[i] == '\u{2019}') {
        lists::collected(
            all.len(),
            |k: int|
                one(
                    "contraction"@,
                    severity,
                    "Do not use a contraction. Write the words in full. Found \""@ + all[k].1
                        + "\"."@,
                    line,
                    all[k].0 as int + 1,
                ),
        )
    } else {
        Seq::empty()
    }
}

/// Lists of one element each.
proof fn lemma_ones<A>(v: Seq<A>, n: nat, f: spec_fn(int) -> Seq<A>)
    requires
        v.len() == n,
        forall|k: int| 0 <= k < n ==> #[trigger] f(k) == seq![v[k]],
    ensures
        lists::collected(n, f) == v,
    decreases n,
{
    lists::lemma_collected(n, f);
    if n > 0 {
        lemma_ones(v.drop_last(), (n - 1) as nat, f);
        assert(f(n - 1) == seq![v[n - 1]]);
        assert(v =~= v.drop_last() + seq![v[n - 1]]);
    } else {
        assert(lists::collected(n, f) =~= v);
    }
}

proof fn lemma_contractions_on(s: Seq<char>, line: int, severity: Severity)
    ensures
        rules::contractions_at(rules::contractions_in(s), line, severity) == contraction_findings(
            s,
            line,
            severity,
        ),
{
    let all = foreign::regex_matches(foreign::CONTRACTION_RE@, s) + foreign::regex_matches(
        foreign::CONTRACTION_S_RE@,
        s,
    );
    let f = |k: int|
        one(
            "contraction"@,
            severity,
            "Do not use a contraction. Write the words in full. Found \""@ + all[k].1 + "\"."@,
            line,
            all[k].0 as int + 1,
        );
    let got = rules::contractions_at(rules::contractions_in(s), line, severity);
    let marked = exists|i: int|
        0 <= i < s.len() && (#[trigger] s[i] == '\'' || s[i] == '\u{2019}');
    assert(rules::has_apostrophe(s) == marked) by {
        if s.contains('\'') {
            let i = choose|i: int| 0 <= i < s.len() && s[i] == '\'';
            assert(s[i] == '\'');
        }
        if s.contains('\u{2019}') {
            let i = choose|i: int| 0 <= i < s.len() && s[i] == '\u{2019}';
            assert(s[i] == '\u{2019}');
        }
    }
    if marked {
        lemma_ones(got, all.len(), f);
    } else {
        assert(got =~= Seq::<ViolationModel>::empty());
    }
}

proof fn lemma_contractions(rows: Seq<Seq<char>>, severity: Severity, n: int)
    requires
        0 <= n <= rows.len(),
    ensures
        rules::contractions_to(rows, severity, n) == lists::collected(
            n as nat,
            |k: int| contraction_findings(rows[k], k + 1, severity),
        ),
    decreases n,
{
    let f = |k: int| contraction_findings(rows[k], k + 1, severity);
    lists::lemma_collected(n as nat, f);
    if n > 0 {
        lemma_contractions(rows, severity, n - 1);
        lemma_contractions_on(rows[n - 1], n, severity);
    }
}

/// The rule `contraction` finds one violation for each match, line by line.
pub proof fn law_contraction(rows: Seq<Seq<char>>, config: ConfigModel)
    ensures
        match types::resolved(config.rules, "contraction"@) {
            Some(severity) => engine::contraction(rows, config) == lists::collected(
                rows.len(),
                |k: int| contraction_findings(rows[k], k + 1, severity),
            ),
            None => engine::contraction(rows, config).len() == 0,
        },
{
    if let Some(severity) = types::resolved(config.rules, "contraction"@) {
        lemma_contractions(rows, severity, rows.len() as int);
    }
}

// ── Semicolons ─────────────────────────────────────────────────────────────

/// What the rule `semicolon` has to find at one character.
pub open spec fn semicolon_finding(s: Seq<char>, i: int, line: int, severity: Severity) -> Seq<
    ViolationModel,
> {
    if s[i] != ';' {
        Seq::empty()
    } else {
        one(
            "semicolon"@,
            severity,
            "Do not use a semicolon in prose. Write two sentences."@,
            line,
            text::byte_offset(s, i) as int + 1,
        )
    }
}

/// What the rule `semicolon` has to find on one line.
pub open spec fn semicolon_findings(s: Seq<char>, line: int, severity: Severity) -> Seq<
    ViolationModel,
> {
    lists::collected(s.len(), |i: int| semicolon_finding(s, i, line, severity))
}

proof fn lemma_semicolons_on(s: Seq<char>, line: int, severity: Severity, n: int)
    requires
        0 <= n <= s.len(),
    ensures
        rules::semicolons_at(foreign::places_of(s, ';', n), line, severity) == lists::collected(
            n as nat,
            |i: int| semicolon_finding(s, i, line, severity),
        ),
    decreases n,
{
    let f = |i: int| semicolon_finding(s, i, line, severity);
    lists::lemma_collected(n as nat, f);
    let got = rules::semicolons_at(foreign::places_of(s, ';', n), line, severity);
    if n > 0 {
        lemma_semicolons_on(s, line, severity, n - 1);
        let before = rules::semicolons_at(foreign::places_of(s, ';', n - 1), line, severity);
        assert(f(n - 1) == semicolon_finding(s, n - 1, line, severity));
        assert(got =~= before + f(n - 1));
    } else {
        assert(got =~= lists::collected(0, f));
    }
}

proof fn lemma_semicolons(rows: Seq<Seq<char>>, severity: Severity, n: int)
    requires
        0 <= n <= rows.len(),
    ensures
        rules::semicolons_to(rows, severity, n) == lists::collected(
            n as nat,
            |k: int| semicolon_findings(rows[k], k + 1, severity),
        ),
    decreases n,
{
    let f = |k: int| semicolon_findings(rows[k], k + 1, severity);
    lists::lemma_collected(n as nat, f);
    if n > 0 {
        lemma_semicolons(rows, severity, n - 1);
        lemma_semicolons_on(rows[n - 1], n, severity, rows[n - 1].len() as int);
    }
}

/// The rule `semicolon` finds one violation for each semicolon of prose, at
/// its line and column. It finds none in source code.
pub proof fn law_semicolon(kind: LintKind, rows: Seq<Seq<char>>, config: ConfigModel)
    ensures
        match types::resolved(config.rules, "semicolon"@) {
            Some(severity) => if kind is ProseFile || kind is CommitMessage {
                engine::semicolon(kind, rows, config) == lists::collected(
                    rows.len(),
                    |k: int| semicolon_findings(rows[k], k + 1, severity),
                )
            } else {
                engine::semicolon(kind, rows, config).len() == 0
            },
            None => engine::semicolon(kind, rows, config).len() == 0,
        },
{
    if let Some(severity) = types::resolved(config.rules, "semicolon"@) {
        lemma_semicolons(rows, severity, rows.len() as int);
    }
}

// ── Words and phrases ──────────────────────────────────────────────────────

/// The characters from `i` to `j`, each in lower case.
pub open spec fn in_lower_case(s: Seq<char>, i: int, j: int) -> Seq<char> {
    lists::collected((j - i) as nat, |k: int| text::lowered(seq![s[i + k]]))
}

/// A letter or a digit stands at `i`.
pub open spec fn has_letter(s: Seq<char>, i: int) -> bool {
    0 <= i < s.len() && text::is_alnum(s[i])
}

/// The stretch from `i` to `j` reads like the phrase in lower case, and no
/// letter or digit follows it.
pub open spec fn reads_like(s: Seq<char>, phrase: Seq<char>, i: int, j: int) -> bool {
    &&& in_lower_case(s, i, j) == in_lower_case(phrase, 0, phrase.len() as int)
    &&& !has_letter(s, j)
}

/// The phrase stands at `i`, in any case, with no letter or digit right
/// before or after it. A blank line holds no phrase.
pub open spec fn is_phrase_at(s: Seq<char>, phrase: Seq<char>, i: int) -> bool {
    &&& !text::is_blank(s)
    &&& !has_letter(s, i - 1)
    &&& exists|j: int| i <= j <= s.len() && #[trigger] reads_like(s, phrase, i, j)
}

/// What a rule with a word list has to find at one character.
pub open spec fn phrase_finding(
    s: Seq<char>,
    i: int,
    rule_id: Seq<char>,
    severity: Severity,
    phrase: Seq<char>,
    suggestion: Seq<char>,
    line: int,
) -> Seq<ViolationModel> {
    if !is_phrase_at(s, phrase, i) {
        Seq::empty()
    } else {
        seq![
            ViolationModel {
                rule_id,
                severity,
                message: "Use an approved word instead of \""@ + phrase + "\"."@,
                suggestions: Some(seq![suggestion]),
                line,
                column: text::byte_offset(s, i) as int + 1,
            },
        ]
    }
}

/// What a rule with a word list has to find of one phrase on one line.
pub open spec fn phrase_findings(
    s: Seq<char>,
    rule_id: Seq<char>,
    severity: Severity,
    phrase: Seq<char>,
    suggestion: Seq<char>,
    line: int,
) -> Seq<ViolationModel> {
    lists::collected(
        s.len(),
        |i: int| phrase_finding(s, i, rule_id, severity, phrase, suggestion, line),
    )
}

/// What a rule with a word list has to find of one entry: its phrases one
/// after the other, each on all lines. The first suggestion of the entry is
/// given, or `delete` when it has none.
pub open spec fn entry_findings(
    rows: Seq<Seq<char>>,
    rule_id: Seq<char>,
    severity: Severity,
    entry: EntryModel,
) -> Seq<ViolationModel> {
    let suggestion = if entry.suggestions.len() == 0 {
        "delete"@
    } else {
        entry.suggestions[0]
    };
    lists::collected(
        entry.unapproved.len(),
        |w: int|
            lists::collected(
                rows.len(),
                |k: int|
                    phrase_findings(
                        rows[k],
                        rule_id,
                        severity,
                        entry.unapproved[w],
                        suggestion,
                        k + 1,
                    ),
            ),
    )
}

proof fn lemma_reading(s: Seq<char>, i: int, j: int)
    requires
        0 <= i <= j <= s.len(),
    ensures
        rules::reading(rules::folds(s), i, j) == in_lower_case(s, i, j),
    decreases j - i,
{
    let f = |k: int| text::lowered(seq![s[i + k]]);
    lists::lemma_collected((j - i) as nat, f);
    if i < j {
        lemma_reading(s, i, j - 1);
        assert(f(j - i - 1) == rules::folds(s)[j - 1]);
    } else {
        assert(in_lower_case(s, i, j) =~= Seq::<char>::empty());
    }
}

proof fn lemma_stands_at(s: Seq<char>, phrase: Seq<char>, i: int)
    requires
        0 <= i < s.len(),
        !text::is_blank(s),
    ensures
        rules::stands_at(s, rules::folds(s), rules::folded(phrase), i) == is_phrase_at(
            s,
            phrase,
            i,
        ),
{
    lemma_reading(phrase, 0, phrase.len() as int);
    let lowered = rules::folds(s);
    let p = rules::folded(phrase);
    if rules::stands_at(s, lowered, p, i) {
        let j = choose|j: int| i <= j <= s.len() && #[trigger] rules::ends_at(s, lowered, p, i, j);
        lemma_reading(s, i, j);
        assert(reads_like(s, phrase, i, j));
    }
    if is_phrase_at(s, phrase, i) {
        let j = choose|j: int| i <= j <= s.len() && #[trigger] reads_like(s, phrase, i, j);
        lemma_reading(s, i, j);
        assert(rules::ends_at(s, lowered, p, i, j));
    }
}

proof fn lemma_columns(
    s: Seq<char>,
    rule_id: Seq<char>,
    severity: Severity,
    phrase: Seq<char>,
    suggestion: Seq<char>,
    line: int,
    n: int,
)
    requires
        0 <= n <= s.len(),
        !text::is_blank(s),
    ensures
        ({
            let columns = rules::columns_to(s, rules::folds(s), rules::folded(phrase), n);
            Seq::new(
                columns.len(),
                |k: int|
                    rules::phrase_violation(
                        rule_id,
                        severity,
                        phrase,
                        suggestion,
                        line,
                        columns[k],
                    ),
            ) == lists::collected(
                n as nat,
                |i: int| phrase_finding(s, i, rule_id, severity, phrase, suggestion, line),
            )
        }),
    decreases n,
{
    let f = |i: int| phrase_finding(s, i, rule_id, severity, phrase, suggestion, line);
    lists::lemma_collected(n as nat, f);
    let columns = rules::columns_to(s, rules::folds(s), rules::folded(phrase), n);
    let got = Seq::new(
        columns.len(),
        |k: int|
            rules::phrase_violation(rule_id, severity, phrase, suggestion, line, columns[k]),
    );
    if n > 0 {
        lemma_columns(s, rule_id, severity, phrase, suggestion, line, n - 1);
        lemma_stands_at(s, phrase, n - 1);
        let c = rules::columns_to(s, rules::folds(s), rules::folded(phrase), n - 1);
        let before = Seq::new(
            c.len(),
            |k: int| rules::phrase_violation(rule_id, severity, phrase, suggestion, line, c[k]),
        );
        assert(f(n - 1) == phrase_finding(
            s,
            n - 1,
            rule_id,
            severity,
            phrase,
            suggestion,
            line,
        ));
        assert(got =~= before + f(n - 1));
    } else {
        assert(got =~= lists::collected(0, f));
    }
}

proof fn lemma_nothing<A>(n: nat, f: spec_fn(int) -> Seq<A>)
    requires
        forall|k: int| 0 <= k < n ==> (#[trigger] f(k)).len() == 0,
    ensures
        lists::collected(n, f).len() == 0,
    decreases n,
{
    lists::lemma_collected(n, f);
    if n > 0 {
        lemma_nothing((n - 1) as nat, f);
        assert(f(n - 1).len() == 0);
    }
}

proof fn lemma_phrase(
    rows: Seq<Seq<char>>,
    rule_id: Seq<char>,
    severity: Severity,
    phrase: Seq<char>,
    suggestion: Seq<char>,
    n: int,
)
    requires
        0 <= n <= rows.len(),
    ensures
        rules::phrase_to(rows, rule_id, severity, phrase, suggestion, n) == lists::collected(
            n as nat,
            |k: int| phrase_findings(rows[k], rule_id, severity, phrase, suggestion, k + 1),
        ),
    decreases n,
{
    let f = |k: int| phrase_findings(rows[k], rule_id, severity, phrase, suggestion, k + 1);
    lists::lemma_collected(n as nat, f);
    if n > 0 {
        lemma_phrase(rows, rule_id, severity, phrase, suggestion, n - 1);
        let s = rows[n - 1];
        let columns = rules::columns_of(s, phrase);
        let got = Seq::new(
            columns.len(),
            |k: int| rules::phrase_violation(rule_id, severity, phrase, suggestion, n, columns[k]),
        );
        assert(f(n - 1) == phrase_findings(s, rule_id, severity, phrase, suggestion, n));
        if text::is_blank(s) {
            let g = |i: int| phrase_finding(s, i, rule_id, severity, phrase, suggestion, n);
            lemma_nothing(s.len(), g);
            assert(got =~= f(n - 1));
        } else {
            lemma_columns(s, rule_id, severity, phrase, suggestion, n, s.len() as int);
            assert(got =~= f(n - 1));
        }
    }
}

proof fn lemma_entry(
    rows: Seq<Seq<char>>,
    rule_id: Seq<char>,
    severity: Severity,
    entry: EntryModel,
    n: int,
)
    requires
        0 <= n <= entry.unapproved.len(),
    ensures
        rules::entry_to(rows, rule_id, severity, entry, n) == lists::collected(
            n as nat,
            |w: int|
                lists::collected(
                    rows.len(),
                    |k: int|
                        phrase_findings(
                            rows[k],
                            rule_id,
                            severity,
                            entry.unapproved[w],
                            rules::suggestion_of(entry),
                            k + 1,
                        ),
                ),
        ),
    decreases n,
{
    let f = |w: int|
        lists::collected(
            rows.len(),
            |k: int|
                phrase_findings(
                    rows[k],
                    rule_id,
                    severity,
                    entry.unapproved[w],
                    rules::suggestion_of(entry),
                    k + 1,
                ),
        );
    lists::lemma_collected(n as nat, f);
    if n > 0 {
        lemma_entry(rows, rule_id, severity, entry, n - 1);
        lemma_phrase(
            rows,
            rule_id,
            severity,
            entry.unapproved[n - 1],
            rules::suggestion_of(entry),
            rows.len() as int,
        );
    }
}

proof fn lemma_entries(
    rows: Seq<Seq<char>>,
    rule_id: Seq<char>,
    severity: Severity,
    entries: Seq<EntryModel>,
    n: int,
)
    requires
        0 <= n <= entries.len(),
    ensures
        rules::entries_to(rows, rule_id, severity, entries, n) == lists::collected(
            n as nat,
            |e: int| entry_findings(rows, rule_id, severity, entries[e]),
        ),
    decreases n,
{
    let f = |e: int| entry_findings(rows, rule_id, severity, entries[e]);
    lists::lemma_collected(n as nat, f);
    if n > 0 {
        lemma_entries(rows, rule_id, severity, entries, n - 1);
        let entry = entries[n - 1];
        lemma_entry(rows, rule_id, severity, entry, entry.unapproved.len() as int);
        assert(f(n - 1) == entry_findings(rows, rule_id, severity, entry));
    }
}

/// What a rule with a word list has to find.
pub open spec fn list_findings(
    rows: Seq<Seq<char>>,
    config: ConfigModel,
    rule_id: Seq<char>,
    entries: Seq<EntryModel>,
) -> Seq<ViolationModel> {
    match types::resolved(config.rules, rule_id) {
        Some(severity) => lists::collected(
            entries.len(),
            |e: int| entry_findings(rows, rule_id, severity, entries[e]),
        ),
        None => Seq::empty(),
    }
}

/// Each rule with a word list finds every phrase of its list wherever it
/// stands, in any case, and nothing else.
pub proof fn law_word_lists(rows: Seq<Seq<char>>, config: ConfigModel)
    ensures
        engine::phrasal_verb(rows, config) == list_findings(
            rows,
            config,
            "phrasal-verb"@,
            dictionaries::phrasal_verb_entries(),
        ),
        engine::hedging(rows, config) == list_findings(
            rows,
            config,
            "hedging"@,
            dictionaries::hedging_entries(),
        ),
        engine::marketing(rows, config) == list_findings(
            rows,
            config,
            "marketing"@,
            dictionaries::marketing_entries(),
        ),
        engine::ste_dictionary(rows, config) == list_findings(
            rows,
            config,
            "dictionary-not-approved-word"@,
            dictionaries::ste_dictionary_entries(),
        ),
{
    lemma_list(rows, config, "phrasal-verb"@, dictionaries::phrasal_verb_entries());
    lemma_list(rows, config, "hedging"@, dictionaries::hedging_entries());
    lemma_list(rows, config, "marketing"@, dictionaries::marketing_entries());
    lemma_list(
        rows,
        config,
        "dictionary-not-approved-word"@,
        dictionaries::ste_dictionary_entries(),
    );
}

proof fn lemma_list(
    rows: Seq<Seq<char>>,
    config: ConfigModel,
    rule_id: Seq<char>,
    entries: Seq<EntryModel>,
)
    ensures
        types::resolved(config.rules, rule_id) matches Some(severity) ==> rules::phrases(
            rows,
            rule_id,
            severity,
            entries,
        ) == list_findings(rows, config, rule_id, entries),
{
    if let Some(severity) = types::resolved(config.rules, rule_id) {
        lemma_entries(rows, rule_id, severity, entries, entries.len() as int);
    }
}

// ── Suppression directives ─────────────────────────────────────────────────

/// A character between the names of a directive: white space, a comma or a
/// colon.
pub open spec fn is_name_gap(c: char) -> bool {
    text::is_white(c) || c == ',' || c == ':'
}

/// A text without gaps.
pub open spec fn is_name(s: Seq<char>) -> bool {
    s.len() > 0 && forall|i: int| 0 <= i < s.len() ==> !is_name_gap(#[trigger] s[i])
}

proof fn lemma_names_shift(s: Seq<char>, t: Seq<char>, off: int, start: int, i: int)
    requires
        0 <= off,
        0 <= start <= i <= t.len(),
        s.len() == off + t.len(),
        forall|k: int| 0 <= k < t.len() ==> s[off + k] == t[k],
    ensures
        rules::names_from(s, off + start, off + i) == rules::names_from(t, start, i),
    decreases t.len() - i,
{
    if i < t.len() {
        assert(s[off + i] == t[i]);
        lemma_names_shift(s, t, off, i + 1, i + 1);
        lemma_names_shift(s, t, off, start, i + 1);
        assert(s.subrange(off + start, off + i) =~= t.subrange(start, i));
    } else {
        assert(s.subrange(off + start, s.len() as int) =~= t.subrange(start, t.len() as int));
    }
}

proof fn lemma_names_concat(a: Seq<char>, c: char, b: Seq<char>, start: int, i: int)
    requires
        0 <= start <= i <= a.len(),
        is_name_gap(c),
    ensures
        rules::names_from(a + seq![c] + b, start, i) == rules::names_from(a, start, i)
            + rules::names(b),
    decreases a.len() - i,
{
    let s = a + seq![c] + b;
    let n = a.len() as int;
    if i < n {
        assert(s[i] == a[i]);
        lemma_names_concat(a, c, b, i + 1, i + 1);
        lemma_names_concat(a, c, b, start, i + 1);
        assert(s.subrange(start, i) =~= a.subrange(start, i));
        let head = rules::nonempty(a.subrange(start, i));
        let more = rules::names_from(a, i + 1, i + 1);
        assert(head + (more + rules::names(b)) =~= head + more + rules::names(b));
    } else {
        assert(s[n] == c);
        lemma_names_shift(s, b, n + 1, 0, 0);
        assert(s.subrange(start, n) =~= a.subrange(start, n));
    }
}

proof fn lemma_one_name(s: Seq<char>, i: int)
    requires
        is_name(s),
        0 <= i <= s.len(),
    ensures
        rules::names_from(s, 0, i) == seq![s],
    decreases s.len() - i,
{
    if i < s.len() {
        assert(!is_name_gap(s[i]));
        lemma_one_name(s, i + 1);
    } else {
        assert(s.subrange(0, s.len() as int) =~= s);
    }
}

/// A directive lists names with gaps between them. A text without gaps is one
/// name. The names of two texts with a gap between them are those of the one
/// and those of the other.
pub proof fn law_names(a: Seq<char>, c: char, b: Seq<char>)
    requires
        is_name_gap(c),
    ensures
        rules::names(Seq::empty()).len() == 0,
        is_name(a) ==> rules::names(a) == seq![a],
        rules::names(a + seq![c] + b) == rules::names(a) + rules::names(b),
{
    if is_name(a) {
        lemma_one_name(a, 0);
    }
    lemma_names_concat(a, c, b, 0, 0);
}

/// The rules that a directive may name.
pub open spec fn is_registered(name: Seq<char>) -> bool {
    ||| name == "contraction"@
    ||| name == "dictionary-not-approved-word"@
    ||| name == "hedging"@
    ||| name == "invalid-suppression"@
    ||| name == "marketing"@
    ||| name == "paragraph-length"@
    ||| name == "phrasal-verb"@
    ||| name == "semicolon"@
    ||| name == "sentence-length"@
    ||| name == "verb-progressive"@
    ||| name == "verb-passive"@
    ||| name == "verb-perfect"@
}

proof fn lemma_registered(name: Seq<char>)
    ensures
        dictionaries::strs(rules::REGISTERED_RULE_IDS@).contains(name) <==> is_registered(name),
{
    let all = dictionaries::strs(rules::REGISTERED_RULE_IDS@);
    assert(all.len() == 12);
    assert(all[0] == "contraction"@);
    assert(all[1] == "dictionary-not-approved-word"@);
    assert(all[2] == "hedging"@);
    assert(all[3] == "invalid-suppression"@);
    assert(all[4] == "marketing"@);
    assert(all[5] == "paragraph-length"@);
    assert(all[6] == "phrasal-verb"@);
    assert(all[7] == "semicolon"@);
    assert(all[8] == "sentence-length"@);
    assert(all[9] == "verb-progressive"@);
    assert(all[10] == "verb-passive"@);
    assert(all[11] == "verb-perfect"@);
}

/// The text after the first `ste-disable-next-line` of a line.
pub open spec fn directive_text(s: Seq<char>) -> Seq<char> {
    let at = text::find_from(s, "ste-disable-next-line"@, 0)->0;
    s.skip(at + "ste-disable-next-line"@.len())
}

/// The names of a directive that are not the marker itself.
pub open spec fn directive_rules(s: Seq<char>) -> Seq<Seq<char>> {
    rules::names(directive_text(s)).filter(|n: Seq<char>| n != "ste-disable-next-line"@)
}

/// The names in double quotes, with a comma and a space between them.
pub open spec fn quoted_list(v: Seq<Seq<char>>) -> Seq<char> {
    lines::join(Seq::new(v.len(), |i: int| seq!['"'] + v[i] + seq!['"']), ", "@)
}

/// What the rule `invalid-suppression` has to find on one line.
pub open spec fn directive_findings(s: Seq<char>, line: int, severity: Severity) -> Seq<
    ViolationModel,
> {
    let column = text::byte_offset(s, text::find_from(s, "ste-disable-next-line"@, 0)->0) as int
        + 1;
    let given = directive_rules(s);
    let unknown = given.filter(|n: Seq<char>| !is_registered(n));
    if !text::contains(s, "ste-disable-next-line"@) {
        Seq::empty()
    } else if given.len() == 0 {
        one(
            "invalid-suppression"@,
            severity,
            "Suppression directive must name at least one rule id."@,
            line,
            column,
        )
    } else if unknown.len() > 0 {
        one(
            "invalid-suppression"@,
            severity,
            "Suppression directive names unknown rule ids: "@ + quoted_list(unknown) + "."@,
            line,
            column,
        )
    } else {
        Seq::empty()
    }
}

proof fn lemma_rules_to(names: Seq<Seq<char>>, n: int)
    requires
        0 <= n <= names.len(),
    ensures
        rules::rules_to(names, n) == names.take(n).filter(
            |x: Seq<char>| x != "ste-disable-next-line"@,
        ),
    decreases n,
{
    reveal(Seq::filter);
    if n > 0 {
        lemma_rules_to(names, n - 1);
        assert(names.take(n).drop_last() =~= names.take(n - 1));
    }
}

proof fn lemma_unknown_to(names: Seq<Seq<char>>, n: int)
    requires
        0 <= n <= names.len(),
    ensures
        rules::unknown_to(names, dictionaries::strs(rules::REGISTERED_RULE_IDS@), n) == names.take(
            n,
        ).filter(|x: Seq<char>| !is_registered(x)),
    decreases n,
{
    reveal(Seq::filter);
    if n > 0 {
        lemma_unknown_to(names, n - 1);
        lemma_registered(names[n - 1]);
        assert(names.take(n).drop_last() =~= names.take(n - 1));
    }
}

proof fn lemma_directive(s: Seq<char>, line: int, severity: Severity)
    ensures
        rules::suppression_at(
            s,
            dictionaries::strs(rules::REGISTERED_RULE_IDS@),
            severity,
            line,
        ) == directive_findings(s, line, severity),
{
    text::lemma_find_from(s, "ste-disable-next-line"@, 0);
    let all = rules::names(directive_text(s));
    lemma_rules_to(all, all.len() as int);
    assert(all.take(all.len() as int) =~= all);
    let given = directive_rules(s);
    lemma_unknown_to(given, given.len() as int);
    assert(given.take(given.len() as int) =~= given);
    let bad = given.filter(|n: Seq<char>| !is_registered(n));
    reveal_strlit("\"");
    assert("\""@ =~= seq!['"']);
    assert(rules::all_quoted(bad) =~= Seq::new(bad.len(), |i: int| seq!['"'] + bad[i] + seq!['"']));
}

proof fn lemma_directives(rows: Seq<Seq<char>>, severity: Severity, n: int)
    requires
        0 <= n <= rows.len(),
    ensures
        rules::suppression_to(
            rows,
            dictionaries::strs(rules::REGISTERED_RULE_IDS@),
            severity,
            n,
        ) == lists::collected(
            n as nat,
            |k: int| directive_findings(rows[k], k + 1, severity),
        ),
    decreases n,
{
    let f = |k: int| directive_findings(rows[k], k + 1, severity);
    lists::lemma_collected(n as nat, f);
    if n > 0 {
        lemma_directives(rows, severity, n - 1);
        lemma_directive(rows[n - 1], n, severity);
    }
}

/// The rule `invalid-suppression` finds each directive that names no rule or
/// an unknown one, and nothing else.
pub proof fn law_invalid_suppression(rows: Seq<Seq<char>>, config: ConfigModel)
    ensures
        match types::resolved(config.rules, "invalid-suppression"@) {
            Some(severity) => engine::invalid_suppression(rows, config) == lists::collected(
                rows.len(),
                |k: int| directive_findings(rows[k], k + 1, severity),
            ),
            None => engine::invalid_suppression(rows, config).len() == 0,
        },
{
    if let Some(severity) = types::resolved(config.rules, "invalid-suppression"@) {
        lemma_directives(rows, severity, rows.len() as int);
    }
}

/// A directive on the line right before a violation suppresses it exactly
/// when it names the rule of the violation, and that rule is registered.
pub proof fn law_suppression(rows: Seq<Seq<char>>, v: ViolationModel)
    ensures
        engine::is_suppressed(rows, v) <==> {
            &&& 2 <= v.line <= rows.len() + 1
            &&& text::contains(rows[v.line - 2], "ste-disable-next-line"@)
            &&& rules::names(directive_text(rows[v.line - 2])).contains(v.rule_id)
            &&& is_registered(v.rule_id)
        },
{
    lemma_registered(v.rule_id);
    if 2 <= v.line <= rows.len() + 1 {
        text::lemma_find_from(rows[v.line - 2], "ste-disable-next-line"@, 0);
    }
}

} // verus!

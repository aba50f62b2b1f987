//! Laws of lint reports.

use vstd::prelude::*;

use crate::dictionaries;
use crate::engine;
use crate::foreign;
use crate::lines;
use crate::prose;
use crate::rules;
use crate::sentences;
use crate::text;
use crate::types;
use crate::types::{ConfigModel, LintKind, ParagraphModel, SentenceModel, Severity, ViolationModel};

verus! {

// ── Order ──────────────────────────────────────────────────────────────────

proof fn lemma_slot(v: Seq<ViolationModel>, x: ViolationModel, p: int)
    requires
        0 <= p <= v.len(),
    ensures
        0 <= engine::slot(v, x, p) <= p,
        forall|k: int| engine::slot(v, x, p) <= k < p ==> engine::is_after(#[trigger] v[k], x),
        engine::slot(v, x, p) > 0 ==> !engine::is_after(v[engine::slot(v, x, p) - 1], x),
    decreases p,
{
    if p > 0 && engine::is_after(v[p - 1], x) {
        lemma_slot(v, x, p - 1);
    }
}

proof fn lemma_sorted_len(v: Seq<ViolationModel>, n: int)
    requires
        0 <= n <= v.len(),
    ensures
        engine::sorted_to(v, n).len() == n,
    decreases n,
{
    if n > 0 {
        lemma_sorted_len(v, n - 1);
        let before = engine::sorted_to(v, n - 1);
        lemma_slot(before, v[n - 1], before.len() as int);
    }
}

/// A list in the order of the text.
pub open spec fn is_sorted(v: Seq<ViolationModel>) -> bool {
    forall|i: int, j: int|
        0 <= i < j < v.len() ==> !engine::is_after(#[trigger] v[i], #[trigger] v[j])
}

proof fn lemma_sorted(v: Seq<ViolationModel>, n: int)
    requires
        0 <= n <= v.len(),
    ensures
        is_sorted(engine::sorted_to(v, n)),
    decreases n,
{
    if n > 0 {
        lemma_sorted(v, n - 1);
        let before = engine::sorted_to(v, n - 1);
        let x = v[n - 1];
        let p = engine::slot(before, x, before.len() as int);
        lemma_slot(before, x, before.len() as int);
        let all = before.insert(p, x);
        assert forall|i: int, j: int| 0 <= i < j < all.len() implies !engine::is_after(
            #[trigger] all[i],
            #[trigger] all[j],
        ) by {
            if i < p && j == p {
                assert(!engine::is_after(before[i], before[p - 1]) || i == p - 1);
            } else if i == p {
                assert(engine::is_after(before[j - 1], x));
            } else if i < p && j > p {
                assert(!engine::is_after(before[i], before[j - 1]));
            } else if i > p {
                assert(!engine::is_after(before[i - 1], before[j - 1]));
            } else {
                assert(!engine::is_after(before[i], before[j]));
            }
        }
    }
}

/// Sorting loses nothing and adds nothing.
pub proof fn law_sorting_keeps_everything(v: Seq<ViolationModel>, n: int)
    requires
        0 <= n <= v.len(),
    ensures
        engine::sorted_to(v, n).to_multiset() == v.take(n).to_multiset(),
    decreases n,
{
    if n > 0 {
        law_sorting_keeps_everything(v, n - 1);
        let before = engine::sorted_to(v, n - 1);
        let x = v[n - 1];
        lemma_slot(before, x, before.len() as int);
        vstd::seq_lib::to_multiset_insert(
            before,
            engine::slot(before, x, before.len() as int),
            x,
        );
        assert(v.take(n) =~= v.take(n - 1).push(x));
        vstd::seq_lib::to_multiset_build(v.take(n - 1), x);
    } else {
        assert(v.take(0) =~= Seq::<ViolationModel>::empty());
    }
}

/// Those of the first `n` violations that stand at one place.
pub open spec fn at_place(v: Seq<ViolationModel>, line: int, column: int, n: int) -> Seq<
    ViolationModel,
>
    decreases n,
{
    if n <= 0 {
        Seq::empty()
    } else if v[n - 1].line == line && v[n - 1].column == column {
        at_place(v, line, column, n - 1).push(v[n - 1])
    } else {
        at_place(v, line, column, n - 1)
    }
}

proof fn lemma_at_place_prefix(
    a: Seq<ViolationModel>,
    b: Seq<ViolationModel>,
    line: int,
    column: int,
    n: int,
)
    requires
        0 <= n <= a.len(),
        n <= b.len(),
        forall|k: int| 0 <= k < n ==> a[k] == b[k],
    ensures
        at_place(a, line, column, n) == at_place(b, line, column, n),
    decreases n,
{
    if n > 0 {
        lemma_at_place_prefix(a, b, line, column, n - 1);
    }
}

proof fn lemma_at_place_insert(
    v: Seq<ViolationModel>,
    p: int,
    x: ViolationModel,
    line: int,
    column: int,
    n: int,
)
    requires
        0 <= p <= n <= v.len(),
        forall|k: int| p <= k < v.len() ==> engine::is_after(#[trigger] v[k], x),
    ensures
        at_place(v.insert(p, x), line, column, n + 1) == if x.line == line && x.column == column {
            at_place(v, line, column, n).push(x)
        } else {
            at_place(v, line, column, n)
        },
    decreases n,
{
    let all = v.insert(p, x);
    if n == p {
        lemma_at_place_prefix(all, v, line, column, p);
        assert(all[p] == x);
    } else {
        lemma_at_place_insert(v, p, x, line, column, n - 1);
        assert(all[n] == v[n - 1]);
        assert(engine::is_after(v[n - 1], x));
    }
}

/// Violations at one place keep their order.
pub proof fn law_sorting_is_stable(v: Seq<ViolationModel>, n: int, line: int, column: int)
    requires
        0 <= n <= v.len(),
    ensures
        at_place(engine::sorted_to(v, n), line, column, n) == at_place(v, line, column, n),
    decreases n,
{
    if n > 0 {
        law_sorting_is_stable(v, n - 1, line, column);
        let before = engine::sorted_to(v, n - 1);
        lemma_sorted_len(v, n - 1);
        lemma_slot(before, v[n - 1], before.len() as int);
        lemma_at_place_insert(
            before,
            engine::slot(before, v[n - 1], before.len() as int),
            v[n - 1],
            line,
            column,
            n - 1,
        );
    }
}

/// A report lists its violations in the order of the text.
pub proof fn law_report_is_sorted(kind: LintKind, text: Seq<char>, config: ConfigModel)
    ensures
        is_sorted(engine::report(kind, text, config).violations),
{
    let rows = engine::linted(kind, text, config);
    let all = engine::found(kind, rows, config);
    let left = engine::unsuppressed_to(rows, all, all.len() as int);
    lemma_sorted(left, left.len() as int);
}

// ── Where violations stand, and how severe they are ────────────────────────

/// A violation has the severity that its rule resolves to, and stands on a
/// prose line that is not blank.
pub open spec fn is_sound(rows: Seq<Seq<char>>, config: ConfigModel, v: ViolationModel) -> bool {
    &&& types::resolved(config.rules, v.rule_id) == Some(v.severity)
    &&& 1 <= v.line <= rows.len()
    &&& !text::is_blank(rows[v.line - 1])
    &&& v.column >= 1
}

/// All violations of a list are sound.
pub open spec fn all_sound(
    rows: Seq<Seq<char>>,
    config: ConfigModel,
    v: Seq<ViolationModel>,
) -> bool {
    forall|k: int| 0 <= k < v.len() ==> is_sound(rows, config, #[trigger] v[k])
}

/// All violations of a list are of one rule.
pub open spec fn all_of(v: Seq<ViolationModel>, rule_id: Seq<char>) -> bool {
    forall|k: int| 0 <= k < v.len() ==> (#[trigger] v[k]).rule_id == rule_id
}

proof fn lemma_sound_concat(
    rows: Seq<Seq<char>>,
    config: ConfigModel,
    a: Seq<ViolationModel>,
    b: Seq<ViolationModel>,
)
    requires
        all_sound(rows, config, a),
        all_sound(rows, config, b),
    ensures
        all_sound(rows, config, a + b),
        forall|id: Seq<char>|
            #![trigger all_of(a, id), all_of(b, id)]
            all_of(a, id) && all_of(b, id) ==> all_of(a + b, id),
{
    assert forall|k: int| 0 <= k < (a + b).len() implies is_sound(
        rows,
        config,
        #[trigger] (a + b)[k],
    ) by {
        if k < a.len() {
            assert((a + b)[k] == a[k]);
        } else {
            assert((a + b)[k] == b[k - a.len()]);
        }
    }
}

/// The prose lines, as they are joined and split again.
spec fn split_rows(rows: Seq<Seq<char>>) -> Seq<Seq<char>> {
    lines::split(lines::join(rows, "\n"@), '\n')
}

proof fn lemma_split_rows(rows: Seq<Seq<char>>)
    requires
        forall|k: int| 0 <= k < rows.len() ==> !(#[trigger] rows[k]).contains('\n'),
    ensures
        rows.len() > 0 ==> split_rows(rows) == rows,
        rows.len() == 0 ==> split_rows(rows) == seq![Seq::<char>::empty()],
{
    reveal_strlit("\n");
    assert("\n"@ =~= seq!['\n']);
    if rows.len() > 0 {
        lines::law_split_undoes_join(rows, '\n');
    } else {
        let none = Seq::<char>::empty();
        assert(none.subrange(0, 0) =~= none);
        assert(split_rows(rows) =~= seq![none]);
    }
}

proof fn lemma_sentence_rows(rows: Seq<Seq<char>>, s: SentenceModel)
    requires
        forall|k: int| 0 <= k < rows.len() ==> !(#[trigger] rows[k]).contains('\n'),
        sentences::is_placed(split_rows(rows), s),
    ensures
        1 <= s.line <= rows.len(),
        !text::is_blank(rows[s.line - 1]),
        s.column >= 1,
{
    lemma_split_rows(rows);
    let all = split_rows(rows);
    let row = all[s.line - 1];
    let i = choose|i: int|
        #![trigger row[i]]
        0 <= i < row.len() && row[i] == s.text[0] && s.column == text::byte_offset(row, i) + 1;
    assert(!text::is_white(row[i]));
}

proof fn lemma_long_sentences(
    rows: Seq<Seq<char>>,
    config: ConfigModel,
    given: Seq<SentenceModel>,
    max: nat,
    severity: Severity,
    n: int,
)
    requires
        0 <= n <= given.len(),
        types::resolved(config.rules, "sentence-length"@) == Some(severity),
        forall|k: int| 0 <= k < rows.len() ==> !(#[trigger] rows[k]).contains('\n'),
        forall|k: int|
            0 <= k < given.len() ==> sentences::is_placed(split_rows(rows), #[trigger] given[k]),
    ensures
        all_sound(rows, config, engine::long_sentences_to(given, max, severity, n)),
        all_of(engine::long_sentences_to(given, max, severity, n), "sentence-length"@),
    decreases n,
{
    if n > 0 {
        lemma_long_sentences(rows, config, given, max, severity, n - 1);
        lemma_sentence_rows(rows, given[n - 1]);
    }
}

proof fn lemma_first_line(rows: Seq<Seq<char>>, p: int, i: int, k: int)
    requires
        0 <= i <= k < rows.len(),
        sentences::paragraph_of(rows, k) == p,
        !text::is_blank(rows[k]),
    ensures
        1 <= sentences::first_line(rows, p, i) <= rows.len(),
        !text::is_blank(rows[sentences::first_line(rows, p, i) - 1]),
    decreases k - i,
{
    if !(sentences::paragraph_of(rows, i) == p && !text::is_blank(rows[i])) {
        lemma_first_line(rows, p, i + 1, k);
    }
}

proof fn lemma_member_owner(
    rows: Seq<Seq<char>>,
    given: Seq<SentenceModel>,
    p: int,
    n: int,
)
    requires
        0 <= n <= given.len(),
        sentences::members(rows, given, p, n).len() > 0,
    ensures
        exists|j: int| 0 <= j < given.len() && sentences::owner(rows, #[trigger] given[j]) == Some(p),
    decreases n,
{
    if sentences::owner(rows, given[n - 1]) != Some(p) {
        lemma_member_owner(rows, given, p, n - 1);
    }
}

proof fn lemma_paragraph_rows(
    rows: Seq<Seq<char>>,
    given: Seq<SentenceModel>,
    p: int,
    m: ParagraphModel,
)
    requires
        forall|k: int| 0 <= k < rows.len() ==> !(#[trigger] rows[k]).contains('\n'),
        sentences::is_paragraph(split_rows(rows), given, p, m),
    ensures
        1 <= m.line <= rows.len(),
        !text::is_blank(rows[m.line - 1]),
        m.column == 1,
{
    let all = split_rows(rows);
    lemma_split_rows(rows);
    lemma_member_owner(all, given, p, given.len() as int);
    let j = choose|j: int|
        0 <= j < given.len() && sentences::owner(all, #[trigger] given[j]) == Some(p);
    let s = given[j];
    let i = if s.line > 0 {
        s.line - 1
    } else {
        0
    };
    lemma_first_line(all, p, 0, i);
}

proof fn lemma_long_paragraphs(
    rows: Seq<Seq<char>>,
    config: ConfigModel,
    kind: LintKind,
    max: nat,
    severity: Severity,
    n: int,
)
    requires
        0 <= n <= engine::paragraphs_of(kind, rows).len(),
        types::resolved(config.rules, "paragraph-length"@) == Some(severity),
        forall|k: int| 0 <= k < rows.len() ==> !(#[trigger] rows[k]).contains('\n'),
    ensures
        all_sound(
            rows,
            config,
            engine::long_paragraphs_to(engine::paragraphs_of(kind, rows), max, severity, n),
        ),
        all_of(engine::long_paragraphs_to(engine::paragraphs_of(kind, rows), max, severity, n), "paragraph-length"@),
    decreases n,
{
    if n > 0 && max > 0 {
        lemma_long_paragraphs(rows, config, kind, max, severity, n - 1);
        let given = engine::sentences_of(kind, rows);
        let p = sentences::law_paragraphs_hold_their_sentences(
            lines::join(rows, "\n"@),
            given,
            n - 1,
        );
        lemma_paragraph_rows(rows, given, p, engine::paragraphs_of(kind, rows)[n - 1]);
    }
}

proof fn lemma_contractions(rows: Seq<Seq<char>>, config: ConfigModel, severity: Severity, n: int)
    requires
        0 <= n <= rows.len(),
        types::resolved(config.rules, "contraction"@) == Some(severity),
    ensures
        all_sound(rows, config, rules::contractions_to(rows, severity, n)),
        all_of(rules::contractions_to(rows, severity, n), "contraction"@),
    decreases n,
{
    if n > 0 {
        lemma_contractions(rows, config, severity, n - 1);
        let more = rules::contractions_at(rules::contractions_in(rows[n - 1]), n, severity);
        assert(all_of(more, "contraction"@));
        lemma_sound_concat(
            rows,
            config,
            rules::contractions_to(rows, severity, n - 1),
            more,
        );
    }
}

proof fn lemma_places(s: Seq<char>, c: char, n: int)
    requires
        0 <= n <= s.len(),
        foreign::places_of(s, c, n).len() > 0,
    ensures
        s.contains(c),
    decreases n,
{
    if s[n - 1] != c {
        lemma_places(s, c, n - 1);
    }
}

proof fn lemma_semicolons(rows: Seq<Seq<char>>, config: ConfigModel, severity: Severity, n: int)
    requires
        0 <= n <= rows.len(),
        types::resolved(config.rules, "semicolon"@) == Some(severity),
    ensures
        all_sound(rows, config, rules::semicolons_to(rows, severity, n)),
        all_of(rules::semicolons_to(rows, severity, n), "semicolon"@),
    decreases n,
{
    if n > 0 {
        lemma_semicolons(rows, config, severity, n - 1);
        let s = rows[n - 1];
        let more = rules::semicolons_at(foreign::places_of(s, ';', s.len() as int), n, severity);
        assert(all_of(more, "semicolon"@));
        if more.len() > 0 {
            lemma_places(s, ';', s.len() as int);
            let i = choose|i: int| 0 <= i < s.len() && s[i] == ';';
            assert(!text::is_white(s[i]));
        }
        lemma_sound_concat(rows, config, rules::semicolons_to(rows, severity, n - 1), more);
    }
}

proof fn lemma_columns(
    line: Seq<char>,
    lowered: Seq<Seq<char>>,
    phrase: Seq<char>,
    n: int,
)
    ensures
        forall|k: int|
            0 <= k < rules::columns_to(line, lowered, phrase, n).len() ==> (
            #[trigger] rules::columns_to(line, lowered, phrase, n)[k]) >= 1,
    decreases n,
{
    if n > 0 {
        lemma_columns(line, lowered, phrase, n - 1);
        let before = rules::columns_to(line, lowered, phrase, n - 1);
        let all = rules::columns_to(line, lowered, phrase, n);
        assert forall|k: int| 0 <= k < all.len() implies (#[trigger] all[k]) >= 1 by {
            if k < before.len() {
                assert(all[k] == before[k]);
            }
        }
    }
}

proof fn lemma_phrase(
    rows: Seq<Seq<char>>,
    config: ConfigModel,
    rule_id: Seq<char>,
    severity: Severity,
    phrase: Seq<char>,
    suggestion: Seq<char>,
    n: int,
)
    requires
        0 <= n <= rows.len(),
        types::resolved(config.rules, rule_id) == Some(severity),
    ensures
        all_sound(
            rows,
            config,
            rules::phrase_to(rows, rule_id, severity, phrase, suggestion, n),
        ),
        all_of(rules::phrase_to(rows, rule_id, severity, phrase, suggestion, n), rule_id),
    decreases n,
{
    if n > 0 {
        lemma_phrase(rows, config, rule_id, severity, phrase, suggestion, n - 1);
        let columns = rules::columns_of(rows[n - 1], phrase);
        lemma_columns(
            rows[n - 1],
            rules::folds(rows[n - 1]),
            rules::folded(phrase),
            rows[n - 1].len() as int,
        );
        let more = Seq::new(
            columns.len(),
            |k: int| rules::phrase_violation(rule_id, severity, phrase, suggestion, n, columns[k]),
        );
        assert forall|k: int| 0 <= k < more.len() implies is_sound(
            rows,
            config,
            #[trigger] more[k],
        ) by {
            assert(columns[k] >= 1);
        }
        assert(all_of(more, rule_id));
        lemma_sound_concat(
            rows,
            config,
            rules::phrase_to(rows, rule_id, severity, phrase, suggestion, n - 1),
            more,
        );
    }
}

proof fn lemma_entry(
    rows: Seq<Seq<char>>,
    config: ConfigModel,
    rule_id: Seq<char>,
    severity: Severity,
    entry: dictionaries::EntryModel,
    n: int,
)
    requires
        0 <= n,
        types::resolved(config.rules, rule_id) == Some(severity),
    ensures
        all_sound(rows, config, rules::entry_to(rows, rule_id, severity, entry, n)),
        all_of(rules::entry_to(rows, rule_id, severity, entry, n), rule_id),
    decreases n,
{
    if n > 0 {
        lemma_entry(rows, config, rule_id, severity, entry, n - 1);
        let phrase = entry.unapproved[n - 1];
        let suggestion = rules::suggestion_of(entry);
        let len = rows.len() as int;
        lemma_phrase(rows, config, rule_id, severity, phrase, suggestion, len);
        lemma_sound_concat(
            rows,
            config,
            rules::entry_to(rows, rule_id, severity, entry, n - 1),
            rules::phrase_to(rows, rule_id, severity, phrase, suggestion, len),
        );
    }
}

proof fn lemma_entries(
    rows: Seq<Seq<char>>,
    config: ConfigModel,
    rule_id: Seq<char>,
    severity: Severity,
    entries: Seq<dictionaries::EntryModel>,
    n: int,
)
    requires
        0 <= n,
        types::resolved(config.rules, rule_id) == Some(severity),
    ensures
        all_sound(rows, config, rules::entries_to(rows, rule_id, severity, entries, n)),
        all_of(rules::entries_to(rows, rule_id, severity, entries, n), rule_id),
    decreases n,
{
    if n > 0 {
        lemma_entries(rows, config, rule_id, severity, entries, n - 1);
        let entry = entries[n - 1];
        let len = entry.unapproved.len() as int;
        lemma_entry(rows, config, rule_id, severity, entry, len);
        lemma_sound_concat(
            rows,
            config,
            rules::entries_to(rows, rule_id, severity, entries, n - 1),
            rules::entry_to(rows, rule_id, severity, entry, len),
        );
    }
}

proof fn lemma_suppressions(
    rows: Seq<Seq<char>>,
    config: ConfigModel,
    registered: Seq<Seq<char>>,
    severity: Severity,
    n: int,
)
    requires
        0 <= n <= rows.len(),
        types::resolved(config.rules, "invalid-suppression"@) == Some(severity),
    ensures
        all_sound(rows, config, rules::suppression_to(rows, registered, severity, n)),
        all_of(rules::suppression_to(rows, registered, severity, n), "invalid-suppression"@),
    decreases n,
{
    if n > 0 {
        lemma_suppressions(rows, config, registered, severity, n - 1);
        let s = rows[n - 1];
        reveal_strlit("ste-disable-next-line");
        text::lemma_find_from(s, rules::MARKER@, 0);
        let more = rules::suppression_at(s, registered, severity, n);
        if let Some(at) = text::find_from(s, rules::MARKER@, 0) {
            let m = rules::MARKER@;
            assert(s.subrange(at, at + m.len())[0] == m[0]);
            assert(!text::is_white(s[at]));
        }
        assert(all_of(more, "invalid-suppression"@));
        lemma_sound_concat(
            rows,
            config,
            rules::suppression_to(rows, registered, severity, n - 1),
            more,
        );
    }
}

/// Every rule finds violations of its own, and they are sound.
pub proof fn lemma_found_is_sound(kind: LintKind, rows: Seq<Seq<char>>, config: ConfigModel)
    requires
        forall|k: int| 0 <= k < rows.len() ==> !(#[trigger] rows[k]).contains('\n'),
    ensures
        all_sound(rows, config, engine::found(kind, rows, config)),
        all_of(engine::sentence_length(kind, rows, config), "sentence-length"@),
        all_of(engine::paragraph_length(kind, rows, config), "paragraph-length"@),
        all_of(engine::contraction(rows, config), "contraction"@),
        all_of(engine::semicolon(kind, rows, config), "semicolon"@),
        all_of(engine::phrasal_verb(rows, config), "phrasal-verb"@),
        all_of(engine::hedging(rows, config), "hedging"@),
        all_of(engine::marketing(rows, config), "marketing"@),
        all_of(engine::ste_dictionary(rows, config), "dictionary-not-approved-word"@),
        all_of(engine::invalid_suppression(rows, config), "invalid-suppression"@),
{
    let n = rows.len() as int;
    let given = engine::sentences_of(kind, rows);
    let a = engine::sentence_length(kind, rows, config);
    if let Some(severity) = types::resolved(config.rules, "sentence-length"@) {
        sentences::law_sentences_are_placed(lines::join(rows, "\n"@), !kind.is_source());
        lemma_long_sentences(
            rows,
            config,
            given,
            engine::max_words(config),
            severity,
            given.len() as int,
        );
    }
    let b = engine::paragraph_length(kind, rows, config);
    if let Some(severity) = types::resolved(config.rules, "paragraph-length"@) {
        lemma_long_paragraphs(
            rows,
            config,
            kind,
            engine::max_sentences(kind, config),
            severity,
            engine::paragraphs_of(kind, rows).len() as int,
        );
    }
    lemma_sound_concat(rows, config, a, b);
    let c = engine::contraction(rows, config);
    if let Some(severity) = types::resolved(config.rules, "contraction"@) {
        lemma_contractions(rows, config, severity, n);
    }
    lemma_sound_concat(rows, config, a + b, c);
    let d = engine::semicolon(kind, rows, config);
    if let Some(severity) = types::resolved(config.rules, "semicolon"@) {
        lemma_semicolons(rows, config, severity, n);
    }
    lemma_sound_concat(rows, config, a + b + c, d);
    let e = engine::phrasal_verb(rows, config);
    lemma_list_is_sound(rows, config, "phrasal-verb"@, dictionaries::phrasal_verb_entries());
    lemma_sound_concat(rows, config, a + b + c + d, e);
    let f = engine::hedging(rows, config);
    lemma_list_is_sound(rows, config, "hedging"@, dictionaries::hedging_entries());
    lemma_sound_concat(rows, config, a + b + c + d + e, f);
    let g = engine::marketing(rows, config);
    lemma_list_is_sound(rows, config, "marketing"@, dictionaries::marketing_entries());
    lemma_sound_concat(rows, config, a + b + c + d + e + f, g);
    let h = engine::ste_dictionary(rows, config);
    lemma_list_is_sound(
        rows,
        config,
        "dictionary-not-approved-word"@,
        dictionaries::ste_dictionary_entries(),
    );
    lemma_sound_concat(rows, config, a + b + c + d + e + f + g, h);
    let i = engine::invalid_suppression(rows, config);
    if let Some(severity) = types::resolved(config.rules, "invalid-suppression"@) {
        lemma_suppressions(
            rows,
            config,
            dictionaries::strs(rules::REGISTERED_RULE_IDS@),
            severity,
            n,
        );
    }
    lemma_sound_concat(rows, config, a + b + c + d + e + f + g + h, i);
}

proof fn lemma_list_is_sound(
    rows: Seq<Seq<char>>,
    config: ConfigModel,
    rule_id: Seq<char>,
    entries: Seq<dictionaries::EntryModel>,
)
    ensures
        types::resolved(config.rules, rule_id) matches Some(severity) ==> all_sound(
            rows,
            config,
            rules::phrases(rows, rule_id, severity, entries),
        ) && all_of(rules::phrases(rows, rule_id, severity, entries), rule_id),
{
    if let Some(severity) = types::resolved(config.rules, rule_id) {
        lemma_entries(rows, config, rule_id, severity, entries, entries.len() as int);
    }
}

// ── What stays in a report ─────────────────────────────────────────────────

proof fn lemma_unsuppressed(rows: Seq<Seq<char>>, all: Seq<ViolationModel>, n: int, k: int)
    requires
        0 <= n <= all.len(),
        0 <= k < engine::unsuppressed_to(rows, all, n).len(),
    ensures
        all.contains(engine::unsuppressed_to(rows, all, n)[k]),
        !engine::is_suppressed(rows, engine::unsuppressed_to(rows, all, n)[k]),
    decreases n,
{
    let before = engine::unsuppressed_to(rows, all, n - 1);
    if k < before.len() {
        lemma_unsuppressed(rows, all, n - 1, k);
    } else {
        assert(all[n - 1] == engine::unsuppressed_to(rows, all, n)[k]);
    }
}

proof fn lemma_sorted_member(v: Seq<ViolationModel>, n: int, k: int)
    requires
        0 <= n <= v.len(),
        0 <= k < engine::sorted_to(v, n).len(),
    ensures
        v.contains(engine::sorted_to(v, n)[k]),
    decreases n,
{
    let before = engine::sorted_to(v, n - 1);
    let x = v[n - 1];
    lemma_slot(before, x, before.len() as int);
    let p = engine::slot(before, x, before.len() as int);
    if k < p {
        lemma_sorted_member(v, n - 1, k);
    } else if k == p {
        assert(v[n - 1] == engine::sorted_to(v, n)[k]);
    } else {
        lemma_sorted_member(v, n - 1, k - 1);
    }
}

/// Every violation of a report was found by a rule.
proof fn lemma_reported(rows: Seq<Seq<char>>, all: Seq<ViolationModel>, k: int)
    requires
        0 <= k < engine::finished(all, rows).violations.len(),
    ensures
        all.contains(engine::finished(all, rows).violations[k]),
        !engine::is_suppressed(rows, engine::finished(all, rows).violations[k]),
{
    let left = engine::unsuppressed_to(rows, all, all.len() as int);
    lemma_sorted_member(left, left.len() as int, k);
    let x = engine::finished(all, rows).violations[k];
    let j = choose|j: int| 0 <= j < left.len() && left[j] == x;
    lemma_unsuppressed(rows, all, all.len() as int, j);
}

/// No linted line holds a line feed.
pub proof fn lemma_linted(kind: LintKind, text: Seq<char>, config: ConfigModel)
    ensures
        forall|k: int|
            0 <= k < engine::linted(kind, text, config).len() ==> !(#[trigger] engine::linted(
                kind,
                text,
                config,
            )[k]).contains('\n'),
{
    prose::law_prose_lines_are_single_lines(kind, text);
    let rows = prose::prose(kind, text);
    assert forall|k: int| 0 <= k < rows.len() implies !(#[trigger] engine::without_quotes(
        rows,
    )[k]).contains('\n') by {
        assert(!rows[k].contains('\n'));
    }
}

/// Every violation of a report has the severity that its rule resolves to
/// under the configuration, stands on a prose line that is not blank, and
/// is not suppressed. So a rule that is off is never reported.
pub proof fn law_violations_are_sound(
    kind: LintKind,
    text: Seq<char>,
    config: ConfigModel,
    k: int,
)
    requires
        0 <= k < engine::report(kind, text, config).violations.len(),
    ensures
        is_sound(
            engine::linted(kind, text, config),
            config,
            engine::report(kind, text, config).violations[k],
        ),
        !engine::is_suppressed(
            engine::linted(kind, text, config),
            engine::report(kind, text, config).violations[k],
        ),
{
    let rows = engine::linted(kind, text, config);
    let all = engine::found(kind, rows, config);
    lemma_linted(kind, text, config);
    lemma_found_is_sound(kind, rows, config);
    lemma_reported(rows, all, k);
    let x = engine::report(kind, text, config).violations[k];
    let j = choose|j: int| 0 <= j < all.len() && all[j] == x;
    assert(is_sound(rows, config, all[j]));
}

/// No violation stands in a fenced code block, an HTML comment, an indented
/// code block or a table.
pub proof fn law_code_is_never_reported(
    kind: LintKind,
    text: Seq<char>,
    config: ConfigModel,
    k: int,
)
    requires
        !kind.is_source(),
        0 <= k < engine::report(kind, text, config).violations.len(),
    ensures
        ({
            let line = engine::report(kind, text, config).violations[k].line;
            1 <= line <= lines::lines(text).len() && !prose::holds_no_prose(
                lines::lines(text),
                line - 1,
            )
        }),
{
    law_violations_are_sound(kind, text, config, k);
    prose::law_prose_keeps_layout(kind, text);
    let line = engine::report(kind, text, config).violations[k].line;
    let rows = prose::prose(kind, text);
    if prose::holds_no_prose(lines::lines(text), line - 1) {
        prose::law_code_lines_are_blank(kind, text, line - 1);
        let s = rows[line - 1];
        assert(text::is_blank(s));
        text::lemma_white_end(s, 0);
        assert(!engine::is_quote(s));
    }
}

/// When block quotes are exempt, no violation stands in one.
pub proof fn law_quotes_are_exempt(
    kind: LintKind,
    text: Seq<char>,
    config: ConfigModel,
    k: int,
)
    requires
        config.exempt_block_quotes,
        0 <= k < engine::report(kind, text, config).violations.len(),
    ensures
        !engine::is_quote(
            prose::prose(kind, text)[engine::report(kind, text, config).violations[k].line - 1],
        ),
{
    law_violations_are_sound(kind, text, config, k);
    let line = engine::report(kind, text, config).violations[k].line;
    let s = prose::prose(kind, text)[line - 1];
    if engine::is_quote(s) {
        assert(text::is_blank(prose::blanked(s)));
    }
}

proof fn lemma_hard(v: Seq<ViolationModel>, n: int)
    requires
        0 <= n,
    ensures
        engine::hard_to(v, n) <= n,
        engine::hard_to(v, n) == 0 <==> forall|k: int|
            0 <= k < n ==> (#[trigger] v[k]).severity != Severity::Hard,
    decreases n,
{
    if n > 0 {
        lemma_hard(v, n - 1);
    }
}

/// A summary counts the violations of its report, and the hard ones among
/// them. The count of hard ones is zero exactly when there is none.
pub proof fn law_summary_counts(kind: LintKind, text: Seq<char>, config: ConfigModel)
    ensures
        ({
            let r = engine::report(kind, text, config);
            &&& r.total == r.violations.len()
            &&& 0 <= r.hard <= r.total
            &&& r.hard == 0 <==> forall|k: int|
                0 <= k < r.violations.len() ==> (#[trigger] r.violations[k]).severity
                    != Severity::Hard
        }),
{
    let r = engine::report(kind, text, config);
    lemma_hard(r.violations, r.violations.len() as int);
}

// ── Rules that do not run ──────────────────────────────────────────────────

proof fn lemma_either(a: Seq<ViolationModel>, b: Seq<ViolationModel>, x: ViolationModel)
    requires
        (a + b).contains(x),
    ensures
        a.contains(x) || b.contains(x),
{
    let i = choose|i: int| 0 <= i < (a + b).len() && (a + b)[i] == x;
    if i < a.len() {
        assert(a[i] == x);
    } else {
        assert(b[i - a.len()] == x);
    }
}

/// The names of the rules differ.
pub proof fn lemma_rule_ids()
    ensures
        "sentence-length"@.len() == 15,
        "paragraph-length"@.len() == 16,
        "contraction"@.len() == 11,
        "semicolon"@.len() == 9,
        "semicolon"@[0] == 's',
        "phrasal-verb"@.len() == 12,
        "hedging"@.len() == 7,
        "marketing"@.len() == 9,
        "marketing"@[0] == 'm',
        "dictionary-not-approved-word"@.len() == 28,
        "invalid-suppression"@.len() == 19,
{
    reveal_strlit("sentence-length");
    reveal_strlit("paragraph-length");
    reveal_strlit("contraction");
    reveal_strlit("semicolon");
    reveal_strlit("phrasal-verb");
    reveal_strlit("hedging");
    reveal_strlit("marketing");
    reveal_strlit("dictionary-not-approved-word");
    reveal_strlit("invalid-suppression");
}

/// A violation of the rule `semicolon` or `paragraph-length` was found by
/// that rule.
proof fn lemma_found_by(
    kind: LintKind,
    rows: Seq<Seq<char>>,
    config: ConfigModel,
    x: ViolationModel,
)
    requires
        forall|k: int| 0 <= k < rows.len() ==> !(#[trigger] rows[k]).contains('\n'),
        engine::found(kind, rows, config).contains(x),
    ensures
        x.rule_id == "semicolon"@ ==> engine::semicolon(kind, rows, config).contains(x),
        x.rule_id == "paragraph-length"@ ==> engine::paragraph_length(
            kind,
            rows,
            config,
        ).contains(x),
{
    lemma_found_is_sound(kind, rows, config);
    let a = engine::sentence_length(kind, rows, config);
    let b = engine::paragraph_length(kind, rows, config);
    let c = engine::contraction(rows, config);
    let d = engine::semicolon(kind, rows, config);
    let e = engine::phrasal_verb(rows, config);
    let f = engine::hedging(rows, config);
    let g = engine::marketing(rows, config);
    let h = engine::ste_dictionary(rows, config);
    let i = engine::invalid_suppression(rows, config);
    lemma_either(a + b + c + d + e + f + g + h, i, x);
    lemma_rule_ids();
    if !i.contains(x) {
        lemma_either(a + b + c + d + e + f + g, h, x);
        if !h.contains(x) {
            lemma_either(a + b + c + d + e + f, g, x);
            if !g.contains(x) {
                lemma_either(a + b + c + d + e, f, x);
                if !f.contains(x) {
                    lemma_either(a + b + c + d, e, x);
                    if !e.contains(x) {
                        lemma_either(a + b + c, d, x);
                        if !d.contains(x) {
                            lemma_either(a + b, c, x);
                            if !c.contains(x) {
                                lemma_either(a, b, x);
                            }
                        }
                    }
                }
            }
        }
    }
}

/// A semicolon is never reported in source code.
pub proof fn law_semicolons_are_for_prose(
    kind: LintKind,
    text: Seq<char>,
    config: ConfigModel,
    k: int,
)
    requires
        kind.is_source(),
        0 <= k < engine::report(kind, text, config).violations.len(),
    ensures
        engine::report(kind, text, config).violations[k].rule_id != "semicolon"@,
{
    let rows = engine::linted(kind, text, config);
    lemma_linted(kind, text, config);
    lemma_reported(rows, engine::found(kind, rows, config), k);
    lemma_found_by(kind, rows, config, engine::report(kind, text, config).violations[k]);
}

/// A paragraph cap of zero turns the rule off. Source kinds have that cap
/// unless the configuration sets another.
pub proof fn law_zero_cap_turns_paragraphs_off(
    kind: LintKind,
    text: Seq<char>,
    config: ConfigModel,
    k: int,
)
    requires
        config.max_paragraph_sentences == Some(0usize) || (config.max_paragraph_sentences is None
            && kind.is_source()),
        0 <= k < engine::report(kind, text, config).violations.len(),
    ensures
        engine::report(kind, text, config).violations[k].rule_id != "paragraph-length"@,
{
    let rows = engine::linted(kind, text, config);
    lemma_linted(kind, text, config);
    lemma_reported(rows, engine::found(kind, rows, config), k);
    lemma_found_by(kind, rows, config, engine::report(kind, text, config).violations[k]);
}

// ── Rules are independent ──────────────────────────────────────────────────

/// Those of the first `n` violations that are not of a rule.
pub open spec fn without_rule_to(v: Seq<ViolationModel>, rule_id: Seq<char>, n: int) -> Seq<
    ViolationModel,
>
    decreases n,
{
    if n <= 0 {
        Seq::empty()
    } else if v[n - 1].rule_id == rule_id {
        without_rule_to(v, rule_id, n - 1)
    } else {
        without_rule_to(v, rule_id, n - 1).push(v[n - 1])
    }
}

/// The violations that are not of a rule, in their order.
pub open spec fn without_rule(v: Seq<ViolationModel>, rule_id: Seq<char>) -> Seq<ViolationModel> {
    without_rule_to(v, rule_id, v.len() as int)
}

proof fn lemma_without_prefix(
    a: Seq<ViolationModel>,
    b: Seq<ViolationModel>,
    rule_id: Seq<char>,
    n: int,
)
    requires
        n <= a.len(),
        n <= b.len(),
        forall|k: int| 0 <= k < n ==> a[k] == b[k],
    ensures
        without_rule_to(a, rule_id, n) == without_rule_to(b, rule_id, n),
    decreases n,
{
    if n > 0 {
        lemma_without_prefix(a, b, rule_id, n - 1);
    }
}

proof fn lemma_without_concat(a: Seq<ViolationModel>, b: Seq<ViolationModel>, rule_id: Seq<char>)
    ensures
        without_rule(a + b, rule_id) == without_rule(a, rule_id) + without_rule(b, rule_id),
    decreases b.len(),
{
    let w = without_rule(a, rule_id);
    if b.len() == 0 {
        assert(a + b =~= a);
        assert(w + without_rule(b, rule_id) =~= w);
    } else {
        let rest = b.drop_last();
        let x = b.last();
        let n = (a + b).len() as int;
        lemma_without_concat(a, rest, rule_id);
        lemma_without_prefix(a + b, a + rest, rule_id, n - 1);
        lemma_without_prefix(b, rest, rule_id, b.len() - 1);
        assert((a + b)[n - 1] == x);
        assert(w + without_rule(rest, rule_id).push(x) =~= (w + without_rule(rest, rule_id)).push(
            x,
        ));
    }
}

proof fn lemma_without_push(v: Seq<ViolationModel>, x: ViolationModel, rule_id: Seq<char>)
    ensures
        without_rule(v.push(x), rule_id) == (if x.rule_id == rule_id {
            without_rule(v, rule_id)
        } else {
            without_rule(v, rule_id).push(x)
        }),
{
    lemma_without_prefix(v.push(x), v, rule_id, v.len() as int);
}

/// Of the violations of one rule, all or none stay.
proof fn lemma_without_all(
    v: Seq<ViolationModel>,
    other: Seq<char>,
    rule_id: Seq<char>,
    n: int,
)
    requires
        0 <= n <= v.len(),
        all_of(v, other),
    ensures
        without_rule_to(v, rule_id, n) == (if other == rule_id {
            Seq::empty()
        } else {
            v.take(n)
        }),
    decreases n,
{
    if n > 0 {
        lemma_without_all(v, other, rule_id, n - 1);
        assert(v[n - 1].rule_id == other);
        assert(v.take(n) =~= v.take(n - 1).push(v[n - 1]));
    } else {
        assert(v.take(0) =~= Seq::<ViolationModel>::empty());
    }
}

/// What stays was there.
proof fn lemma_without_member(v: Seq<ViolationModel>, rule_id: Seq<char>, n: int, k: int)
    requires
        0 <= n <= v.len(),
        0 <= k < without_rule_to(v, rule_id, n).len(),
    ensures
        exists|i: int| 0 <= i < n && #[trigger] v[i] == without_rule_to(v, rule_id, n)[k],
    decreases n,
{
    let before = without_rule_to(v, rule_id, n - 1);
    if k < before.len() {
        lemma_without_member(v, rule_id, n - 1, k);
        let i = choose|i: int| 0 <= i < n - 1 && #[trigger] v[i] == before[k];
        assert(v[i] == without_rule_to(v, rule_id, n)[k]);
    } else {
        assert(v[n - 1] == without_rule_to(v, rule_id, n)[k]);
    }
}

proof fn lemma_unsuppressed_prefix(
    rows: Seq<Seq<char>>,
    a: Seq<ViolationModel>,
    b: Seq<ViolationModel>,
    n: int,
)
    requires
        n <= a.len(),
        n <= b.len(),
        forall|k: int| 0 <= k < n ==> a[k] == b[k],
    ensures
        engine::unsuppressed_to(rows, a, n) == engine::unsuppressed_to(rows, b, n),
    decreases n,
{
    if n > 0 {
        lemma_unsuppressed_prefix(rows, a, b, n - 1);
    }
}

/// Suppression looks at each violation by itself.
proof fn lemma_unsuppressed_without(
    rows: Seq<Seq<char>>,
    v: Seq<ViolationModel>,
    rule_id: Seq<char>,
    n: int,
)
    requires
        0 <= n <= v.len(),
    ensures
        ({
            let w = without_rule_to(v, rule_id, n);
            engine::unsuppressed_to(rows, w, w.len() as int) == without_rule(
                engine::unsuppressed_to(rows, v, n),
                rule_id,
            )
        }),
    decreases n,
{
    if n > 0 {
        lemma_unsuppressed_without(rows, v, rule_id, n - 1);
        let w = without_rule_to(v, rule_id, n - 1);
        let x = v[n - 1];
        let u = engine::unsuppressed_to(rows, v, n - 1);
        lemma_without_push(u, x, rule_id);
        lemma_unsuppressed_prefix(rows, w.push(x), w, w.len() as int);
        assert(w.push(x)[w.len() as int] == x);
    }
}

proof fn lemma_sorted_prefix(a: Seq<ViolationModel>, b: Seq<ViolationModel>, n: int)
    requires
        n <= a.len(),
        n <= b.len(),
        forall|k: int| 0 <= k < n ==> a[k] == b[k],
    ensures
        engine::sorted_to(a, n) == engine::sorted_to(b, n),
    decreases n,
{
    if n > 0 {
        lemma_sorted_prefix(a, b, n - 1);
    }
}

proof fn lemma_slot_at(v: Seq<ViolationModel>, x: ViolationModel, m: int, p: int)
    requires
        0 <= m <= p <= v.len(),
        forall|k: int| m <= k < p ==> engine::is_after(#[trigger] v[k], x),
        m > 0 ==> !engine::is_after(v[m - 1], x),
    ensures
        engine::slot(v, x, p) == m,
    decreases p,
{
    if p > m {
        lemma_slot_at(v, x, m, p - 1);
    }
}

/// Sorting and removing the violations of a rule can change places.
proof fn lemma_sorted_without(v: Seq<ViolationModel>, rule_id: Seq<char>, n: int)
    requires
        0 <= n <= v.len(),
    ensures
        ({
            let w = without_rule_to(v, rule_id, n);
            engine::sorted_to(w, w.len() as int) == without_rule(
                engine::sorted_to(v, n),
                rule_id,
            )
        }),
    decreases n,
{
    if n > 0 {
        lemma_sorted_without(v, rule_id, n - 1);
        let w = without_rule_to(v, rule_id, n - 1);
        let x = v[n - 1];
        let s = engine::sorted_to(v, n - 1);
        let p = engine::slot(s, x, s.len() as int);
        lemma_slot(s, x, s.len() as int);
        lemma_sorted(v, n - 1);
        let a = s.take(p);
        let b = s.skip(p);
        let one = seq![x];
        assert(s =~= a + b);
        assert(s.insert(p, x) =~= a + one + b);
        lemma_without_concat(a, b, rule_id);
        lemma_without_concat(a + one, b, rule_id);
        lemma_without_concat(a, one, rule_id);
        assert(one =~= Seq::<ViolationModel>::empty().push(x));
        lemma_without_push(Seq::empty(), x, rule_id);
        let wa = without_rule(a, rule_id);
        let wb = without_rule(b, rule_id);
        if x.rule_id == rule_id {
            assert(wa + without_rule(one, rule_id) + wb =~= wa + wb);
        } else {
            lemma_sorted_prefix(w.push(x), w, w.len() as int);
            assert(w.push(x)[w.len() as int] == x);
            let t = wa + wb;
            let m = wa.len() as int;
            assert forall|k: int| m <= k < t.len() implies engine::is_after(
                #[trigger] t[k],
                x,
            ) by {
                lemma_without_member(b, rule_id, b.len() as int, k - m);
                let i = choose|i: int| 0 <= i < b.len() && #[trigger] b[i] == wb[k - m];
                assert(s[p + i] == b[i]);
            }
            if m > 0 {
                lemma_without_member(a, rule_id, a.len() as int, m - 1);
                let i = choose|i: int| 0 <= i < a.len() && #[trigger] a[i] == wa[m - 1];
                assert(s[i] == a[i]);
                assert(t[m - 1] == wa[m - 1]);
                assert(!engine::is_after(s[p - 1], x));
                if i < p - 1 {
                    assert(!engine::is_after(s[i], s[p - 1]));
                }
            }
            lemma_slot_at(t, x, m, t.len() as int);
            assert(without_rule(one, rule_id) =~= one);
            assert(t.insert(m, x) =~= wa + one + wb);
        }
    }
}

/// What a rule finds when a rule is turned off: the rules on length, and
/// contractions.
proof fn lemma_lengths_off(
    kind: LintKind,
    rows: Seq<Seq<char>>,
    config: ConfigModel,
    rule_id: Seq<char>,
)
    requires
        forall|k: int| 0 <= k < rows.len() ==> !(#[trigger] rows[k]).contains('\n'),
    ensures
        engine::sentence_length(kind, rows, types::turned_off(config, rule_id)) == without_rule(
            engine::sentence_length(kind, rows, config),
            rule_id,
        ),
        engine::paragraph_length(kind, rows, types::turned_off(config, rule_id)) == without_rule(
            engine::paragraph_length(kind, rows, config),
            rule_id,
        ),
        engine::contraction(rows, types::turned_off(config, rule_id)) == without_rule(
            engine::contraction(rows, config),
            rule_id,
        ),
{
    lemma_found_is_sound(kind, rows, config);
    lemma_group_off(engine::sentence_length(kind, rows, config), "sentence-length"@, rule_id);
    types::lemma_resolved_off(config.rules, rule_id, "sentence-length"@);
    lemma_group_off(engine::paragraph_length(kind, rows, config), "paragraph-length"@, rule_id);
    types::lemma_resolved_off(config.rules, rule_id, "paragraph-length"@);
    lemma_group_off(engine::contraction(rows, config), "contraction"@, rule_id);
    types::lemma_resolved_off(config.rules, rule_id, "contraction"@);
}

/// What a rule finds when a rule is turned off: semicolons, phrasal verbs and
/// hedging.
proof fn lemma_marks_off(
    kind: LintKind,
    rows: Seq<Seq<char>>,
    config: ConfigModel,
    rule_id: Seq<char>,
)
    requires
        forall|k: int| 0 <= k < rows.len() ==> !(#[trigger] rows[k]).contains('\n'),
    ensures
        engine::semicolon(kind, rows, types::turned_off(config, rule_id)) == without_rule(
            engine::semicolon(kind, rows, config),
            rule_id,
        ),
        engine::phrasal_verb(rows, types::turned_off(config, rule_id)) == without_rule(
            engine::phrasal_verb(rows, config),
            rule_id,
        ),
        engine::hedging(rows, types::turned_off(config, rule_id)) == without_rule(
            engine::hedging(rows, config),
            rule_id,
        ),
{
    lemma_found_is_sound(kind, rows, config);
    lemma_group_off(engine::semicolon(kind, rows, config), "semicolon"@, rule_id);
    types::lemma_resolved_off(config.rules, rule_id, "semicolon"@);
    lemma_group_off(engine::phrasal_verb(rows, config), "phrasal-verb"@, rule_id);
    types::lemma_resolved_off(config.rules, rule_id, "phrasal-verb"@);
    lemma_group_off(engine::hedging(rows, config), "hedging"@, rule_id);
    types::lemma_resolved_off(config.rules, rule_id, "hedging"@);
}

/// What a rule finds when a rule is turned off: marketing, the dictionary and
/// directives.
proof fn lemma_lists_off(
    kind: LintKind,
    rows: Seq<Seq<char>>,
    config: ConfigModel,
    rule_id: Seq<char>,
)
    requires
        forall|k: int| 0 <= k < rows.len() ==> !(#[trigger] rows[k]).contains('\n'),
    ensures
        engine::marketing(rows, types::turned_off(config, rule_id)) == without_rule(
            engine::marketing(rows, config),
            rule_id,
        ),
        engine::ste_dictionary(rows, types::turned_off(config, rule_id)) == without_rule(
            engine::ste_dictionary(rows, config),
            rule_id,
        ),
        engine::invalid_suppression(rows, types::turned_off(config, rule_id)) == without_rule(
            engine::invalid_suppression(rows, config),
            rule_id,
        ),
{
    lemma_found_is_sound(kind, rows, config);
    lemma_group_off(engine::marketing(rows, config), "marketing"@, rule_id);
    types::lemma_resolved_off(config.rules, rule_id, "marketing"@);
    lemma_group_off(engine::ste_dictionary(rows, config), "dictionary-not-approved-word"@, rule_id);
    types::lemma_resolved_off(config.rules, rule_id, "dictionary-not-approved-word"@);
    lemma_group_off(engine::invalid_suppression(rows, config), "invalid-suppression"@, rule_id);
    types::lemma_resolved_off(config.rules, rule_id, "invalid-suppression"@);
}

/// What all rules find is what each rule finds by itself.
proof fn lemma_found_off(
    kind: LintKind,
    rows: Seq<Seq<char>>,
    config: ConfigModel,
    rule_id: Seq<char>,
)
    requires
        forall|k: int| 0 <= k < rows.len() ==> !(#[trigger] rows[k]).contains('\n'),
    ensures
        engine::found(kind, rows, types::turned_off(config, rule_id)) == without_rule(
            engine::found(kind, rows, config),
            rule_id,
        ),
{
    let a = engine::sentence_length(kind, rows, config);
    let b = engine::paragraph_length(kind, rows, config);
    let c = engine::contraction(rows, config);
    let d = engine::semicolon(kind, rows, config);
    let e = engine::phrasal_verb(rows, config);
    let f = engine::hedging(rows, config);
    let g = engine::marketing(rows, config);
    let h = engine::ste_dictionary(rows, config);
    let i = engine::invalid_suppression(rows, config);
    lemma_without_concat(a + b + c + d + e + f + g + h, i, rule_id);
    lemma_without_concat(a + b + c + d + e + f + g, h, rule_id);
    lemma_without_concat(a + b + c + d + e + f, g, rule_id);
    lemma_without_concat(a + b + c + d + e, f, rule_id);
    lemma_without_concat(a + b + c + d, e, rule_id);
    lemma_without_concat(a + b + c, d, rule_id);
    lemma_without_concat(a + b, c, rule_id);
    lemma_without_concat(a, b, rule_id);
    lemma_lengths_off(kind, rows, config, rule_id);
    lemma_marks_off(kind, rows, config, rule_id);
    lemma_lists_off(kind, rows, config, rule_id);
}

proof fn lemma_group_off(v: Seq<ViolationModel>, other: Seq<char>, rule_id: Seq<char>)
    requires
        all_of(v, other),
    ensures
        without_rule(v, rule_id) == (if other == rule_id {
            Seq::empty()
        } else {
            v
        }),
{
    lemma_without_all(v, other, rule_id, v.len() as int);
    assert(v.take(v.len() as int) =~= v);
}

/// Rules are independent: turning one off removes its violations from the
/// report. All others stay, in their order.
pub proof fn law_rules_are_independent(
    kind: LintKind,
    text: Seq<char>,
    config: ConfigModel,
    rule_id: Seq<char>,
)
    ensures
        engine::report(kind, text, types::turned_off(config, rule_id)).violations == without_rule(
            engine::report(kind, text, config).violations,
            rule_id,
        ),
{
    let rows = engine::linted(kind, text, config);
    let all = engine::found(kind, rows, config);
    let left = engine::unsuppressed_to(rows, all, all.len() as int);
    lemma_linted(kind, text, config);
    lemma_found_off(kind, rows, config, rule_id);
    lemma_unsuppressed_without(rows, all, rule_id, all.len() as int);
    lemma_sorted_without(left, rule_id, left.len() as int);
}

} // verus!

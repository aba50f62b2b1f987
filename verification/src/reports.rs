//! Laws of reports: they hold what the rules find, and nothing is lost.

use vstd::prelude::*;

use crate::dictionaries;
use crate::dictionaries::EntryModel;
use crate::engine;
use crate::findings;
use crate::laws;
use crate::lines;
use crate::lists;
use crate::prose;
use crate::sentences;
use crate::text;
use crate::types;
use crate::types::{ConfigModel, LintKind, SentenceModel, Severity, ViolationModel};
use crate::words;

verus! {

// ── The rules one by one ───────────────────────────────────────────────────

/// Those violations of a list that are of one rule.
pub open spec fn of_rule(v: Seq<ViolationModel>, rule_id: Seq<char>) -> Seq<ViolationModel> {
    v.filter(|x: ViolationModel| x.rule_id == rule_id)
}

proof fn lemma_filter_concat<A>(a: Seq<A>, b: Seq<A>, keeps: spec_fn(A) -> bool)
    ensures
        (a + b).filter(keeps) == a.filter(keeps) + b.filter(keeps),
    decreases b.len(),
{
    reveal(Seq::filter);
    if b.len() > 0 {
        let c = b.drop_last();
        lemma_filter_concat(a, c, keeps);
        assert((a + b).drop_last() =~= a + c);
        assert((a + b).last() == b.last());
        assert(a.filter(keeps) + c.filter(keeps).push(b.last()) =~= (a.filter(keeps) + c.filter(
            keeps,
        )).push(b.last()));
    } else {
        assert(a + b =~= a);
        assert(a.filter(keeps) + b.filter(keeps) =~= a.filter(keeps));
    }
}

proof fn lemma_of_rule(v: Seq<ViolationModel>, own: Seq<char>, rule_id: Seq<char>)
    requires
        laws::all_of(v, own),
    ensures
        own == rule_id ==> of_rule(v, rule_id) == v,
        own != rule_id ==> of_rule(v, rule_id).len() == 0,
    decreases v.len(),
{
    reveal(Seq::filter);
    if v.len() > 0 {
        let w = v.drop_last();
        assert(laws::all_of(w, own)) by {
            assert forall|k: int| 0 <= k < w.len() implies (#[trigger] w[k]).rule_id == own by {
                assert(w[k] == v[k]);
            }
        }
        lemma_of_rule(w, own, rule_id);
        assert(v.last().rule_id == own) by {
            assert(v[v.len() - 1].rule_id == own);
        }
        assert(w.push(v.last()) =~= v);
    }
}

/// What the rule named `rule_id` finds.
pub open spec fn group(
    kind: LintKind,
    rows: Seq<Seq<char>>,
    config: ConfigModel,
    rule_id: Seq<char>,
) -> Seq<ViolationModel> {
    if rule_id == "sentence-length"@ {
        engine::sentence_length(kind, rows, config)
    } else if rule_id == "paragraph-length"@ {
        engine::paragraph_length(kind, rows, config)
    } else if rule_id == "contraction"@ {
        engine::contraction(rows, config)
    } else if rule_id == "semicolon"@ {
        engine::semicolon(kind, rows, config)
    } else if rule_id == "phrasal-verb"@ {
        engine::phrasal_verb(rows, config)
    } else if rule_id == "hedging"@ {
        engine::hedging(rows, config)
    } else if rule_id == "marketing"@ {
        engine::marketing(rows, config)
    } else if rule_id == "dictionary-not-approved-word"@ {
        engine::ste_dictionary(rows, config)
    } else if rule_id == "invalid-suppression"@ {
        engine::invalid_suppression(rows, config)
    } else {
        Seq::empty()
    }
}

proof fn lemma_parts(
    a: Seq<ViolationModel>,
    b: Seq<ViolationModel>,
    c: Seq<ViolationModel>,
    d: Seq<ViolationModel>,
    e: Seq<ViolationModel>,
    rule_id: Seq<char>,
)
    ensures
        of_rule(a + b + c + d + e, rule_id) == of_rule(a, rule_id) + of_rule(b, rule_id) + of_rule(
            c,
            rule_id,
        ) + of_rule(d, rule_id) + of_rule(e, rule_id),
{
    let keeps = |x: ViolationModel| x.rule_id == rule_id;
    lemma_filter_concat(a + b + c + d, e, keeps);
    lemma_filter_concat(a + b + c, d, keeps);
    lemma_filter_concat(a + b, c, keeps);
    lemma_filter_concat(a, b, keeps);
}

/// A list when it is of one rule, and nothing when it is of another.
spec fn part(v: Seq<ViolationModel>, own: Seq<char>, rule_id: Seq<char>) -> Seq<ViolationModel> {
    if own == rule_id {
        v
    } else {
        Seq::empty()
    }
}

/// A list is of one rule.
#[verifier::opaque]
spec fn is_of(v: Seq<ViolationModel>, own: Seq<char>) -> bool {
    laws::all_of(v, own)
}

proof fn lemma_part(v: Seq<ViolationModel>, own: Seq<char>, rule_id: Seq<char>)
    requires
        is_of(v, own),
    ensures
        of_rule(v, rule_id) == part(v, own, rule_id),
{
    reveal(is_of);
    lemma_of_rule(v, own, rule_id);
    assert(of_rule(v, rule_id) =~= part(v, own, rule_id));
}

/// What nine lists have of one rule.
spec fn parts(
    a: Seq<ViolationModel>,
    b: Seq<ViolationModel>,
    c: Seq<ViolationModel>,
    d: Seq<ViolationModel>,
    e: Seq<ViolationModel>,
    f: Seq<ViolationModel>,
    g: Seq<ViolationModel>,
    h: Seq<ViolationModel>,
    i: Seq<ViolationModel>,
    rule_id: Seq<char>,
) -> Seq<ViolationModel> {
    part(a, "sentence-length"@, rule_id) + part(b, "paragraph-length"@, rule_id) + part(
        c,
        "contraction"@,
        rule_id,
    ) + part(d, "semicolon"@, rule_id) + part(e, "phrasal-verb"@, rule_id) + part(
        f,
        "hedging"@,
        rule_id,
    ) + part(g, "marketing"@, rule_id) + part(h, "dictionary-not-approved-word"@, rule_id) + part(
        i,
        "invalid-suppression"@,
        rule_id,
    )
}

/// The list of one rule among nine.
spec fn picked(
    a: Seq<ViolationModel>,
    b: Seq<ViolationModel>,
    c: Seq<ViolationModel>,
    d: Seq<ViolationModel>,
    e: Seq<ViolationModel>,
    f: Seq<ViolationModel>,
    g: Seq<ViolationModel>,
    h: Seq<ViolationModel>,
    i: Seq<ViolationModel>,
    rule_id: Seq<char>,
) -> Seq<ViolationModel> {
    if rule_id == "sentence-length"@ {
        a
    } else if rule_id == "paragraph-length"@ {
        b
    } else if rule_id == "contraction"@ {
        c
    } else if rule_id == "semicolon"@ {
        d
    } else if rule_id == "phrasal-verb"@ {
        e
    } else if rule_id == "hedging"@ {
        f
    } else if rule_id == "marketing"@ {
        g
    } else if rule_id == "dictionary-not-approved-word"@ {
        h
    } else if rule_id == "invalid-suppression"@ {
        i
    } else {
        Seq::empty()
    }
}

proof fn lemma_pick(
    a: Seq<ViolationModel>,
    b: Seq<ViolationModel>,
    c: Seq<ViolationModel>,
    d: Seq<ViolationModel>,
    e: Seq<ViolationModel>,
    f: Seq<ViolationModel>,
    g: Seq<ViolationModel>,
    h: Seq<ViolationModel>,
    i: Seq<ViolationModel>,
    rule_id: Seq<char>,
)
    ensures
        parts(a, b, c, d, e, f, g, h, i, rule_id) == picked(
            a,
            b,
            c,
            d,
            e,
            f,
            g,
            h,
            i,
            rule_id,
        ),
{
    laws::lemma_rule_ids();
    let all = parts(a, b, c, d, e, f, g, h, i, rule_id);
    assert(all =~= picked(a, b, c, d, e, f, g, h, i, rule_id));
}

proof fn lemma_heard(
    a: Seq<ViolationModel>,
    b: Seq<ViolationModel>,
    c: Seq<ViolationModel>,
    d: Seq<ViolationModel>,
    e: Seq<ViolationModel>,
    f: Seq<ViolationModel>,
    g: Seq<ViolationModel>,
    h: Seq<ViolationModel>,
    i: Seq<ViolationModel>,
    rule_id: Seq<char>,
)
    requires
        is_of(a, "sentence-length"@),
        is_of(b, "paragraph-length"@),
        is_of(c, "contraction"@),
        is_of(d, "semicolon"@),
        is_of(e, "phrasal-verb"@),
        is_of(f, "hedging"@),
        is_of(g, "marketing"@),
        is_of(h, "dictionary-not-approved-word"@),
        is_of(i, "invalid-suppression"@),
    ensures
        of_rule(a + b + c + d + e + f + g + h + i, rule_id) == picked(
            a,
            b,
            c,
            d,
            e,
            f,
            g,
            h,
            i,
            rule_id,
        ),
{
    lemma_nine(a, b, c, d, e, f, g, h, i, rule_id);
    lemma_pick(a, b, c, d, e, f, g, h, i, rule_id);
}

proof fn lemma_nine(
    a: Seq<ViolationModel>,
    b: Seq<ViolationModel>,
    c: Seq<ViolationModel>,
    d: Seq<ViolationModel>,
    e: Seq<ViolationModel>,
    f: Seq<ViolationModel>,
    g: Seq<ViolationModel>,
    h: Seq<ViolationModel>,
    i: Seq<ViolationModel>,
    rule_id: Seq<char>,
)
    requires
        is_of(a, "sentence-length"@),
        is_of(b, "paragraph-length"@),
        is_of(c, "contraction"@),
        is_of(d, "semicolon"@),
        is_of(e, "phrasal-verb"@),
        is_of(f, "hedging"@),
        is_of(g, "marketing"@),
        is_of(h, "dictionary-not-approved-word"@),
        is_of(i, "invalid-suppression"@),
    ensures
        of_rule(a + b + c + d + e + f + g + h + i, rule_id) == parts(
            a,
            b,
            c,
            d,
            e,
            f,
            g,
            h,
            i,
            rule_id,
        ),
{
    let first = a + b + c + d + e;
    lemma_parts(a, b, c, d, e, rule_id);
    lemma_parts(first, f, g, h, i, rule_id);
    lemma_part(a, "sentence-length"@, rule_id);
    lemma_part(b, "paragraph-length"@, rule_id);
    lemma_part(c, "contraction"@, rule_id);
    lemma_part(d, "semicolon"@, rule_id);
    lemma_part(e, "phrasal-verb"@, rule_id);
    lemma_part(f, "hedging"@, rule_id);
    lemma_part(g, "marketing"@, rule_id);
    lemma_part(h, "dictionary-not-approved-word"@, rule_id);
    lemma_part(i, "invalid-suppression"@, rule_id);
}

proof fn lemma_groups(kind: LintKind, rows: Seq<Seq<char>>, config: ConfigModel)
    requires
        forall|k: int| 0 <= k < rows.len() ==> !(#[trigger] rows[k]).contains('\n'),
    ensures
        is_of(engine::sentence_length(kind, rows, config), "sentence-length"@),
        is_of(engine::paragraph_length(kind, rows, config), "paragraph-length"@),
        is_of(engine::contraction(rows, config), "contraction"@),
        is_of(engine::semicolon(kind, rows, config), "semicolon"@),
        is_of(engine::phrasal_verb(rows, config), "phrasal-verb"@),
        is_of(engine::hedging(rows, config), "hedging"@),
        is_of(engine::marketing(rows, config), "marketing"@),
        is_of(engine::ste_dictionary(rows, config), "dictionary-not-approved-word"@),
        is_of(engine::invalid_suppression(rows, config), "invalid-suppression"@),
{
    laws::lemma_found_is_sound(kind, rows, config);
    reveal(is_of);
}

/// Of all that is found, the violations of one rule are what that rule finds,
/// in its order. Violations of no other rules are found.
pub proof fn law_each_rule_is_heard(
    kind: LintKind,
    rows: Seq<Seq<char>>,
    config: ConfigModel,
    rule_id: Seq<char>,
)
    requires
        forall|k: int| 0 <= k < rows.len() ==> !(#[trigger] rows[k]).contains('\n'),
    ensures
        of_rule(engine::found(kind, rows, config), rule_id) == group(kind, rows, config, rule_id),
{
    lemma_groups(kind, rows, config);
    let a = engine::sentence_length(kind, rows, config);
    let b = engine::paragraph_length(kind, rows, config);
    let c = engine::contraction(rows, config);
    let d = engine::semicolon(kind, rows, config);
    let e = engine::phrasal_verb(rows, config);
    let f = engine::hedging(rows, config);
    let g = engine::marketing(rows, config);
    let h = engine::ste_dictionary(rows, config);
    let i = engine::invalid_suppression(rows, config);
    lemma_heard(a, b, c, d, e, f, g, h, i, rule_id);
    let all = picked(a, b, c, d, e, f, g, h, i, rule_id);
    assert(group(kind, rows, config, rule_id) == all);
}

// ── Nothing is lost ────────────────────────────────────────────────────────

proof fn lemma_left(rows: Seq<Seq<char>>, v: Seq<ViolationModel>, n: int)
    requires
        0 <= n <= v.len(),
    ensures
        engine::unsuppressed_to(rows, v, n) == v.take(n).filter(
            |x: ViolationModel| !engine::is_suppressed(rows, x),
        ),
    decreases n,
{
    reveal(Seq::filter);
    if n > 0 {
        lemma_left(rows, v, n - 1);
        assert(v.take(n).drop_last() =~= v.take(n - 1));
    }
}

/// What is found and not suppressed.
pub open spec fn remaining(kind: LintKind, rows: Seq<Seq<char>>, config: ConfigModel) -> Seq<
    ViolationModel,
> {
    engine::found(kind, rows, config).filter(
        |x: ViolationModel| !engine::is_suppressed(rows, x),
    )
}

/// A report holds each violation that is found and not suppressed, as often
/// as it is found, and no other.
pub proof fn law_report_loses_nothing(kind: LintKind, text: Seq<char>, config: ConfigModel)
    ensures
        engine::report(kind, text, config).violations.to_multiset() == remaining(
            kind,
            engine::linted(kind, text, config),
            config,
        ).to_multiset(),
{
    let rows = engine::linted(kind, text, config);
    let all = engine::found(kind, rows, config);
    lemma_left(rows, all, all.len() as int);
    assert(all.take(all.len() as int) =~= all);
    let left = remaining(kind, rows, config);
    laws::law_sorting_keeps_everything(left, left.len() as int);
    assert(left.take(left.len() as int) =~= left);
}

/// A violation is reported exactly when its rule finds it and it is not
/// suppressed.
pub proof fn law_report_holds_what_is_found(
    kind: LintKind,
    text: Seq<char>,
    config: ConfigModel,
    v: ViolationModel,
)
    ensures
        ({
            let rows = engine::linted(kind, text, config);
            engine::report(kind, text, config).violations.contains(v) <==> (group(
                kind,
                rows,
                config,
                v.rule_id,
            ).contains(v) && !engine::is_suppressed(rows, v))
        }),
{
    let rows = engine::linted(kind, text, config);
    let all = engine::found(kind, rows, config);
    let left = remaining(kind, rows, config);
    let got = engine::report(kind, text, config).violations;
    law_report_loses_nothing(kind, text, config);
    laws::lemma_linted(kind, text, config);
    law_each_rule_is_heard(kind, rows, config, v.rule_id);
    got.to_multiset_ensures();
    left.to_multiset_ensures();
    assert(got.contains(v) <==> got.to_multiset().count(v) > 0);
    assert(left.contains(v) <==> left.to_multiset().count(v) > 0);
    lemma_filter_contains(all, |x: ViolationModel| !engine::is_suppressed(rows, x), v);
    lemma_filter_contains(all, |x: ViolationModel| x.rule_id == v.rule_id, v);
}

proof fn lemma_filter_contains<A>(v: Seq<A>, keeps: spec_fn(A) -> bool, x: A)
    ensures
        v.filter(keeps).contains(x) <==> v.contains(x) && keeps(x),
    decreases v.len(),
{
    reveal(Seq::filter);
    if v.len() > 0 {
        let w = v.drop_last();
        lemma_filter_contains(w, keeps, x);
        let kept = w.filter(keeps);
        assert(v =~= w.push(v.last()));
        lemma_push_contains(w, v.last(), x);
        lemma_push_contains(kept, v.last(), x);
    }
}

proof fn lemma_push_contains<A>(v: Seq<A>, y: A, x: A)
    ensures
        v.push(y).contains(x) <==> v.contains(x) || x == y,
{
    let w = v.push(y);
    if w.contains(x) {
        let i = choose|i: int| 0 <= i < w.len() && w[i] == x;
        if i < v.len() {
            assert(v[i] == x);
        }
    }
    if v.contains(x) {
        let i = choose|i: int| 0 <= i < v.len() && v[i] == x;
        assert(w[i] == x);
    }
    if x == y {
        assert(w[v.len() as int] == x);
    }
}

proof fn lemma_one(x: ViolationModel)
    ensures
        seq![x].contains(x),
{
    assert(seq![x][0] == x);
}

/// Every sentence of the linted text with more words than the cap is reported
/// at its line and column, unless the rule is off or a directive suppresses
/// it.
pub proof fn law_long_sentences_are_reported(
    kind: LintKind,
    text: Seq<char>,
    config: ConfigModel,
    k: int,
)
    requires
        types::resolved(config.rules, "sentence-length"@) is Some,
        0 <= k < engine::sentences_of(kind, engine::linted(kind, text, config)).len(),
        engine::sentences_of(kind, engine::linted(kind, text, config))[k].word_count
            > findings::word_cap(config),
    ensures
        ({
            let rows = engine::linted(kind, text, config);
            let s = engine::sentences_of(kind, rows)[k];
            let severity = types::resolved(config.rules, "sentence-length"@)->0;
            let v = ViolationModel {
                rule_id: "sentence-length"@,
                severity,
                message: findings::sentence_message(s, findings::word_cap(config)),
                suggestions: None,
                line: s.line,
                column: s.column,
            };
            engine::is_suppressed(rows, v) || engine::report(
                kind,
                text,
                config,
            ).violations.contains(v)
        }),
{
    let rows = engine::linted(kind, text, config);
    let given = engine::sentences_of(kind, rows);
    let s = given[k];
    let severity = types::resolved(config.rules, "sentence-length"@)->0;
    let v = ViolationModel {
        rule_id: "sentence-length"@,
        severity,
        message: findings::sentence_message(s, findings::word_cap(config)),
        suggestions: None,
        line: s.line,
        column: s.column,
    };
    findings::law_sentence_length(kind, rows, config);
    let f = |k: int| findings::sentence_finding(given[k], findings::word_cap(config), severity);
    lemma_one(v);
    assert(f(k).contains(v));
    lists::lemma_collected_contains(given.len(), f, v);
    law_report_holds_what_is_found(kind, text, config, v);
}

/// Sentence `k` has more words than the cap, and stands at the given place.
pub open spec fn is_long_sentence(
    given: Seq<SentenceModel>,
    cap: nat,
    k: int,
    line: int,
    column: int,
) -> bool {
    &&& 0 <= k < given.len()
    &&& given[k].word_count > cap
    &&& given[k].line == line
    &&& given[k].column == column
}

/// A reported violation of `sentence-length` stands at a sentence with more
/// words than the cap.
pub proof fn law_only_long_sentences_are_reported(
    kind: LintKind,
    text: Seq<char>,
    config: ConfigModel,
    v: ViolationModel,
)
    requires
        engine::report(kind, text, config).violations.contains(v),
        v.rule_id == "sentence-length"@,
    ensures
        exists|k: int|
            #[trigger] is_long_sentence(
                engine::sentences_of(kind, engine::linted(kind, text, config)),
                findings::word_cap(config),
                k,
                v.line,
                v.column,
            ),
{
    let rows = engine::linted(kind, text, config);
    let given = engine::sentences_of(kind, rows);
    law_report_holds_what_is_found(kind, text, config, v);
    findings::law_sentence_length(kind, rows, config);
    if let Some(severity) = types::resolved(config.rules, "sentence-length"@) {
        let f = |k: int|
            findings::sentence_finding(given[k], findings::word_cap(config), severity);
        lists::lemma_collected_contains(given.len(), f, v);
        let k = choose|k: int| 0 <= k < given.len() && #[trigger] f(k).contains(v);
        assert(is_long_sentence(given, findings::word_cap(config), k, v.line, v.column));
    }
}

/// Every paragraph of the linted text with more sentences than the cap is
/// reported at its line and column, unless there is no cap, the rule is off or
/// a directive suppresses it.
pub proof fn law_long_paragraphs_are_reported(
    kind: LintKind,
    text: Seq<char>,
    config: ConfigModel,
    k: int,
)
    requires
        types::resolved(config.rules, "paragraph-length"@) is Some,
        findings::sentence_cap(kind, config) > 0,
        0 <= k < engine::paragraphs_of(kind, engine::linted(kind, text, config)).len(),
        engine::paragraphs_of(kind, engine::linted(kind, text, config))[k].sentences.len()
            > findings::sentence_cap(kind, config),
    ensures
        ({
            let rows = engine::linted(kind, text, config);
            let p = engine::paragraphs_of(kind, rows)[k];
            let v = ViolationModel {
                rule_id: "paragraph-length"@,
                severity: types::resolved(config.rules, "paragraph-length"@)->0,
                message: findings::paragraph_message(p, findings::sentence_cap(kind, config)),
                suggestions: None,
                line: p.line,
                column: p.column,
            };
            engine::is_suppressed(rows, v) || engine::report(
                kind,
                text,
                config,
            ).violations.contains(v)
        }),
{
    let rows = engine::linted(kind, text, config);
    let given = engine::paragraphs_of(kind, rows);
    let p = given[k];
    let severity = types::resolved(config.rules, "paragraph-length"@)->0;
    let v = ViolationModel {
        rule_id: "paragraph-length"@,
        severity,
        message: findings::paragraph_message(p, findings::sentence_cap(kind, config)),
        suggestions: None,
        line: p.line,
        column: p.column,
    };
    findings::law_paragraph_length(kind, rows, config);
    let f = |k: int|
        findings::paragraph_finding(given[k], findings::sentence_cap(kind, config), severity);
    lemma_one(v);
    assert(f(k).contains(v));
    lists::lemma_collected_contains(given.len(), f, v);
    law_report_holds_what_is_found(kind, text, config, v);
    laws::lemma_rule_ids();
}

/// Every semicolon of linted prose is reported at its line and column, unless
/// the rule is off or a directive suppresses it.
pub proof fn law_semicolons_are_reported(
    kind: LintKind,
    text: Seq<char>,
    config: ConfigModel,
    k: int,
    i: int,
)
    requires
        types::resolved(config.rules, "semicolon"@) is Some,
        kind is ProseFile || kind is CommitMessage,
        0 <= k < engine::linted(kind, text, config).len(),
        0 <= i < engine::linted(kind, text, config)[k].len(),
        engine::linted(kind, text, config)[k][i] == ';',
    ensures
        ({
            let rows = engine::linted(kind, text, config);
            let v = ViolationModel {
                rule_id: "semicolon"@,
                severity: types::resolved(config.rules, "semicolon"@)->0,
                message: "Do not use a semicolon in prose. Write two sentences."@,
                suggestions: None,
                line: k + 1,
                column: text::byte_offset(rows[k], i) as int + 1,
            };
            engine::is_suppressed(rows, v) || engine::report(
                kind,
                text,
                config,
            ).violations.contains(v)
        }),
{
    let rows = engine::linted(kind, text, config);
    let s = rows[k];
    let severity = types::resolved(config.rules, "semicolon"@)->0;
    let v = ViolationModel {
        rule_id: "semicolon"@,
        severity,
        message: "Do not use a semicolon in prose. Write two sentences."@,
        suggestions: None,
        line: k + 1,
        column: text::byte_offset(s, i) as int + 1,
    };
    findings::law_semicolon(kind, rows, config);
    let g = |j: int| findings::semicolon_finding(s, j, k + 1, severity);
    let f = |k: int| findings::semicolon_findings(rows[k], k + 1, severity);
    lemma_one(v);
    assert(g(i).contains(v));
    lists::lemma_collected_contains(s.len(), g, v);
    assert(f(k).contains(v));
    lists::lemma_collected_contains(rows.len(), f, v);
    law_report_holds_what_is_found(kind, text, config, v);
    laws::lemma_rule_ids();
}

/// A rule with a word list, and its list.
pub open spec fn is_word_list(rule_id: Seq<char>, entries: Seq<EntryModel>) -> bool {
    ||| rule_id == "phrasal-verb"@ && entries == dictionaries::phrasal_verb_entries()
    ||| rule_id == "hedging"@ && entries == dictionaries::hedging_entries()
    ||| rule_id == "marketing"@ && entries == dictionaries::marketing_entries()
    ||| rule_id == "dictionary-not-approved-word"@ && entries
        == dictionaries::ste_dictionary_entries()
}

/// The violation of a phrase of an entry at character `i` of a line.
pub open spec fn phrase_at(
    s: Seq<char>,
    i: int,
    rule_id: Seq<char>,
    severity: Severity,
    entry: EntryModel,
    phrase: Seq<char>,
    line: int,
) -> ViolationModel {
    ViolationModel {
        rule_id,
        severity,
        message: "Use an approved word instead of \""@ + phrase + "\"."@,
        suggestions: Some(
            seq![
                if entry.suggestions.len() == 0 {
                    "delete"@
                } else {
                    entry.suggestions[0]
                },
            ],
        ),
        line,
        column: text::byte_offset(s, i) as int + 1,
    }
}

proof fn lemma_phrase_is_found(
    rows: Seq<Seq<char>>,
    config: ConfigModel,
    rule_id: Seq<char>,
    entries: Seq<EntryModel>,
    e: int,
    w: int,
    k: int,
    i: int,
)
    requires
        types::resolved(config.rules, rule_id) is Some,
        0 <= e < entries.len(),
        0 <= w < entries[e].unapproved.len(),
        0 <= k < rows.len(),
        0 <= i < rows[k].len(),
        findings::is_phrase_at(rows[k], entries[e].unapproved[w], i),
    ensures
        findings::list_findings(rows, config, rule_id, entries).contains(
            phrase_at(
                rows[k],
                i,
                rule_id,
                types::resolved(config.rules, rule_id)->0,
                entries[e],
                entries[e].unapproved[w],
                k + 1,
            ),
        ),
{
    let severity = types::resolved(config.rules, rule_id)->0;
    let entry = entries[e];
    let phrase = entry.unapproved[w];
    let v = phrase_at(rows[k], i, rule_id, severity, entry, phrase, k + 1);
    let suggestion = v.suggestions->0[0];
    let at = |j: int|
        findings::phrase_finding(rows[k], j, rule_id, severity, phrase, suggestion, k + 1);
    lemma_one(v);
    assert(at(i) =~= seq![v]);
    assert(at(i).contains(v));
    lists::lemma_collected_contains(rows[k].len(), at, v);
    let on = |j: int|
        findings::phrase_findings(rows[j], rule_id, severity, phrase, suggestion, j + 1);
    assert(on(k).contains(v));
    lists::lemma_collected_contains(rows.len(), on, v);
    let of = |x: int|
        lists::collected(
            rows.len(),
            |j: int|
                findings::phrase_findings(
                    rows[j],
                    rule_id,
                    severity,
                    entry.unapproved[x],
                    suggestion,
                    j + 1,
                ),
        );
    assert(of(w).contains(v));
    lists::lemma_collected_contains(entry.unapproved.len(), of, v);
    let every = |x: int| findings::entry_findings(rows, rule_id, severity, entries[x]);
    assert(every(e).contains(v));
    lists::lemma_collected_contains(entries.len(), every, v);
}

/// Every phrase of a word list that stands in the linted text, in any case, is
/// reported at its line and column, unless its rule is off or a directive
/// suppresses it.
pub proof fn law_listed_phrases_are_reported(
    kind: LintKind,
    text: Seq<char>,
    config: ConfigModel,
    rule_id: Seq<char>,
    entries: Seq<EntryModel>,
    e: int,
    w: int,
    k: int,
    i: int,
)
    requires
        is_word_list(rule_id, entries),
        types::resolved(config.rules, rule_id) is Some,
        0 <= e < entries.len(),
        0 <= w < entries[e].unapproved.len(),
        0 <= k < engine::linted(kind, text, config).len(),
        0 <= i < engine::linted(kind, text, config)[k].len(),
        findings::is_phrase_at(
            engine::linted(kind, text, config)[k],
            entries[e].unapproved[w],
            i,
        ),
    ensures
        ({
            let rows = engine::linted(kind, text, config);
            let v = phrase_at(
                rows[k],
                i,
                rule_id,
                types::resolved(config.rules, rule_id)->0,
                entries[e],
                entries[e].unapproved[w],
                k + 1,
            );
            engine::is_suppressed(rows, v) || engine::report(
                kind,
                text,
                config,
            ).violations.contains(v)
        }),
{
    let rows = engine::linted(kind, text, config);
    lemma_phrase_is_found(rows, config, rule_id, entries, e, w, k, i);
    findings::law_word_lists(rows, config);
    laws::lemma_rule_ids();
    let v = phrase_at(
        rows[k],
        i,
        rule_id,
        types::resolved(config.rules, rule_id)->0,
        entries[e],
        entries[e].unapproved[w],
        k + 1,
    );
    assert(group(kind, rows, config, rule_id) == findings::list_findings(
        rows,
        config,
        rule_id,
        entries,
    ));
    law_report_holds_what_is_found(kind, text, config, v);
}

// ── Counts ─────────────────────────────────────────────────────────────────

proof fn lemma_hard(v: Seq<ViolationModel>, n: int)
    requires
        0 <= n <= v.len(),
    ensures
        engine::hard_to(v, n) == v.take(n).filter(
            |x: ViolationModel| x.severity == Severity::Hard,
        ).len(),
    decreases n,
{
    reveal(Seq::filter);
    if n > 0 {
        lemma_hard(v, n - 1);
        assert(v.take(n).drop_last() =~= v.take(n - 1));
    }
}

/// A report counts its violations, and those of them that are hard.
pub proof fn law_counts(v: Seq<ViolationModel>)
    ensures
        engine::report_of(v).violations == v,
        engine::report_of(v).total == v.len(),
        engine::report_of(v).hard == v.filter(
            |x: ViolationModel| x.severity == Severity::Hard,
        ).len(),
{
    lemma_hard(v, v.len() as int);
    assert(v.take(v.len() as int) =~= v);
}

// ── Linted lines ───────────────────────────────────────────────────────────

/// The prose lines are linted as they are. When block quotes are exempt, a
/// line whose first character that is not white is `>` becomes as many spaces
/// as it takes bytes.
pub proof fn law_linted_lines(
    kind: LintKind,
    text: Seq<char>,
    config: ConfigModel,
    k: int,
    pad: Seq<char>,
    rest: Seq<char>,
)
    requires
        0 <= k < prose::prose(kind, text).len(),
        prose::prose(kind, text)[k] == pad + rest,
        text::is_blank(pad),
        words::is_flush(rest),
    ensures
        engine::linted(kind, text, config).len() == prose::prose(kind, text).len(),
        config.exempt_block_quotes && rest.len() > 0 && rest[0] == '>' ==> engine::linted(
            kind,
            text,
            config,
        )[k] == text::spaces(text::byte_len(pad + rest)),
        !(config.exempt_block_quotes && rest.len() > 0 && rest[0] == '>') ==> engine::linted(
            kind,
            text,
            config,
        )[k] == pad + rest,
{
    words::law_indent(pad, rest);
    let s = pad + rest;
    if rest.len() > 0 {
        assert(s[pad.len() as int] == rest[0]);
    }
}

// ── Order ──────────────────────────────────────────────────────────────────

/// A report goes from the first line to the last, and on one line from the
/// first column to the last.
pub proof fn law_report_follows_the_text(
    kind: LintKind,
    text: Seq<char>,
    config: ConfigModel,
    i: int,
    j: int,
)
    requires
        0 <= i < j < engine::report(kind, text, config).violations.len(),
    ensures
        ({
            let v = engine::report(kind, text, config).violations;
            v[i].line < v[j].line || (v[i].line == v[j].line && v[i].column <= v[j].column)
        }),
{
    laws::law_report_is_sorted(kind, text, config);
    let v = engine::report(kind, text, config).violations;
    assert(!engine::is_after(v[i], v[j]));
}

// ── What is segmented ──────────────────────────────────────────────────────

/// The sentences and paragraphs are those of the linted lines, one after the
/// other. Lines are merged into sentences in prose, and not in source code.
pub proof fn law_what_is_segmented(kind: LintKind, rows: Seq<Seq<char>>)
    requires
        rows.len() > 0,
        forall|k: int| 0 <= k < rows.len() ==> !(#[trigger] rows[k]).contains('\n'),
    ensures
        ({
            let text = lines::join(rows, seq!['\n']);
            let given = engine::sentences_of(kind, rows);
            &&& lines::split(text, '\n') == rows
            &&& kind is ProseFile || kind is CommitMessage ==> given == sentences::sentences(
                text,
                true,
            )
            &&& kind is SlashSource || kind is HashSource ==> given == sentences::sentences(
                text,
                false,
            )
            &&& engine::paragraphs_of(kind, rows) == sentences::paragraphs(text, given)
        }),
{
    reveal_strlit("\n");
    assert("\n"@ =~= seq!['\n']);
    lines::law_split_undoes_join(rows, '\n');
}

/// The rules are run one after the other: the length rules, then the rules on
/// characters, then the rules with word lists, and last the one on directives.
pub proof fn law_rules_run_in_order(kind: LintKind, rows: Seq<Seq<char>>, config: ConfigModel)
    ensures
        ({
            let lengths = engine::sentence_length(kind, rows, config) + engine::paragraph_length(
                kind,
                rows,
                config,
            );
            let characters = engine::contraction(rows, config) + engine::semicolon(
                kind,
                rows,
                config,
            );
            let lists = engine::phrasal_verb(rows, config) + engine::hedging(rows, config)
                + engine::marketing(rows, config) + engine::ste_dictionary(rows, config);
            engine::found(kind, rows, config) == lengths + characters + lists
                + engine::invalid_suppression(rows, config)
        }),
{
    lemma_regrouped(
        engine::sentence_length(kind, rows, config),
        engine::paragraph_length(kind, rows, config),
        engine::contraction(rows, config),
        engine::semicolon(kind, rows, config),
        engine::phrasal_verb(rows, config),
        engine::hedging(rows, config),
        engine::marketing(rows, config),
        engine::ste_dictionary(rows, config),
        engine::invalid_suppression(rows, config),
    );
}

proof fn lemma_regrouped(
    a: Seq<ViolationModel>,
    b: Seq<ViolationModel>,
    c: Seq<ViolationModel>,
    d: Seq<ViolationModel>,
    e: Seq<ViolationModel>,
    f: Seq<ViolationModel>,
    g: Seq<ViolationModel>,
    h: Seq<ViolationModel>,
    i: Seq<ViolationModel>,
)
    ensures
        a + b + c + d + e + f + g + h + i == (a + b) + (c + d) + (e + f + g + h) + i,
{
    let ab = a + b;
    assert(ab + c + d =~= ab + (c + d));
    let abcd = ab + (c + d);
    assert(abcd + e + f + g + h =~= abcd + (e + f + g + h));
}

} // verus!

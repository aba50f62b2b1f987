//! Rule implementations.
//!
//! Each rule inspects already-extracted prose lines and returns a list of
//! violations. Rules are independent and order-independent. The engine
//! collects their results.

use vstd::prelude::*;
use vstd::string::StringExecFns;

use crate::dictionaries;
use crate::dictionaries::PhraseEntry;
use crate::foreign;
use crate::lines;
use crate::text;
use crate::types;
use crate::types::{Severity, Violation, ViolationModel};

verus! {

// ── Shared helpers ─────────────────────────────────────────────────────────

/// A text between two others.
fn between(head: &str, body: &str, tail: &str) -> (r: String)
    ensures
        r@ == head@ + body@ + tail@,
{
    let mut r = head.to_owned();
    r.append(body);
    r.append(tail);
    r
}

/// A violation without a suggestion.
pub open spec fn plain(
    rule_id: Seq<char>,
    severity: Severity,
    message: Seq<char>,
    line: int,
    column: int,
) -> ViolationModel {
    ViolationModel { rule_id, severity, message, suggestions: None, line, column }
}

// ── Contractions ───────────────────────────────────────────────────────────

/// The violations of the contractions found in line number `line`.
pub open spec fn contractions_at(
    found: Seq<(nat, Seq<char>)>,
    line: int,
    severity: Severity,
) -> Seq<ViolationModel> {
    Seq::new(
        found.len(),
        |k: int|
            plain(
                "contraction"@,
                severity,
                "Do not use a contraction. Write the words in full. Found \""@ + found[k].1
                    + "\"."@,
                line,
                found[k].0 as int + 1,
            ),
    )
}

/// A line that holds an apostrophe. No other line can hold a contraction.
pub open spec fn has_apostrophe(s: Seq<char>) -> bool {
    s.contains('\'') || s.contains('\u{2019}')
}

/// The contractions of a line: first those without an `s`, then those with.
pub open spec fn contractions_in(s: Seq<char>) -> Seq<(nat, Seq<char>)> {
    if has_apostrophe(s) {
        foreign::regex_matches(foreign::CONTRACTION_RE@, s) + foreign::regex_matches(
            foreign::CONTRACTION_S_RE@,
            s,
        )
    } else {
        Seq::empty()
    }
}

/// The contraction violations of the first `n` lines.
pub open spec fn contractions_to(rows: Seq<Seq<char>>, severity: Severity, n: int) -> Seq<
    ViolationModel,
>
    decreases n,
{
    if n <= 0 {
        Seq::empty()
    } else {
        contractions_to(rows, severity, n - 1) + contractions_at(
            contractions_in(rows[n - 1]),
            n,
            severity,
        )
    }
}

/// The violations of the contractions found in line number `line`. Each is
/// given by its byte offset and its text.
pub fn contraction_violations(found: &Vec<(usize, String)>, line: usize, severity: Severity) -> (r:
    Vec<Violation>)
    requires
        forall|k: int| 0 <= k < found@.len() ==> (#[trigger] found@[k]).0 < usize::MAX,
    ensures
        types::models(r@) == contractions_at(foreign::matches_of(found@), line as int, severity),
{
    let ghost all = contractions_at(foreign::matches_of(found@), line as int, severity);
    let mut r: Vec<Violation> = Vec::new();
    let mut k: usize = 0;
    while k < found.len()
        invariant
            forall|k: int| 0 <= k < found@.len() ==> (#[trigger] found@[k]).0 < usize::MAX,
            all == contractions_at(foreign::matches_of(found@), line as int, severity),
            k <= found@.len(),
            r@.len() == k,
            forall|j: int| 0 <= j < k ==> #[trigger] r@[j]@ == all[j],
        decreases found@.len() - k,
    {
        let message = between(
            "Do not use a contraction. Write the words in full. Found \"",
            found[k].1.as_str(),
            "\".",
        );
        r.push(
            Violation {
                rule_id: "contraction",
                severity,
                message,
                suggestions: None,
                line,
                column: found[k].0 + 1,
            },
        );
        k += 1;
    }
    assert(types::models(r@) =~= all);
    r
}

/// The matches of a pattern in a line.
fn matches_in(pattern: &str, line: &str) -> (r: Vec<(usize, String)>)
    requires
        pattern@ == foreign::CONTRACTION_RE@ || pattern@ == foreign::CONTRACTION_S_RE@ || pattern@
            == foreign::SEMICOLON_RE@,
    ensures
        foreign::matches_of(r@) == foreign::regex_matches(pattern@, line@),
        pattern@ == foreign::SEMICOLON_RE@ ==> foreign::matches_of(r@) == foreign::places_of(
            line@,
            ';',
            line@.len() as int,
        ),
        forall|k: int| 0 <= k < r@.len() ==> (#[trigger] r@[k]).0 < usize::MAX,
{
    let n = text::byte_length(line);
    let r = foreign::find_all(pattern, line);
    proof {
        assert forall|k: int| 0 <= k < r@.len() implies (#[trigger] r@[k]).0 < usize::MAX by {
            let t = r@[k].1@;
            let i = choose|i: int|
                #[trigger] text::occurs_at(line@, t, i) && text::byte_offset(line@, i) == r@[k].0;
            text::lemma_offset_grows(line@, i, line@.len() as int);
        }
        assert(n == text::byte_len(line@));
    }
    r
}

pub fn check_contractions(lines: &[String], severity: Severity) -> (r: Vec<Violation>)
    ensures
        types::models(r@) == contractions_to(
            lines::texts(lines@),
            severity,
            lines@.len() as int,
        ),
{
    let ghost rows = lines::texts(lines@);
    let mut r: Vec<Violation> = Vec::new();
    assert(types::models(r@) =~= Seq::<ViolationModel>::empty());
    let mut i: usize = 0;
    while i < lines.len()
        invariant
            rows == lines::texts(lines@),
            i <= lines@.len(),
            types::models(r@) == contractions_to(rows, severity, i as int),
        decreases lines@.len() - i,
    {
        let line = lines[i].as_str();
        let chars = text::chars_of(line);
        let ghost before = types::models(r@);
        proof {
            assert(rows[i as int] == line@);
            assert(line@.skip(0) =~= line@);
        }
        if text::has_char(&chars, '\'', 0) || text::has_char(&chars, '\u{2019}', 0) {
            let plain = matches_in(foreign::CONTRACTION_RE, line);
            let with_s = matches_in(foreign::CONTRACTION_S_RE, line);
            let mut first = contraction_violations(&plain, i + 1, severity);
            let mut second = contraction_violations(&with_s, i + 1, severity);
            let ghost m = types::models(first@) + types::models(second@);
            r.append(&mut first);
            r.append(&mut second);
            proof {
                let a = foreign::matches_of(plain@);
                let b = foreign::matches_of(with_s@);
                assert(contractions_at(a + b, i + 1, severity) =~= m);
                assert(types::models(r@) =~= before + m);
            }
        } else {
            assert(before =~= before + contractions_at(Seq::empty(), i + 1, severity));
        }
        i += 1;
    }
    r
}

// ── Semicolon ──────────────────────────────────────────────────────────────

/// The violations of the semicolons found in line number `line`.
pub open spec fn semicolons_at(
    found: Seq<(nat, Seq<char>)>,
    line: int,
    severity: Severity,
) -> Seq<ViolationModel> {
    Seq::new(
        found.len(),
        |k: int|
            plain(
                "semicolon"@,
                severity,
                "Do not use a semicolon in prose. Write two sentences."@,
                line,
                found[k].0 as int + 1,
            ),
    )
}

/// The semicolon violations of the first `n` lines: one for each `;`.
pub open spec fn semicolons_to(rows: Seq<Seq<char>>, severity: Severity, n: int) -> Seq<
    ViolationModel,
>
    decreases n,
{
    if n <= 0 {
        Seq::empty()
    } else {
        let s = rows[n - 1];
        semicolons_to(rows, severity, n - 1) + semicolons_at(
            foreign::places_of(s, ';', s.len() as int),
            n,
            severity,
        )
    }
}

/// Check prose lines for semicolons. The engine runs this for the
/// prose kinds only. Source files skip it because a semicolon there
/// is code punctuation.
pub fn check_semicolons(lines: &[String], severity: Severity) -> (r: Vec<Violation>)
    ensures
        types::models(r@) == semicolons_to(lines::texts(lines@), severity, lines@.len() as int),
{
    let ghost rows = lines::texts(lines@);
    let mut r: Vec<Violation> = Vec::new();
    assert(types::models(r@) =~= Seq::<ViolationModel>::empty());
    let mut i: usize = 0;
    while i < lines.len()
        invariant
            rows == lines::texts(lines@),
            i <= lines@.len(),
            types::models(r@) == semicolons_to(rows, severity, i as int),
        decreases lines@.len() - i,
    {
        let line = lines[i].as_str();
        let found = matches_in(foreign::SEMICOLON_RE, line);
        let line_no: usize = i + 1;
        let ghost before = types::models(r@);
        let ghost all = semicolons_at(foreign::matches_of(found@), i + 1, severity);
        assert(rows[i as int] == line@);
        let mut k: usize = 0;
        assert(types::models(r@) =~= before + all.take(0));
        while k < found.len()
            invariant
                forall|k: int| 0 <= k < found@.len() ==> (#[trigger] found@[k]).0 < usize::MAX,
                line_no == i + 1,
                all == semicolons_at(foreign::matches_of(found@), i + 1, severity),
                k <= found@.len(),
                types::models(r@) == before + all.take(k as int),
            decreases found@.len() - k,
        {
            let ghost mid = types::models(r@);
            let v = Violation {
                rule_id: "semicolon",
                severity,
                message: "Do not use a semicolon in prose. Write two sentences.".to_owned(),
                suggestions: None,
                line: line_no,
                column: found[k].0 + 1,
            };
            let ghost m = v@;
            r.push(v);
            proof {
                assert(types::models(r@) =~= mid.push(m));
                assert(m == all[k as int]);
                assert(all.take(k + 1) =~= all.take(k as int).push(m));
            }
            k += 1;
            assert(types::models(r@) =~= before + all.take(k as int));
        }
        assert(all.take(k as int) =~= all);
        i += 1;
    }
    r
}

// ── Phrase-list rules (phrasal verbs, hedging, marketing, STE dict) ───────

/// A character in lower case.
pub open spec fn fold(c: char) -> Seq<char> {
    text::lowered(seq![c])
}

/// The characters of a text, each in lower case.
pub open spec fn folds(s: Seq<char>) -> Seq<Seq<char>> {
    Seq::new(s.len(), |i: int| fold(s[i]))
}

/// What the characters from `i` up to `j` read in lower case.
pub open spec fn reading(lowered: Seq<Seq<char>>, i: int, j: int) -> Seq<char>
    decreases j - i,
{
    if j <= i {
        Seq::empty()
    } else {
        reading(lowered, i, j - 1) + lowered[j - 1]
    }
}

/// What a text reads in lower case.
pub open spec fn folded(s: Seq<char>) -> Seq<char> {
    reading(folds(s), 0, s.len() as int)
}

/// No letter and no digit stands at `i`.
pub open spec fn is_edge(s: Seq<char>, i: int) -> bool {
    !(0 <= i < s.len() && text::is_alnum(s[i]))
}

/// The characters from `i` up to `j` read as the phrase, and a word boundary
/// follows them.
pub open spec fn ends_at(
    line: Seq<char>,
    lowered: Seq<Seq<char>>,
    phrase: Seq<char>,
    i: int,
    j: int,
) -> bool {
    reading(lowered, i, j) == phrase && is_edge(line, j)
}

/// The phrase stands at `i`, with a word boundary on both sides. `lowered`
/// holds the characters of the line in lower case.
pub open spec fn stands_at(
    line: Seq<char>,
    lowered: Seq<Seq<char>>,
    phrase: Seq<char>,
    i: int,
) -> bool {
    is_edge(line, i - 1) && exists|j: int|
        i <= j <= line.len() && #[trigger] ends_at(line, lowered, phrase, i, j)
}

/// The 1-based byte columns where the phrase stands within the first `n`
/// characters of the line.
pub open spec fn columns_to(
    line: Seq<char>,
    lowered: Seq<Seq<char>>,
    phrase: Seq<char>,
    n: int,
) -> Seq<int>
    decreases n,
{
    if n <= 0 {
        Seq::empty()
    } else {
        let before = columns_to(line, lowered, phrase, n - 1);
        if stands_at(line, lowered, phrase, n - 1) {
            before.push(text::byte_offset(line, n - 1) as int + 1)
        } else {
            before
        }
    }
}

/// The columns where a phrase stands in a line, whatever its case. A blank
/// line holds no phrase.
pub open spec fn columns_of(line: Seq<char>, phrase: Seq<char>) -> Seq<int> {
    if text::is_blank(line) {
        Seq::empty()
    } else {
        columns_to(line, folds(line), folded(phrase), line.len() as int)
    }
}

/// A violation for a phrase that has an approved replacement.
pub open spec fn phrase_violation(
    rule_id: Seq<char>,
    severity: Severity,
    phrase: Seq<char>,
    suggestion: Seq<char>,
    line: int,
    column: int,
) -> ViolationModel {
    ViolationModel {
        rule_id,
        severity,
        message: "Use an approved word instead of \""@ + phrase + "\"."@,
        suggestions: Some(seq![suggestion]),
        line,
        column,
    }
}

/// The violations of one phrase in the first `n` lines.
pub open spec fn phrase_to(
    rows: Seq<Seq<char>>,
    rule_id: Seq<char>,
    severity: Severity,
    phrase: Seq<char>,
    suggestion: Seq<char>,
    n: int,
) -> Seq<ViolationModel>
    decreases n,
{
    if n <= 0 {
        Seq::empty()
    } else {
        let columns = columns_of(rows[n - 1], phrase);
        phrase_to(rows, rule_id, severity, phrase, suggestion, n - 1) + Seq::new(
            columns.len(),
            |k: int| phrase_violation(rule_id, severity, phrase, suggestion, n, columns[k]),
        )
    }
}

/// The replacement that an entry suggests.
pub open spec fn suggestion_of(entry: dictionaries::EntryModel) -> Seq<char> {
    if entry.suggestions.len() > 0 {
        entry.suggestions[0]
    } else {
        "delete"@
    }
}

/// The violations of the first `n` phrases of an entry.
pub open spec fn entry_to(
    rows: Seq<Seq<char>>,
    rule_id: Seq<char>,
    severity: Severity,
    entry: dictionaries::EntryModel,
    n: int,
) -> Seq<ViolationModel>
    decreases n,
{
    if n <= 0 {
        Seq::empty()
    } else {
        entry_to(rows, rule_id, severity, entry, n - 1) + phrase_to(
            rows,
            rule_id,
            severity,
            entry.unapproved[n - 1],
            suggestion_of(entry),
            rows.len() as int,
        )
    }
}

/// The violations of the first `n` entries.
pub open spec fn entries_to(
    rows: Seq<Seq<char>>,
    rule_id: Seq<char>,
    severity: Severity,
    entries: Seq<dictionaries::EntryModel>,
    n: int,
) -> Seq<ViolationModel>
    decreases n,
{
    if n <= 0 {
        Seq::empty()
    } else {
        entries_to(rows, rule_id, severity, entries, n - 1) + entry_to(
            rows,
            rule_id,
            severity,
            entries[n - 1],
            entries[n - 1].unapproved.len() as int,
        )
    }
}

/// The violations of a phrase list.
pub open spec fn phrases(
    rows: Seq<Seq<char>>,
    rule_id: Seq<char>,
    severity: Severity,
    entries: Seq<dictionaries::EntryModel>,
) -> Seq<ViolationModel> {
    entries_to(rows, rule_id, severity, entries, entries.len() as int)
}

/// What was read stays at the front of what is read later.
proof fn lemma_reading_grows(lowered: Seq<Seq<char>>, i: int, j: int, k: int)
    requires
        i <= j <= k,
    ensures
        reading(lowered, i, j).len() <= reading(lowered, i, k).len(),
        reading(lowered, i, k).take(reading(lowered, i, j).len() as int) == reading(lowered, i, j),
    decreases k - j,
{
    let a = reading(lowered, i, j);
    if j < k {
        lemma_reading_grows(lowered, i, j, k - 1);
        let b = reading(lowered, i, k - 1);
        assert(reading(lowered, i, k).take(a.len() as int) =~= b.take(a.len() as int));
    } else {
        assert(a.take(a.len() as int) =~= a);
    }
}

fn edge(s: &Vec<char>, i: usize) -> (r: bool)
    ensures
        r == is_edge(s@, i as int),
{
    i >= s.len() || !text::alnum(s[i])
}

/// True when the phrase stands at `i`.
fn phrase_at(line: &Vec<char>, lowered: &Vec<Vec<char>>, phrase: &Vec<char>, i: usize) -> (r: bool)
    requires
        i < line@.len() == lowered@.len(),
    ensures
        r == stands_at(line@, lines::rows(lowered@), phrase@, i as int),
{
    let ghost all = lines::rows(lowered@);
    if i > 0 && !edge(line, i - 1) {
        return false;
    }
    let n: usize = line.len();
    let mut p: usize = 0;
    let mut j: usize = i;
    assert(phrase@.take(0) =~= reading(all, i as int, i as int));
    loop
        invariant
            n == line@.len() == lowered@.len(),
            all == lines::rows(lowered@),
            i <= j <= n,
            p <= phrase@.len(),
            is_edge(line@, i - 1),
            phrase@.take(p as int) == reading(all, i as int, j as int),
            forall|k: int| i <= k < j ==> !#[trigger] ends_at(line@, all, phrase@, i as int, k),
        decreases n - j,
    {
        let ghost read = reading(all, i as int, j as int);
        if p == phrase.len() && edge(line, j) {
            assert(phrase@.take(p as int) =~= phrase@);
            assert(ends_at(line@, all, phrase@, i as int, j as int));
            return true;
        }
        assert(!ends_at(line@, all, phrase@, i as int, j as int)) by {
            if read == phrase@ {
                assert(p == phrase@.len());
            }
        }
        if j == n {
            return false;
        }
        let ghost piece = all[j as int];
        let ghost next = reading(all, i as int, j + 1);
        assert(piece == lowered@[j as int]@);
        assert(next == read + piece);
        if !text::at(phrase, &lowered[j], p) {
            assert forall|k: int| i <= k <= n implies !#[trigger] ends_at(
                line@,
                all,
                phrase@,
                i as int,
                k,
            ) by {
                if k > j && reading(all, i as int, k) == phrase@ {
                    lemma_reading_grows(all, i as int, j + 1, k);
                    assert(phrase@.take(next.len() as int) == next);
                    assert(next.subrange(p as int, p + piece.len()) =~= piece);
                    assert(phrase@.subrange(p as int, p + piece.len()) =~= phrase@.take(
                        next.len() as int,
                    ).subrange(p as int, p + piece.len()));
                }
            }
            return false;
        }
        assert(phrase@.take(p + piece.len()) =~= next);
        p += lowered[j].len();
        j += 1;
    }
}

/// Columns as integers.
pub open spec fn ints(v: Seq<usize>) -> Seq<int> {
    Seq::new(v.len(), |i: int| v[i] as int)
}

fn columns(line: &Vec<char>, lowered: &Vec<Vec<char>>, phrase: &Vec<char>) -> (r: Vec<usize>)
    requires
        text::byte_len(line@) <= usize::MAX,
        line@.len() == lowered@.len(),
    ensures
        ints(r@) == columns_to(line@, lines::rows(lowered@), phrase@, line@.len() as int),
{
    let ghost all = lines::rows(lowered@);
    let mut r: Vec<usize> = Vec::new();
    assert(ints(r@) =~= Seq::<int>::empty());
    let mut k: usize = 0;
    let mut at: usize = 0;
    while k < line.len()
        invariant
            text::byte_len(line@) <= usize::MAX,
            line@.len() == lowered@.len(),
            all == lines::rows(lowered@),
            k <= line@.len(),
            at == text::byte_offset(line@, k as int),
            ints(r@) == columns_to(line@, all, phrase@, k as int),
        decreases line@.len() - k,
    {
        proof {
            text::lemma_offset_grows(line@, k + 1, line@.len() as int);
        }
        if phrase_at(line, lowered, phrase, k) {
            let ghost before = ints(r@);
            r.push(at + 1);
            assert(ints(r@) =~= before.push(at + 1));
        }
        at += text::char_width(line[k]);
        k += 1;
    }
    r
}

/// The 1-based byte columns of the line where the phrase stands, with a word
/// boundary on both sides. `lowered` holds each character of the line in
/// lower case, and the phrase is given in lower case.
pub fn phrase_columns(line: &str, lowered: &Vec<String>, phrase: &str) -> (r: Vec<usize>)
    requires
        lowered@.len() == line@.len(),
    ensures
        ints(r@) == columns_to(line@, lines::texts(lowered@), phrase@, line@.len() as int),
{
    let n = text::byte_length(line);
    let mut rows: Vec<Vec<char>> = Vec::new();
    let mut i: usize = 0;
    while i < lowered.len()
        invariant
            i <= lowered@.len(),
            rows@.len() == i,
            forall|k: int| 0 <= k < i ==> (#[trigger] rows@[k])@ == lowered@[k]@,
        decreases lowered@.len() - i,
    {
        rows.push(text::chars_of(lowered[i].as_str()));
        i += 1;
    }
    assert(lines::rows(rows@) =~= lines::texts(lowered@));
    columns(&text::chars_of(line), &rows, &text::chars_of(phrase))
}

/// A character in lower case.
fn fold_of(c: char) -> (r: Vec<char>)
    ensures
        r@ == fold(c),
{
    let mut s = String::new();
    s.push(c);
    assert(s@ =~= seq![c]);
    text::chars_of(text::lower(s.as_str()).as_str())
}

/// The characters of a text, each in lower case.
fn folds_of(s: &Vec<char>) -> (r: Vec<Vec<char>>)
    ensures
        lines::rows(r@) == folds(s@),
{
    let mut r: Vec<Vec<char>> = Vec::new();
    let mut i: usize = 0;
    while i < s.len()
        invariant
            i <= s@.len(),
            r@.len() == i,
            forall|k: int| 0 <= k < i ==> (#[trigger] r@[k])@ == fold(s@[k]),
        decreases s@.len() - i,
    {
        r.push(fold_of(s[i]));
        i += 1;
    }
    assert(lines::rows(r@) =~= folds(s@));
    r
}

/// What a text reads in lower case.
fn folded_of(s: &Vec<char>) -> (r: Vec<char>)
    ensures
        r@ == folded(s@),
{
    let mut r: Vec<char> = Vec::new();
    let mut i: usize = 0;
    while i < s.len()
        invariant
            i <= s@.len(),
            r@ == reading(folds(s@), 0, i as int),
        decreases s@.len() - i,
    {
        let mut more = fold_of(s[i]);
        r.append(&mut more);
        i += 1;
    }
    r
}

/// The lines as characters, as they were written and in lower case.
fn lowered_lines(lines: &[String]) -> (r: Vec<(Vec<char>, Vec<Vec<char>>)>)
    ensures
        is_lowered(lines@, r@),
{
    let mut r: Vec<(Vec<char>, Vec<Vec<char>>)> = Vec::new();
    let mut i: usize = 0;
    while i < lines.len()
        invariant
            i <= lines@.len(),
            r@.len() == i,
            forall|k: int|
                0 <= k < i ==> (#[trigger] r@[k]).0@ == lines@[k]@ && lines::rows(r@[k].1@)
                    == folds(lines@[k]@) && text::byte_len(r@[k].0@) <= usize::MAX,
        decreases lines@.len() - i,
    {
        let line = lines[i].as_str();
        let n = text::byte_length(line);
        let s = text::chars_of(line);
        let lowered = folds_of(&s);
        r.push((s, lowered));
        i += 1;
    }
    r
}

/// What `lowered_lines` gives.
spec fn is_lowered(lines: Seq<String>, r: Seq<(Vec<char>, Vec<Vec<char>>)>) -> bool {
    r.len() == lines.len() && forall|k: int|
        0 <= k < r.len() ==> (#[trigger] r[k]).0@ == lines[k]@ && lines::rows(r[k].1@) == folds(
            lines[k]@,
        ) && text::byte_len(r[k].0@) <= usize::MAX
}

/// Adds the violations of one phrase.
fn push_phrase(
    out: &mut Vec<Violation>,
    lines: &[String],
    lowered: &Vec<(Vec<char>, Vec<Vec<char>>)>,
    rule_id: &'static str,
    severity: Severity,
    phrase: &str,
    suggestion: &str,
)
    requires
        is_lowered(lines@, lowered@),
    ensures
        types::models(final(out)@) == types::models(old(out)@) + phrase_to(
            lines::texts(lines@),
            rule_id@,
            severity,
            phrase@,
            suggestion@,
            lines@.len() as int,
        ),
{
    let ghost rows = lines::texts(lines@);
    let ghost before = types::models(out@);
    let lowered_phrase = folded_of(&text::chars_of(phrase));
    let mut i: usize = 0;
    assert(before =~= before + phrase_to(rows, rule_id@, severity, phrase@, suggestion@, 0));
    while i < lines.len()
        invariant
            is_lowered(lines@, lowered@),
            rows == lines::texts(lines@),
            lowered_phrase@ == folded(phrase@),
            i <= lines@.len(),
            types::models(out@) == before + phrase_to(
                rows,
                rule_id@,
                severity,
                phrase@,
                suggestion@,
                i as int,
            ),
        decreases lines@.len() - i,
    {
        let line_no: usize = i + 1;
        assert(lines::rows(lowered@[i as int].1@).len() == lowered@[i as int].0@.len());
        let found = if text::blank(&lowered[i].0) {
            Vec::new()
        } else {
            columns(&lowered[i].0, &lowered[i].1, &lowered_phrase)
        };
        let ghost start = types::models(out@);
        let ghost all = Seq::new(
            found@.len(),
            |k: int|
                phrase_violation(
                    rule_id@,
                    severity,
                    phrase@,
                    suggestion@,
                    i + 1,
                    ints(found@)[k],
                ),
        );
        assert(rows[i as int] == lines@[i as int]@);
        assert(ints(found@) =~= columns_of(rows[i as int], phrase@));
        let mut k: usize = 0;
        assert(start =~= start + all.take(0));
        while k < found.len()
            invariant
                line_no == i + 1,
                all == Seq::new(
                    found@.len(),
                    |k: int|
                        phrase_violation(
                            rule_id@,
                            severity,
                            phrase@,
                            suggestion@,
                            i + 1,
                            ints(found@)[k],
                        ),
                ),
                k <= found@.len(),
                types::models(out@) == start + all.take(k as int),
            decreases found@.len() - k,
        {
            let ghost mid = types::models(out@);
            let suggestions = vec![suggestion.to_owned()];
            assert(lines::texts(suggestions@) =~= seq![suggestion@]);
            let v = Violation {
                rule_id,
                severity,
                message: between("Use an approved word instead of \"", phrase, "\"."),
                suggestions: Some(suggestions),
                line: line_no,
                column: found[k],
            };
            let ghost m = v@;
            out.push(v);
            proof {
                assert(types::models(out@) =~= mid.push(m));
                assert(m == all[k as int]);
                assert(all.take(k + 1) =~= all.take(k as int).push(m));
            }
            k += 1;
            assert(types::models(out@) =~= start + all.take(k as int));
        }
        proof {
            assert(all.take(k as int) =~= all);
            let done = phrase_to(rows, rule_id@, severity, phrase@, suggestion@, i as int);
            let next = phrase_to(rows, rule_id@, severity, phrase@, suggestion@, i + 1);
            assert(next =~= done + all);
            assert(before + done + all =~= before + next);
        }
        i += 1;
    }
}

fn phrase_violations(
    lines: &[String],
    entries: &Vec<PhraseEntry>,
    rule_id: &'static str,
    severity: Severity,
) -> (r: Vec<Violation>)
    ensures
        types::models(r@) == phrases(
            lines::texts(lines@),
            rule_id@,
            severity,
            dictionaries::entry_models(entries@),
        ),
{
    let ghost rows = lines::texts(lines@);
    let ghost all = dictionaries::entry_models(entries@);
    let lowered = lowered_lines(lines);
    let mut r: Vec<Violation> = Vec::new();
    assert(types::models(r@) =~= Seq::<ViolationModel>::empty());
    let mut e: usize = 0;
    while e < entries.len()
        invariant
            is_lowered(lines@, lowered@),
            rows == lines::texts(lines@),
            all == dictionaries::entry_models(entries@),
            e <= entries@.len(),
            types::models(r@) == entries_to(rows, rule_id@, severity, all, e as int),
        decreases entries@.len() - e,
    {
        let entry = &entries[e];
        let ghost m = all[e as int];
        let ghost start = types::models(r@);
        let suggestion = if entry.suggestions.len() > 0 {
            entry.suggestions[0].as_str()
        } else {
            "delete"
        };
        let mut j: usize = 0;
        assert(start =~= start + entry_to(rows, rule_id@, severity, m, 0));
        while j < entry.unapproved.len()
            invariant
                is_lowered(lines@, lowered@),
                rows == lines::texts(lines@),
                m == entry@,
                suggestion@ == suggestion_of(m),
                j <= entry.unapproved@.len(),
                types::models(r@) == start + entry_to(rows, rule_id@, severity, m, j as int),
            decreases entry.unapproved@.len() - j,
        {
            let phrase = entry.unapproved[j].as_str();
            assert(m.unapproved[j as int] == phrase@);
            push_phrase(&mut r, lines, &lowered, rule_id, severity, phrase, suggestion);
            proof {
                let done = entry_to(rows, rule_id@, severity, m, j as int);
                let next = entry_to(rows, rule_id@, severity, m, j + 1);
                assert(start + next =~= start + done + phrase_to(
                    rows,
                    rule_id@,
                    severity,
                    phrase@,
                    suggestion@,
                    rows.len() as int,
                ));
            }
            j += 1;
        }
        e += 1;
    }
    r
}

pub fn check_phrasal_verbs(lines: &[String], severity: Severity) -> (r: Vec<Violation>)
    ensures
        types::models(r@) == phrases(
            lines::texts(lines@),
            "phrasal-verb"@,
            severity,
            dictionaries::phrasal_verb_entries(),
        ),
{
    phrase_violations(lines, &dictionaries::phrasal_verbs(), "phrasal-verb", severity)
}

pub fn check_hedging(lines: &[String], severity: Severity) -> (r: Vec<Violation>)
    ensures
        types::models(r@) == phrases(
            lines::texts(lines@),
            "hedging"@,
            severity,
            dictionaries::hedging_entries(),
        ),
{
    phrase_violations(lines, &dictionaries::hedging(), "hedging", severity)
}

pub fn check_marketing(lines: &[String], severity: Severity) -> (r: Vec<Violation>)
    ensures
        types::models(r@) == phrases(
            lines::texts(lines@),
            "marketing"@,
            severity,
            dictionaries::marketing_entries(),
        ),
{
    phrase_violations(lines, &dictionaries::marketing(), "marketing", severity)
}

pub fn check_ste_dictionary(lines: &[String], severity: Severity) -> (r: Vec<Violation>)
    ensures
        types::models(r@) == phrases(
            lines::texts(lines@),
            "dictionary-not-approved-word"@,
            severity,
            dictionaries::ste_dictionary_entries(),
        ),
{
    phrase_violations(
        lines,
        &dictionaries::ste_dictionary(),
        "dictionary-not-approved-word",
        severity,
    )
}

// ── Suppression directives ─────────────────────────────────────────────────

/// The rules that a suppression directive can name.
pub const REGISTERED_RULE_IDS: &'static [&'static str; 12] = &[
    "contraction",
    "dictionary-not-approved-word",
    "hedging",
    "invalid-suppression",
    "marketing",
    "paragraph-length",
    "phrasal-verb",
    "semicolon",
    "sentence-length",
    "verb-progressive",
    "verb-passive",
    "verb-perfect",
];

/// The word that makes a line a suppression directive.
pub const MARKER: &'static str = "ste-disable-next-line";

/// A character between the names of a directive.
pub open spec fn is_separator(c: char) -> bool {
    text::is_white(c) || c == ',' || c == ':'
}

/// A text as a list: none when it is empty.
pub open spec fn nonempty(s: Seq<char>) -> Seq<Seq<char>> {
    if s.len() == 0 {
        Seq::empty()
    } else {
        seq![s]
    }
}

/// The names in `s[start..]`, where no separator stands before `i`.
pub open spec fn names_from(s: Seq<char>, start: int, i: int) -> Seq<Seq<char>>
    decreases s.len() - i,
{
    if i < 0 || i >= s.len() {
        nonempty(s.subrange(start, s.len() as int))
    } else if is_separator(s[i]) {
        nonempty(s.subrange(start, i)) + names_from(s, i + 1, i + 1)
    } else {
        names_from(s, start, i + 1)
    }
}

/// The names in a text: the longest stretches without a separator.
pub open spec fn names(s: Seq<char>) -> Seq<Seq<char>> {
    names_from(s, 0, 0)
}

/// What follows the first marker of a line.
pub open spec fn after_marker(s: Seq<char>) -> Seq<char> {
    s.skip(text::find_from(s, MARKER@, 0)->0 + MARKER@.len())
}

/// Those of the first `n` names that are not the marker itself.
pub open spec fn rules_to(names: Seq<Seq<char>>, n: int) -> Seq<Seq<char>>
    decreases n,
{
    if n <= 0 {
        Seq::empty()
    } else if names[n - 1] == MARKER@ {
        rules_to(names, n - 1)
    } else {
        rules_to(names, n - 1).push(names[n - 1])
    }
}

/// The rules that a line with a marker names: all names after the first
/// marker. A further marker names no rule.
pub open spec fn named_rules(s: Seq<char>) -> Seq<Seq<char>> {
    let all = names(after_marker(s));
    rules_to(all, all.len() as int)
}

/// Those of the first `n` names that are not registered.
pub open spec fn unknown_to(names: Seq<Seq<char>>, registered: Seq<Seq<char>>, n: int) -> Seq<
    Seq<char>,
>
    decreases n,
{
    if n <= 0 {
        Seq::empty()
    } else if registered.contains(names[n - 1]) {
        unknown_to(names, registered, n - 1)
    } else {
        unknown_to(names, registered, n - 1).push(names[n - 1])
    }
}

/// The names that are not registered.
pub open spec fn unknown(names: Seq<Seq<char>>, registered: Seq<Seq<char>>) -> Seq<Seq<char>> {
    unknown_to(names, registered, names.len() as int)
}

/// A text in double quotes.
pub open spec fn quoted(s: Seq<char>) -> Seq<char> {
    "\""@ + s + "\""@
}

/// Texts in double quotes.
pub open spec fn all_quoted(v: Seq<Seq<char>>) -> Seq<Seq<char>> {
    Seq::new(v.len(), |i: int| quoted(v[i]))
}

/// What is wrong with a directive that names `given`. A directive must name
/// at least one rule, and every rule that it names must be registered.
pub open spec fn directive_fault(given: Seq<Seq<char>>, registered: Seq<Seq<char>>) -> Option<
    Seq<char>,
> {
    let bad = unknown(given, registered);
    if given.len() == 0 {
        Some("Suppression directive must name at least one rule id."@)
    } else if bad.len() > 0 {
        Some(
            "Suppression directive names unknown rule ids: "@ + lines::join(all_quoted(bad), ", "@)
                + "."@,
        )
    } else {
        None
    }
}

/// The violation of a line that holds a faulty directive.
pub open spec fn suppression_at(
    s: Seq<char>,
    registered: Seq<Seq<char>>,
    severity: Severity,
    line: int,
) -> Seq<ViolationModel> {
    match text::find_from(s, MARKER@, 0) {
        Some(at) => match directive_fault(named_rules(s), registered) {
            Some(message) => seq![
                plain(
                    "invalid-suppression"@,
                    severity,
                    message,
                    line,
                    text::byte_offset(s, at) as int + 1,
                ),
            ],
            None => Seq::empty(),
        },
        None => Seq::empty(),
    }
}

/// The violations of the first `n` lines.
pub open spec fn suppression_to(
    rows: Seq<Seq<char>>,
    registered: Seq<Seq<char>>,
    severity: Severity,
    n: int,
) -> Seq<ViolationModel>
    decreases n,
{
    if n <= 0 {
        Seq::empty()
    } else {
        suppression_to(rows, registered, severity, n - 1) + suppression_at(
            rows[n - 1],
            registered,
            severity,
            n,
        )
    }
}

fn separator(c: char) -> (r: bool)
    ensures
        r == is_separator(c),
{
    text::white(c) || c == ',' || c == ':'
}

/// The names in a text.
pub fn names_of(s: &Vec<char>) -> (r: Vec<String>)
    ensures
        lines::texts(r@) == names(s@),
{
    let mut r: Vec<String> = Vec::new();
    let mut start: usize = 0;
    let mut i: usize = 0;
    assert(lines::texts(r@) + names_from(s@, 0, 0) =~= names(s@));
    while i < s.len()
        invariant
            start <= i <= s@.len(),
            lines::texts(r@) + names_from(s@, start as int, i as int) == names(s@),
        decreases s@.len() - i,
    {
        if separator(s[i]) {
            let ghost before = lines::texts(r@);
            let ghost piece = s@.subrange(start as int, i as int);
            if start < i {
                let name = text::string_of(s, start, i);
                r.push(name);
                assert(lines::texts(r@) =~= before.push(piece));
            }
            assert(before + (nonempty(piece) + names_from(s@, i + 1, i + 1)) =~= lines::texts(r@)
                + names_from(s@, i + 1, i + 1));
            start = i + 1;
        }
        i += 1;
    }
    let ghost before = lines::texts(r@);
    let ghost piece = s@.subrange(start as int, i as int);
    if start < i {
        let name = text::string_of(s, start, i);
        r.push(name);
        assert(lines::texts(r@) =~= before.push(piece));
    }
    assert(before + nonempty(piece) =~= lines::texts(r@));
    r
}

/// True when `name` is one of `registered`.
pub fn is_one_of(registered: &[&str], name: &str) -> (r: bool)
    ensures
        r == dictionaries::strs(registered@).contains(name@),
{
    let ghost all = dictionaries::strs(registered@);
    let mut i: usize = 0;
    while i < registered.len()
        invariant
            all == dictionaries::strs(registered@),
            i <= registered@.len(),
            forall|k: int| 0 <= k < i ==> #[trigger] all[k] != name@,
        decreases registered@.len() - i,
    {
        if text::same(registered[i], name) {
            assert(all[i as int] == name@);
            return true;
        }
        i += 1;
    }
    false
}

/// What is wrong with a directive that names `given`.
fn find_fault(given: &Vec<String>, registered: &[&str]) -> (r: Option<String>)
    ensures
        match r {
            Some(m) => directive_fault(
                lines::texts(given@),
                dictionaries::strs(registered@),
            ) == Some(m@),
            None => directive_fault(
                lines::texts(given@),
                dictionaries::strs(registered@),
            ) is None,
        },
{
    if given.len() == 0 {
        return Some("Suppression directive must name at least one rule id.".to_owned());
    }
    let ghost all = lines::texts(given@);
    let ghost ids = dictionaries::strs(registered@);
    let mut bad: Vec<String> = Vec::new();
    assert(lines::texts(bad@) =~= all_quoted(unknown_to(all, ids, 0)));
    let mut i: usize = 0;
    while i < given.len()
        invariant
            all == lines::texts(given@),
            ids == dictionaries::strs(registered@),
            i <= given@.len(),
            lines::texts(bad@) == all_quoted(unknown_to(all, ids, i as int)),
        decreases given@.len() - i,
    {
        let name = given[i].as_str();
        assert(all[i as int] == name@);
        if !is_one_of(registered, name) {
            let ghost before = lines::texts(bad@);
            let q = between("\"", name, "\"");
            let ghost m = q@;
            bad.push(q);
            assert(lines::texts(bad@) =~= before.push(m));
            assert(lines::texts(bad@) =~= all_quoted(unknown_to(all, ids, i + 1)));
        }
        i += 1;
    }
    if bad.len() == 0 {
        assert(all_quoted(unknown(all, ids)).len() == lines::texts(bad@).len());
        return None;
    }
    assert(all_quoted(unknown(all, ids)).len() == lines::texts(bad@).len());
    Some(
        between(
            "Suppression directive names unknown rule ids: ",
            lines::join_strings(&bad, ", ").as_str(),
            ".",
        ),
    )
}

/// Where the first marker of a line starts.
pub fn find_marker(s: &Vec<char>) -> (r: Option<usize>)
    ensures
        match r {
            Some(at) => text::find_from(s@, MARKER@, 0) == Some(at as int) && at + MARKER@.len()
                <= s@.len(),
            None => text::find_from(s@, MARKER@, 0) is None,
        },
{
    text::find(s, &text::chars_of(MARKER), 0)
}

/// What follows the marker at `at`.
pub fn rest_after(s: &Vec<char>, at: usize) -> (r: Vec<char>)
    requires
        text::find_from(s@, MARKER@, 0) == Some(at as int),
        at + MARKER@.len() <= s@.len(),
    ensures
        r@ == after_marker(s@),
{
    let m = text::chars_of(MARKER);
    let n: usize = s.len();
    let r = text::part_of(s, at + m.len(), n);
    assert(r@ =~= after_marker(s@));
    r
}

/// The names that are not the marker itself.
fn rules_named(names: &Vec<String>) -> (r: Vec<String>)
    ensures
        lines::texts(r@) == rules_to(lines::texts(names@), names@.len() as int),
{
    let ghost all = lines::texts(names@);
    let mut r: Vec<String> = Vec::new();
    assert(lines::texts(r@) =~= Seq::<Seq<char>>::empty());
    let mut i: usize = 0;
    while i < names.len()
        invariant
            all == lines::texts(names@),
            i <= names@.len(),
            lines::texts(r@) == rules_to(all, i as int),
        decreases names@.len() - i,
    {
        assert(all[i as int] == names@[i as int]@);
        if !text::same(names[i].as_str(), MARKER) {
            let ghost before = lines::texts(r@);
            r.push(names[i].clone());
            assert(lines::texts(r@) =~= before.push(all[i as int]));
        }
        i += 1;
    }
    r
}

/// Validate `ste-disable-next-line` directives: every rule ID named in the
/// directive must be a registered rule.
pub fn check_suppression(lines: &[String], registered: &[&str], severity: Severity) -> (r: Vec<
    Violation,
>)
    ensures
        types::models(r@) == suppression_to(
            lines::texts(lines@),
            dictionaries::strs(registered@),
            severity,
            lines@.len() as int,
        ),
{
    let ghost rows = lines::texts(lines@);
    let ghost ids = dictionaries::strs(registered@);
    let mut r: Vec<Violation> = Vec::new();
    assert(types::models(r@) =~= Seq::<ViolationModel>::empty());
    let mut i: usize = 0;
    while i < lines.len()
        invariant
            rows == lines::texts(lines@),
            ids == dictionaries::strs(registered@),
            i <= lines@.len(),
            types::models(r@) == suppression_to(rows, ids, severity, i as int),
        decreases lines@.len() - i,
    {
        let ghost before = types::models(r@);
        let line = lines[i].as_str();
        let n = text::byte_length(line);
        let s = text::chars_of(line);
        assert(rows[i as int] == s@);
        if let Some(at) = find_marker(&s) {
            let named = rules_named(&names_of(&rest_after(&s, at)));
            if let Some(message) = find_fault(&named, registered) {
                proof {
                    reveal_strlit("ste-disable-next-line");
                    text::lemma_offset_grows(s@, at as int, s@.len() as int);
                }
                let v = Violation {
                    rule_id: "invalid-suppression",
                    severity,
                    message,
                    suggestions: None,
                    line: i + 1,
                    column: text::offset_at(&s, at) + 1,
                };
                let ghost m = v@;
                r.push(v);
                assert(types::models(r@) =~= before + seq![m]);
            }
        }
        assert(types::models(r@) =~= before + suppression_at(s@, ids, severity, i + 1));
        i += 1;
    }
    r
}

} // verus!

//! Diff-aware linting.
//!
//! Linting each `write` or `edit` payload in isolation reports every
//! violation, even ones that already existed in the file before the agent
//! touched it. That floods the user with noise on pre-existing text.
//!
//! This module computes which *lines of the new content* actually changed
//! relative to the previous content, lints the full new content, then
//! discards any violation that lands on an unchanged line. New files (no
//! previous content) are linted in full.

use std::collections::HashSet;

use vstd::prelude::*;
use vstd::string::StringExecFns;

use crate::engine;
use crate::foreign;
use crate::foreign::ChangeTag;
use crate::laws;
use crate::lines;
use crate::prose;
use crate::text;
use crate::types;
use crate::types::{ConfigModel, LintConfig, LintKind, LintReport, ReportModel, Violation, ViolationModel};

verus! {

broadcast use vstd::std_specs::hash::group_hash_axioms;

// ── Edits ──────────────────────────────────────────────────────────────────

/// How often `p` occurs in `s[i..]`, without overlaps, from the left.
pub open spec fn count_from(s: Seq<char>, p: Seq<char>, i: int) -> nat
    decreases s.len() - i,
    via count_from_decreases
{
    if p.len() == 0 || i < 0 {
        0
    } else {
        match text::find_from(s, p, i) {
            Some(j) => 1 + count_from(s, p, j + p.len()),
            None => 0,
        }
    }
}

#[via_fn]
proof fn count_from_decreases(s: Seq<char>, p: Seq<char>, i: int) {
    if i >= 0 {
        text::lemma_find_from(s, p, i);
    }
}

/// `s[i..]` with every occurrence of `p` replaced by `q`, from the left.
pub open spec fn replaced_from(s: Seq<char>, p: Seq<char>, q: Seq<char>, i: int) -> Seq<char>
    decreases s.len() - i,
    via replaced_from_decreases
{
    if p.len() == 0 || i < 0 {
        s
    } else {
        match text::find_from(s, p, i) {
            Some(j) => s.subrange(i, j) + q + replaced_from(s, p, q, j + p.len()),
            None => s.skip(i),
        }
    }
}

#[via_fn]
proof fn replaced_from_decreases(s: Seq<char>, p: Seq<char>, q: Seq<char>, i: int) {
    if i >= 0 {
        text::lemma_find_from(s, p, i);
    }
}

/// `s` with the first occurrence of `p` replaced by `q`.
pub open spec fn replaced_once(s: Seq<char>, p: Seq<char>, q: Seq<char>) -> Seq<char> {
    match text::find_from(s, p, 0) {
        Some(j) => s.take(j) + q + s.skip(j + p.len()),
        None => s,
    }
}

/// Why an edit cannot be applied. The text to replace must not be empty,
/// must occur, and must be unique unless all occurrences are to be replaced.
pub open spec fn edit_fault(content: Seq<char>, old_string: Seq<char>, replace_all: bool) -> Option<
    Seq<char>,
> {
    let count = count_from(content, old_string, 0);
    if old_string.len() == 0 {
        Some("old_string is empty"@)
    } else if count == 0 {
        Some("old_string not found in file"@)
    } else if count > 1 && !replace_all {
        Some(
            "old_string appears "@ + text::decimal(count)
                + " times; set replace_all or use more context"@,
        )
    } else {
        None
    }
}

/// A text after an edit that can be applied.
pub open spec fn edited(
    content: Seq<char>,
    old_string: Seq<char>,
    new_string: Seq<char>,
    replace_all: bool,
) -> Seq<char> {
    if replace_all {
        replaced_from(content, old_string, new_string, 0)
    } else {
        replaced_once(content, old_string, new_string)
    }
}

/// How often `p` occurs in `s`.
fn count_matches(s: &Vec<char>, p: &Vec<char>) -> (r: usize)
    requires
        p@.len() > 0,
    ensures
        r == count_from(s@, p@, 0),
{
    let n: usize = s.len();
    let mut r: usize = 0;
    let mut i: usize = 0;
    loop
        invariant
            p@.len() > 0,
            i <= s@.len() == n,
            r <= i,
            r + count_from(s@, p@, i as int) == count_from(s@, p@, 0),
        decreases s@.len() - i,
    {
        match text::find(s, p, i) {
            Some(j) => {
                r += 1;
                i = j + p.len();
            },
            None => {
                return r;
            },
        }
    }
}

/// `s` with every occurrence of `p` replaced by `q`.
fn replace_every(s: &Vec<char>, p: &Vec<char>, q: &str) -> (r: String)
    requires
        p@.len() > 0,
    ensures
        r@ == replaced_from(s@, p@, q@, 0),
{
    let n: usize = s.len();
    let mut r = String::new();
    let mut i: usize = 0;
    assert(r@ + replaced_from(s@, p@, q@, 0) =~= replaced_from(s@, p@, q@, 0));
    loop
        invariant
            p@.len() > 0,
            i <= s@.len() == n,
            r@ + replaced_from(s@, p@, q@, i as int) == replaced_from(s@, p@, q@, 0),
        decreases s@.len() - i,
    {
        let ghost before = r@;
        match text::find(s, p, i) {
            Some(j) => {
                let head = text::string_of(s, i, j);
                r.append(head.as_str());
                r.append(q);
                let ghost rest = replaced_from(s@, p@, q@, j + p@.len());
                assert(before + (s@.subrange(i as int, j as int) + q@ + rest) =~= r@ + rest);
                i = j + p.len();
            },
            None => {
                let tail = text::string_of(s, i, n);
                assert(tail@ =~= s@.skip(i as int));
                r.append(tail.as_str());
                return r;
            },
        }
    }
}

/// Apply one edit, with the semantics of the harness `edit` tool.
///
/// - empty `old` is an error
/// - `old` must occur at least once
/// - when `replace_all` is false, `old` must be unique
pub fn apply_edit(content: &str, old_string: &str, new_string: &str, replace_all: bool) -> (r:
    Result<String, String>)
    ensures
        match r {
            Ok(s) => edit_fault(content@, old_string@, replace_all) is None && s@ == edited(
                content@,
                old_string@,
                new_string@,
                replace_all,
            ),
            Err(e) => edit_fault(content@, old_string@, replace_all) == Some(e@),
        },
{
    let s = text::chars_of(content);
    let p = text::chars_of(old_string);
    if p.len() == 0 {
        return Err("old_string is empty".to_owned());
    }
    let count = count_matches(&s, &p);
    if count == 0 {
        return Err("old_string not found in file".to_owned());
    }
    if count > 1 && !replace_all {
        let mut e = "old_string appears ".to_owned();
        e.append(text::decimal_of(count).as_str());
        e.append(" times; set replace_all or use more context");
        return Err(e);
    }
    if replace_all {
        return Ok(replace_every(&s, &p, new_string));
    }
    match text::find(&s, &p, 0) {
        Some(j) => {
            let n: usize = s.len();
            let mut r = text::string_of(&s, 0, j);
            let tail = text::string_of(&s, j + p.len(), n);
            r.append(new_string);
            r.append(tail.as_str());
            assert(r@ =~= edited(content@, old_string@, new_string@, replace_all));
            Ok(r)
        },
        None => Ok(content.to_owned()),
    }
}

proof fn lemma_replaced_none(s: Seq<char>, p: Seq<char>, q: Seq<char>, i: int)
    requires
        0 <= i <= s.len(),
        p.len() > 0,
        count_from(s, p, i) == 0,
    ensures
        replaced_from(s, p, q, i) == s.skip(i),
{
}

/// Replacing all occurrences of a text that is unique replaces that one.
pub proof fn law_replace_all_of_one(s: Seq<char>, p: Seq<char>, q: Seq<char>)
    requires
        p.len() > 0,
        count_from(s, p, 0) == 1,
    ensures
        edited(s, p, q, true) == edited(s, p, q, false),
{
    text::lemma_find_from(s, p, 0);
    let j = text::find_from(s, p, 0)->0;
    lemma_replaced_none(s, p, q, j + p.len());
    assert(s.subrange(0, j) =~= s.take(j));
}

proof fn lemma_replaced_same(s: Seq<char>, p: Seq<char>, i: int)
    requires
        0 <= i <= s.len(),
        p.len() > 0,
    ensures
        replaced_from(s, p, p, i) == s.skip(i),
    decreases s.len() - i,
{
    text::lemma_find_from(s, p, i);
    if let Some(j) = text::find_from(s, p, i) {
        lemma_replaced_same(s, p, j + p.len());
        assert(s.subrange(j, j + p.len()) == p);
        assert(s.subrange(i, j) + p + s.skip(j + p.len()) =~= s.skip(i));
    }
}

/// An edit that replaces a text by itself changes nothing.
pub proof fn law_same_edit_changes_nothing(s: Seq<char>, p: Seq<char>, replace_all: bool)
    requires
        edit_fault(s, p, replace_all) is None,
    ensures
        edited(s, p, p, replace_all) == s,
{
    text::lemma_find_from(s, p, 0);
    lemma_replaced_same(s, p, 0);
    assert(s.skip(0) =~= s);
    if let Some(j) = text::find_from(s, p, 0) {
        assert(s.subrange(j, j + p.len()) == p);
        assert(s.take(j) + p + s.skip(j + p.len()) =~= s);
    }
}

proof fn lemma_count_positive(s: Seq<char>, p: Seq<char>)
    requires
        p.len() > 0,
    ensures
        count_from(s, p, 0) > 0 <==> text::contains(s, p),
{
    text::lemma_find_from(s, p, 0);
}

/// An edit is refused exactly when the text to replace is empty, does not
/// occur, or occurs more than once and only one may be replaced.
pub proof fn law_edits_that_are_refused(s: Seq<char>, p: Seq<char>, replace_all: bool)
    ensures
        edit_fault(s, p, replace_all) is Some <==> p.len() == 0 || !text::contains(s, p) || (
        count_from(s, p, 0) > 1 && !replace_all),
{
    if p.len() > 0 {
        lemma_count_positive(s, p);
    }
}

// ── Changed lines ──────────────────────────────────────────────────────────

/// A step of a diff marks line `n`, counted from one, as changed.
pub open spec fn marks(step: (ChangeTag, nat, nat), n: int) -> bool {
    (step.0 == ChangeTag::Insert || step.0 == ChangeTag::Replace) && step.1 < n <= step.2
}

/// The 1-based lines that the steps of a diff mark as changed.
pub open spec fn changed_by(steps: Seq<(ChangeTag, nat, nat)>) -> Set<usize> {
    Set::new(|n: usize| exists|k: int| 0 <= k < steps.len() && marks(#[trigger] steps[k], n as int))
}

/// Prose line `n` of a text, counted from one, is also one of another text.
pub open spec fn is_old_line(
    kind: LintKind,
    old_text: Seq<char>,
    new_text: Seq<char>,
    n: int,
) -> bool {
    prose::prose(kind, old_text).contains(prose::prose(kind, new_text)[n - 1])
}

/// A character as a diff reads it. A lone carriage return ends no line of
/// prose, but it would end a line of a diff. So it is escaped, and so is the
/// backslash that escapes it.
pub open spec fn escaped(c: char) -> Seq<char> {
    if c == '\r' {
        seq!['\\', 'r']
    } else if c == '\\' {
        seq!['\\', '\\']
    } else {
        seq![c]
    }
}

/// The line from `i` on as a diff reads it.
pub open spec fn one_line_from(s: Seq<char>, i: int) -> Seq<char>
    decreases s.len() - i,
{
    if i < 0 || i >= s.len() {
        Seq::empty()
    } else {
        escaped(s[i]) + one_line_from(s, i + 1)
    }
}

/// A line as a diff reads it.
pub open spec fn one_line(s: Seq<char>) -> Seq<char> {
    one_line_from(s, 0)
}

/// The prose lines as a diff reads them.
pub open spec fn diff_rows(kind: LintKind, text: Seq<char>) -> Seq<Seq<char>> {
    let rows = prose::prose(kind, text);
    Seq::new(rows.len(), |k: int| one_line(rows[k]))
}

/// The prose of a text, with a line feed after each line. So a line reads the
/// same wherever it stands.
pub open spec fn prose_text(kind: LintKind, text: Seq<char>) -> Seq<char> {
    lines::join(diff_rows(kind, text).push(Seq::empty()), "\n"@)
}

/// The 1-based prose lines of the new text that differ from the old one.
pub open spec fn changed(kind: LintKind, old_text: Seq<char>, new_text: Seq<char>) -> Set<usize> {
    changed_by(foreign::line_diff(prose_text(kind, old_text), prose_text(kind, new_text)))
}

/// The 1-based lines that the steps of a diff mark as changed: those of an
/// `Insert` and of a `Replace`. An `Equal` step leaves its lines untouched,
/// and a `Delete` step touches only the old side.
pub fn changed_lines(steps: &Vec<(ChangeTag, usize, usize)>) -> (r: HashSet<usize>)
    ensures
        r@ == changed_by(foreign::steps_of(steps@)),
{
    let ghost all = foreign::steps_of(steps@);
    let mut r: HashSet<usize> = HashSet::new();
    let mut k: usize = 0;
    while k < steps.len()
        invariant
            all == foreign::steps_of(steps@),
            k <= steps@.len(),
            forall|n: usize|
                #[trigger] r@.contains(n) <==> (exists|j: int|
                    0 <= j < k && marks(#[trigger] all[j], n as int)),
        decreases steps@.len() - k,
    {
        let (tag, start, end) = steps[k];
        assert(all[k as int] == (tag, start as nat, end as nat));
        if tag == ChangeTag::Insert || tag == ChangeTag::Replace {
            let ghost before = r@;
            let mut line: usize = start;
            while line < end
                invariant
                    start <= line,
                    line <= end || line == start,
                    forall|n: usize|
                        #[trigger] r@.contains(n) <==> before.contains(n) || (start < n <= line),
                decreases end - line,
            {
                line += 1;
                r.insert(line);
            }
            assert forall|n: usize|
                #[trigger] r@.contains(n) <==> (exists|j: int|
                    0 <= j < k + 1 && marks(#[trigger] all[j], n as int)) by {
                if r@.contains(n) && !before.contains(n) {
                    assert(marks(all[k as int], n as int));
                }
            }
        }
        k += 1;
    }
    assert(r@ =~= changed_by(all));
    r
}

proof fn lemma_no_prose(kind: LintKind)
    ensures
        prose_text(kind, Seq::empty()).len() == 0,
{
    let none = Seq::<char>::empty();
    assert(lines::split(none, '\n') =~= seq![none.subrange(0, 0)]);
    assert(lines::lines(none).len() == 0);
    assert(prose::prose(kind, none).len() == 0);
}

/// A line as a diff reads it.
fn one_line_of(line: &str) -> (r: String)
    ensures
        r@ == one_line(line@),
{
    let s = text::chars_of(line);
    let mut r = String::new();
    let mut i: usize = 0;
    assert(r@ + one_line_from(s@, 0) =~= one_line(s@));
    while i < s.len()
        invariant
            s@ == line@,
            i <= s@.len(),
            r@ + one_line_from(s@, i as int) == one_line(s@),
        decreases s@.len() - i,
    {
        let ghost before = r@;
        let c = s[i];
        if c == '\r' {
            r.push('\\');
            r.push('r');
        } else if c == '\\' {
            r.push('\\');
            r.push('\\');
        } else {
            r.push(c);
        }
        proof {
            assert(r@ =~= before + escaped(c));
            let rest = one_line_from(s@, i + 1);
            assert(before + (escaped(c) + rest) =~= r@ + rest);
        }
        i += 1;
    }
    assert(r@ + one_line_from(s@, i as int) =~= r@);
    r
}

/// A line as a diff reads it holds no carriage return, and a line feed only
/// if the line does.
proof fn lemma_one_line(s: Seq<char>, i: int)
    requires
        0 <= i <= s.len(),
    ensures
        !one_line_from(s, i).contains('\r'),
        !s.contains('\n') ==> !one_line_from(s, i).contains('\n'),
    decreases s.len() - i,
{
    if i < s.len() {
        lemma_one_line(s, i + 1);
        let head = escaped(s[i]);
        let rest = one_line_from(s, i + 1);
        let all = one_line_from(s, i);
        assert forall|j: int| 0 <= j < all.len() implies all[j] != '\r' && (!s.contains('\n')
            ==> all[j] != '\n') by {
            if j < head.len() {
                assert(all[j] == head[j]);
                assert(s.contains(s[i]));
            } else {
                assert(all[j] == rest[j - head.len()]);
            }
        }
    }
}

proof fn lemma_same_line(a: Seq<char>, b: Seq<char>, i: int)
    requires
        0 <= i <= a.len(),
        i <= b.len(),
        a.take(i) == b.take(i),
        one_line_from(a, i) == one_line_from(b, i),
    ensures
        a == b,
    decreases a.len() - i,
{
    let x = one_line_from(a, i);
    let y = one_line_from(b, i);
    if i < a.len() && i < b.len() {
        let p = one_line_from(a, i + 1);
        let q = one_line_from(b, i + 1);
        let h = escaped(a[i]);
        let g = escaped(b[i]);
        assert(x[0] == h[0] && y[0] == g[0]);
        if h.len() == 2 && g.len() == 2 {
            assert(x[1] == h[1] && y[1] == g[1]);
        }
        assert(a[i] == b[i]);
        assert(p =~= x.skip(h.len() as int));
        assert(q =~= y.skip(g.len() as int));
        assert(a.take(i + 1) =~= a.take(i).push(a[i]));
        assert(b.take(i + 1) =~= b.take(i).push(b[i]));
        lemma_same_line(a, b, i + 1);
    } else {
        if i < a.len() {
            assert(x.len() > 0);
        }
        if i < b.len() {
            assert(y.len() > 0);
        }
        assert(a.take(i) =~= a);
        assert(b.take(i) =~= b);
    }
}

/// Different lines stay different when a diff reads them.
pub proof fn law_diff_tells_lines_apart(a: Seq<char>, b: Seq<char>)
    requires
        one_line(a) == one_line(b),
    ensures
        a == b,
{
    assert(a.take(0) =~= b.take(0));
    lemma_same_line(a, b, 0);
}

/// The prose of a text, with a line feed after each line.
fn prose_text_of(kind: LintKind, text: &str) -> (r: String)
    ensures
        r@ == prose_text(kind, text@),
{
    let found = prose::extract_prose_lines(kind, text);
    let ghost all = diff_rows(kind, text@);
    let mut rows: Vec<String> = Vec::new();
    let mut i: usize = 0;
    while i < found.len()
        invariant
            lines::texts(found@) == prose::prose(kind, text@),
            all == diff_rows(kind, text@),
            i <= found@.len(),
            rows@.len() == i,
            forall|k: int| 0 <= k < i ==> (#[trigger] rows@[k])@ == all[k],
        decreases found@.len() - i,
    {
        assert(found@[i as int]@ == lines::texts(found@)[i as int]);
        rows.push(one_line_of(found[i].as_str()));
        i += 1;
    }
    rows.push(String::new());
    proof {
        assert(lines::texts(rows@) =~= all.push(Seq::empty()));
    }
    lines::join_strings(&rows, "\n")
}

/// A prose text holds no carriage return, and its lines are the prose lines
/// as a diff reads them.
pub proof fn lemma_prose_text(kind: LintKind, text: Seq<char>)
    ensures
        !prose_text(kind, text).contains('\r'),
        lines::lines(prose_text(kind, text)) == diff_rows(kind, text),
{
    let found = prose::prose(kind, text);
    let rows = diff_rows(kind, text).push(Seq::empty());
    reveal_strlit("\n");
    assert("\n"@ =~= seq!['\n']);
    prose::law_prose_lines_are_single_lines(kind, text);
    assert forall|k: int| 0 <= k < rows.len() implies !(#[trigger] rows[k]).contains('\r')
        && !rows[k].contains('\n') by {
        if k < found.len() {
            assert(!found[k].contains('\n'));
            lemma_one_line(found[k], 0);
        }
    }
    lines::lemma_join_holds_not(rows, "\n"@, '\r', rows.len() as int);
    lines::law_split_undoes_join(rows, '\n');
    assert forall|k: int| 0 <= k < found.len() implies lines::strip_cr(#[trigger] rows[k])
        == rows[k] by {
        assert(!rows[k].contains('\r'));
    }
    assert(lines::lines(prose_text(kind, text)) =~= diff_rows(kind, text));
}

/// Return the 1-based *prose line* numbers in `new` that differ from
/// `old`, for a given content `kind`.
///
/// The engine reports `Violation.line` in *prose* coordinates: for the
/// source kinds the prose is the extracted comment text, a compacted
/// subset of the file, so the prose index is not the file line number.
/// To filter violations against the lines an edit actually touched, the
/// diff must therefore run over the extracted prose lines, not the raw
/// file.
///
/// When nothing precedes the new text, all of its lines are changed. When
/// the two texts are equal, none is. A line that is not changed stands in
/// the old prose too.
pub fn changed_prose_lines(kind: LintKind, old_text: &str, new_text: &str) -> (r: HashSet<usize>)
    ensures
        r@ == changed(kind, old_text@, new_text@),
        old_text@.len() == 0 ==> forall|n: usize|
            1 <= n <= prose::prose(kind, new_text@).len() ==> r@.contains(n),
        old_text@ == new_text@ ==> r@ == Set::<usize>::empty(),
        forall|n: usize|
            1 <= n <= prose::prose(kind, new_text@).len() && !#[trigger] r@.contains(n)
                ==> is_old_line(kind, old_text@, new_text@, n as int),
{
    let old_prose = prose_text_of(kind, old_text);
    let new_prose = prose_text_of(kind, new_text);
    let steps = foreign::diff_lines(old_prose.as_str(), new_prose.as_str());
    let r = changed_lines(&steps);
    proof {
        let all = foreign::steps_of(steps@);
        lemma_prose_text(kind, old_text@);
        lemma_prose_text(kind, new_text@);
        if old_text@.len() == 0 {
            lemma_no_prose(kind);
            assert(old_text@ =~= Seq::<char>::empty());
            assert forall|n: usize|
                1 <= n <= prose::prose(kind, new_text@).len() implies r@.contains(n) by {
                if new_prose@.len() > 0 {
                    assert(marks(all[0], n as int));
                } else {
                    let none = Seq::<char>::empty();
                    assert(new_prose@ =~= none);
                    assert(lines::split(none, '\n') =~= seq![none.subrange(0, 0)]);
                }
            }
        }
        assert forall|n: usize|
            1 <= n <= prose::prose(kind, new_text@).len() && !#[trigger] r@.contains(
                n,
            ) implies is_old_line(kind, old_text@, new_text@, n as int) by {
            if foreign::is_covered(steps@, n - 1) {
                let k = choose|k: int|
                    0 <= k < steps@.len() && ((#[trigger] steps@[k]).0 == ChangeTag::Insert
                        || steps@[k].0 == ChangeTag::Replace) && steps@[k].1 <= n - 1
                        < steps@[k].2;
                assert(marks(all[k], n as int));
            }
            let old_rows = prose::prose(kind, old_text@);
            let row = prose::prose(kind, new_text@)[n - 1];
            let read = diff_rows(kind, old_text@);
            assert(read.contains(lines::lines(new_prose@)[n - 1]));
            let j = choose|j: int| 0 <= j < read.len() && read[j] == one_line(row);
            law_diff_tells_lines_apart(old_rows[j], row);
            assert(old_rows[j] == row);
        }
        if old_text@ == new_text@ {
            assert forall|n: usize| !r@.contains(n) by {
                assert forall|k: int| 0 <= k < all.len() implies !marks(
                    #[trigger] all[k],
                    n as int,
                ) by {
                    assert(steps@[k].0 != ChangeTag::Insert);
                }
            }
            assert(r@ =~= Set::<usize>::empty());
        }
    }
    r
}

// ── Filtered reports ───────────────────────────────────────────────────────

/// Those of the first `n` violations that stand on a changed line.
pub open spec fn on_changed_to(v: Seq<ViolationModel>, changed: Set<usize>, n: int) -> Seq<
    ViolationModel,
>
    decreases n,
{
    if n <= 0 {
        Seq::empty()
    } else if 0 <= v[n - 1].line <= usize::MAX && changed.contains(v[n - 1].line as usize) {
        on_changed_to(v, changed, n - 1).push(v[n - 1])
    } else {
        on_changed_to(v, changed, n - 1)
    }
}

/// A report on the changed lines only.
pub open spec fn filtered(r: ReportModel, changed: Set<usize>) -> ReportModel {
    engine::report_of(on_changed_to(r.violations, changed, r.violations.len() as int))
}

/// Keep only violations whose 1-based line is in `changed`.
pub fn filter_to_changed(report: LintReport, changed: &HashSet<usize>) -> (r: LintReport)
    ensures
        r@ == filtered(report@, changed@),
{
    let ghost all = report@.violations;
    let mut kept: Vec<Violation> = Vec::new();
    assert(types::models(kept@) =~= Seq::<ViolationModel>::empty());
    let mut i: usize = 0;
    while i < report.violations.len()
        invariant
            all == types::models(report.violations@),
            i <= report.violations@.len(),
            types::models(kept@) == on_changed_to(all, changed@, i as int),
        decreases report.violations@.len() - i,
    {
        let v = &report.violations[i];
        assert(all[i as int] == v@);
        if changed.contains(&v.line) {
            let ghost before = types::models(kept@);
            kept.push(v.clone());
            assert(types::models(kept@) =~= before.push(v@));
        }
        i += 1;
    }
    engine::make_report(kept)
}

/// The report on a write: what was found on the lines that changed.
pub open spec fn write_report(
    kind: LintKind,
    new_content: Seq<char>,
    old_content: Seq<char>,
    config: ConfigModel,
) -> ReportModel {
    filtered(
        engine::report(kind, new_content, config),
        changed(kind, old_content, new_content),
    )
}

proof fn lemma_all_kept(v: Seq<ViolationModel>, changed: Set<usize>, n: int)
    requires
        0 <= n <= v.len(),
        forall|k: int|
            0 <= k < v.len() ==> 0 <= (#[trigger] v[k]).line <= usize::MAX && changed.contains(
                v[k].line as usize,
            ),
    ensures
        on_changed_to(v, changed, n) == v.take(n),
    decreases n,
{
    if n > 0 {
        lemma_all_kept(v, changed, n - 1);
        assert(v.take(n) =~= v.take(n - 1).push(v[n - 1]));
    } else {
        assert(v.take(0) =~= Seq::<ViolationModel>::empty());
    }
}

proof fn lemma_none_kept(v: Seq<ViolationModel>, changed: Set<usize>, n: int)
    requires
        changed == Set::<usize>::empty(),
    ensures
        on_changed_to(v, changed, n).len() == 0,
    decreases n,
{
    if n > 0 {
        lemma_none_kept(v, changed, n - 1);
    }
}

proof fn lemma_changed_is_kept(v: Seq<ViolationModel>, changed: Set<usize>, n: int, k: int)
    requires
        0 <= k < n <= v.len(),
        0 <= v[k].line <= usize::MAX,
        changed.contains(v[k].line as usize),
    ensures
        on_changed_to(v, changed, n).contains(v[k]),
    decreases n,
{
    let all = on_changed_to(v, changed, n);
    let before = on_changed_to(v, changed, n - 1);
    if k == n - 1 {
        assert(all[before.len() as int] == v[k]);
    } else {
        lemma_changed_is_kept(v, changed, n - 1, k);
        let i = choose|i: int| 0 <= i < before.len() && before[i] == v[k];
        assert(all[i] == v[k]);
    }
}

/// Every violation that is dropped stands on a line that the old prose has
/// too.
pub open spec fn drops_old_lines_only(
    found: Seq<ViolationModel>,
    kept: Seq<ViolationModel>,
    kind: LintKind,
    old_text: Seq<char>,
    new_text: Seq<char>,
) -> bool {
    forall|k: int|
        0 <= k < found.len() ==> kept.contains(#[trigger] found[k]) || is_old_line(
            kind,
            old_text,
            new_text,
            found[k].line,
        )
}

/// A violation stands on one of the prose lines.
proof fn lemma_on_a_line(kind: LintKind, text: Seq<char>, config: ConfigModel, k: int)
    requires
        0 <= k < engine::report(kind, text, config).violations.len(),
    ensures
        1 <= engine::report(kind, text, config).violations[k].line <= prose::prose(kind, text).len(),
{
    laws::law_violations_are_sound(kind, text, config, k);
}

/// Lint `new_content`, keeping only violations on lines that changed
/// relative to `old_content`. When `old_content` is `None` (a brand-new
/// file), every line is treated as changed and all violations are kept.
/// When the content stays the same, no violation is kept. A violation on a
/// line that the old prose does not have is never dropped.
///
/// The "changed" set is computed in *prose* coordinates (the extracted
/// comment lines for source kinds), the same coordinate system the
/// engine uses for `Violation.line`.
pub fn lint_write(
    kind: LintKind,
    new_content: &str,
    old_content: Option<&str>,
    config: &LintConfig,
) -> (r: LintReport)
    ensures
        match old_content {
            Some(s) => r@ == write_report(kind, new_content@, s@, config@),
            None => r@ == write_report(kind, new_content@, Seq::empty(), config@),
        },
        old_content is None ==> r@ == engine::report(kind, new_content@, config@),
        old_content matches Some(s) && s@.len() == 0 ==> r@ == engine::report(
            kind,
            new_content@,
            config@,
        ),
        old_content matches Some(s) && s@ == new_content@ ==> r@.violations.len() == 0,
        old_content matches Some(s) ==> drops_old_lines_only(
            engine::report(kind, new_content@, config@).violations,
            r@.violations,
            kind,
            s@,
            new_content@,
        ),
{
    let old_text = match old_content {
        Some(s) => s,
        None => "",
    };
    proof {
        reveal_strlit("");
        assert(old_content is None ==> old_text@ =~= Seq::<char>::empty());
    }
    let changed = changed_prose_lines(kind, old_text, new_content);
    let report = engine::lint(kind, new_content, config);
    proof {
        let v = report@.violations;
        let n = v.len() as int;
        if old_text@.len() == 0 {
            assert forall|k: int| 0 <= k < v.len() implies 0 <= (#[trigger] v[k]).line
                <= usize::MAX && changed@.contains(v[k].line as usize) by {
                lemma_on_a_line(kind, new_content@, config@, k);
                assert(v[k] == report.violations@[k]@);
            }
            lemma_all_kept(v, changed@, n);
            assert(v.take(n) =~= v);
        }
        if old_text@ == new_content@ {
            lemma_none_kept(v, changed@, n);
        }
        let kept = on_changed_to(v, changed@, n);
        assert forall|k: int| 0 <= k < v.len() implies kept.contains(#[trigger] v[k])
            || is_old_line(kind, old_text@, new_content@, v[k].line) by {
            lemma_on_a_line(kind, new_content@, config@, k);
            assert(v[k] == report.violations@[k]@);
            let line = report.violations@[k].line;
            if changed@.contains(line) {
                lemma_changed_is_kept(v, changed@, n, k);
            } else {
                assert(is_old_line(kind, old_text@, new_content@, line as int));
            }
        }
        assert(old_text@.len() == 0 ==> old_text@ =~= Seq::<char>::empty());
    }
    filter_to_changed(report, &changed)
}

/// Apply a single `edit` tool call (`old_string` -> `new_string`, with an
/// optional `replace_all`) to `file_content`, then lint the result and
/// keep only the violations on lines the edit actually touched.
///
/// Returns `Err` when the edit cannot be applied (empty `old_string`,
/// `old_string` not found, or not unique when `replace_all` is false).
/// Callers treat `Err` as "cannot lint, let the tool fail naturally."
pub fn lint_edit(
    kind: LintKind,
    file_content: &str,
    old_string: &str,
    new_string: &str,
    replace_all: bool,
    config: &LintConfig,
) -> (r: Result<LintReport, String>)
    ensures
        match r {
            Ok(report) => edit_fault(file_content@, old_string@, replace_all) is None && report@
                == write_report(
                kind,
                edited(file_content@, old_string@, new_string@, replace_all),
                file_content@,
                config@,
            ),
            Err(e) => edit_fault(file_content@, old_string@, replace_all) == Some(e@),
        },
        r is Ok && old_string@ == new_string@ ==> r->Ok_0@.violations.len() == 0,
        r is Ok ==> ({
            let new_content = edited(file_content@, old_string@, new_string@, replace_all);
            drops_old_lines_only(
                engine::report(kind, new_content, config@).violations,
                r->Ok_0@.violations,
                kind,
                file_content@,
                new_content,
            )
        }),
{
    match apply_edit(file_content, old_string, new_string, replace_all) {
        Ok(new_content) => {
            proof {
                if old_string@ == new_string@ {
                    law_same_edit_changes_nothing(file_content@, old_string@, replace_all);
                }
            }
            Ok(lint_write(kind, new_content.as_str(), Some(file_content), config))
        },
        Err(e) => Err(e),
    }
}

/// A violation that a write reports stands on a changed line, and linting
/// the whole new content reports it too.
pub proof fn law_writes_report_changes_only(
    kind: LintKind,
    new_content: Seq<char>,
    old_content: Seq<char>,
    config: ConfigModel,
    k: int,
)
    requires
        0 <= k < write_report(kind, new_content, old_content, config).violations.len(),
    ensures
        ({
            let v = write_report(kind, new_content, old_content, config).violations[k];
            &&& changed(kind, old_content, new_content).contains(v.line as usize)
            &&& engine::report(kind, new_content, config).violations.contains(v)
        }),
{
    let all = engine::report(kind, new_content, config).violations;
    lemma_kept(all, changed(kind, old_content, new_content), all.len() as int, k);
}

proof fn lemma_kept(v: Seq<ViolationModel>, changed: Set<usize>, n: int, k: int)
    requires
        0 <= n <= v.len(),
        0 <= k < on_changed_to(v, changed, n).len(),
    ensures
        v.contains(on_changed_to(v, changed, n)[k]),
        changed.contains(on_changed_to(v, changed, n)[k].line as usize),
    decreases n,
{
    let before = on_changed_to(v, changed, n - 1);
    if k < before.len() {
        lemma_kept(v, changed, n - 1, k);
    } else {
        assert(v[n - 1] == on_changed_to(v, changed, n)[k]);
    }
}

} // verus!

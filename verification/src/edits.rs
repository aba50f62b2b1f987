//! Laws of edits, and of the lines that they change.

use vstd::prelude::*;

use crate::diff;
use crate::engine;
use crate::foreign;
use crate::foreign::ChangeTag;
use crate::lines;
use crate::lists;
use crate::prose;
use crate::text;
use crate::types::{ConfigModel, LintKind, ReportModel, ViolationModel};

verus! {

/// `a` ends where `p` first stands in `a + p`: no earlier place overlaps it.
pub open spec fn is_first(a: Seq<char>, p: Seq<char>) -> bool {
    p.len() > 0 && !text::contains(a + p.drop_last(), p)
}

proof fn lemma_find_shift(s: Seq<char>, t: Seq<char>, p: Seq<char>, off: int, i: int)
    requires
        0 <= off,
        0 <= i,
        p.len() > 0,
        s.len() == off + t.len(),
        forall|k: int| 0 <= k < t.len() ==> s[off + k] == t[k],
    ensures
        text::find_from(s, p, off + i) == (match text::find_from(t, p, i) {
            Some(j) => Some(off + j),
            None => None,
        }),
    decreases t.len() - i + 1,
{
    if i + p.len() <= t.len() {
        assert(s.subrange(off + i, off + i + p.len()) =~= t.subrange(i, i + p.len()));
        lemma_find_shift(s, t, p, off, i + 1);
    }
}

proof fn lemma_edit_shift(
    s: Seq<char>,
    t: Seq<char>,
    p: Seq<char>,
    q: Seq<char>,
    off: int,
    i: int,
)
    requires
        0 <= off,
        0 <= i <= t.len(),
        p.len() > 0,
        s.len() == off + t.len(),
        forall|k: int| 0 <= k < t.len() ==> s[off + k] == t[k],
    ensures
        diff::count_from(s, p, off + i) == diff::count_from(t, p, i),
        diff::replaced_from(s, p, q, off + i) == diff::replaced_from(t, p, q, i),
    decreases t.len() - i,
{
    lemma_find_shift(s, t, p, off, i);
    text::lemma_find_from(t, p, i);
    match text::find_from(t, p, i) {
        Some(j) => {
            assert(off + j + p.len() == off + (j + p.len()));
            lemma_edit_shift(s, t, p, q, off, j + p.len());
            assert(s.subrange(off + i, off + j) =~= t.subrange(i, j));
        },
        None => {
            assert(s.skip(off + i) =~= t.skip(i));
        },
    }
}

proof fn lemma_first(a: Seq<char>, p: Seq<char>, b: Seq<char>)
    requires
        is_first(a, p),
    ensures
        text::find_from(a + p + b, p, 0) == Some(a.len() as int),
{
    let s = a + p + b;
    let n = a.len() as int;
    text::lemma_find_from(s, p, 0);
    assert(s.subrange(n, n + p.len()) =~= p);
    assert(text::occurs_at(s, p, n));
    let k = text::find_from(s, p, 0)->0;
    if k < n {
        let t = a + p.drop_last();
        assert(t.subrange(k, k + p.len()) =~= s.subrange(k, k + p.len()));
        assert(text::occurs_at(t, p, k));
    }
}

/// A single edit replaces the first place where the old string stands. An
/// edit of all places then goes on with what follows. Counting does the same.
pub proof fn law_edit(a: Seq<char>, p: Seq<char>, b: Seq<char>, q: Seq<char>)
    requires
        is_first(a, p),
    ensures
        diff::edited(a + p + b, p, q, false) == a + q + b,
        diff::edited(a + p + b, p, q, true) == a + q + diff::edited(b, p, q, true),
        diff::count_from(a + p + b, p, 0) == 1 + diff::count_from(b, p, 0),
{
    let s = a + p + b;
    let n = a.len() as int;
    let e = n + p.len();
    lemma_first(a, p, b);
    assert(s.take(n) =~= a);
    assert(s.subrange(0, n) =~= a);
    assert(s.skip(e) =~= b);
    lemma_edit_shift(s, b, p, q, e, 0);
}

/// Where the old string does not stand, an edit changes nothing.
pub proof fn law_edit_of_nothing(s: Seq<char>, p: Seq<char>, q: Seq<char>, replace_all: bool)
    requires
        p.len() > 0,
        !text::contains(s, p),
    ensures
        diff::edited(s, p, q, replace_all) == s,
        diff::count_from(s, p, 0) == 0,
{
    text::lemma_find_from(s, p, 0);
    assert(s.skip(0) =~= s);
}

/// An edit is refused exactly when the old string is empty, when it is not in
/// the text, and when it is there more than once and only one place is to be
/// replaced. Each refusal says why.
pub proof fn law_refused_edits(s: Seq<char>, p: Seq<char>, replace_all: bool)
    ensures
        ({
            let n = diff::count_from(s, p, 0);
            &&& p.len() == 0 ==> diff::edit_fault(s, p, replace_all) == Some(
                "old_string is empty"@,
            )
            &&& p.len() > 0 && !text::contains(s, p) ==> diff::edit_fault(s, p, replace_all)
                == Some("old_string not found in file"@)
            &&& p.len() > 0 && n > 1 && !replace_all ==> diff::edit_fault(s, p, replace_all)
                == Some(
                "old_string appears "@ + text::decimal(n)
                    + " times; set replace_all or use more context"@,
            )
            &&& p.len() > 0 && n == 1 ==> diff::edit_fault(s, p, replace_all) is None
            &&& p.len() > 0 && n > 0 && replace_all ==> diff::edit_fault(s, p, replace_all) is None
            &&& p.len() > 0 ==> (n == 0 <==> !text::contains(s, p))
        }),
{
    text::lemma_find_from(s, p, 0);
}

// ── Changed lines ──────────────────────────────────────────────────────────

/// A step inserts or replaces line `n`, counted from one.
pub open spec fn touches(step: (ChangeTag, nat, nat), n: int) -> bool {
    (step.0 is Insert || step.0 is Replace) && step.1 + 1 <= n <= step.2
}

/// A line is changed exactly when a step of the diff inserts or replaces it.
pub proof fn law_changed_lines(steps: Seq<(ChangeTag, nat, nat)>, n: usize)
    ensures
        diff::changed_by(steps).contains(n) <==> exists|k: int|
            0 <= k < steps.len() && touches(#[trigger] steps[k], n as int),
{
    if diff::changed_by(steps).contains(n) {
        let k = choose|k: int|
            0 <= k < steps.len() && diff::marks(#[trigger] steps[k], n as int);
        assert(touches(steps[k], n as int));
    }
    if exists|k: int| 0 <= k < steps.len() && touches(#[trigger] steps[k], n as int) {
        let k = choose|k: int| 0 <= k < steps.len() && touches(#[trigger] steps[k], n as int);
        assert(diff::marks(steps[k], n as int));
    }
}

proof fn lemma_on_changed(v: Seq<ViolationModel>, changed: Set<usize>, n: int)
    requires
        0 <= n <= v.len(),
    ensures
        diff::on_changed_to(v, changed, n) == v.take(n).filter(
            |x: ViolationModel| is_on(x, changed),
        ),
    decreases n,
{
    reveal(Seq::filter);
    if n > 0 {
        lemma_on_changed(v, changed, n - 1);
        assert(v.take(n).drop_last() =~= v.take(n - 1));
    }
}

/// A violation stands on one of the given lines.
pub open spec fn is_on(v: ViolationModel, changed: Set<usize>) -> bool {
    exists|n: usize| #[trigger] changed.contains(n) && n == v.line
}

/// A report keeps its violations on changed lines, in their order, and counts
/// them.
pub proof fn law_report_on_changed_lines(r: ReportModel, changed: Set<usize>)
    ensures
        diff::filtered(r, changed) == engine::report_of(
            r.violations.filter(|x: ViolationModel| is_on(x, changed)),
        ),
{
    let v = r.violations;
    assert forall|x: ViolationModel| is_on(x, changed) <==> (0 <= x.line <= usize::MAX
        && changed.contains(x.line as usize)) by {
        if 0 <= x.line <= usize::MAX && changed.contains(x.line as usize) {
            let n = x.line as usize;
            assert(changed.contains(n) && n == x.line);
        }
    }
    lemma_on_changed(v, changed, v.len() as int);
    assert(v.take(v.len() as int) =~= v);
}

/// A write reports what linting the new content gives on the lines that a
/// diff of the two proses inserts or replaces.
pub proof fn law_write_report(
    kind: LintKind,
    new_content: Seq<char>,
    old_content: Seq<char>,
    config: ConfigModel,
)
    ensures
        diff::write_report(kind, new_content, old_content, config) == engine::report_of(
            engine::report(kind, new_content, config).violations.filter(
                |x: ViolationModel|
                    is_on(
                        x,
                        diff::changed_by(
                            foreign::line_diff(
                                diff::prose_text(kind, old_content),
                                diff::prose_text(kind, new_content),
                            ),
                        ),
                    ),
            ),
        ),
{
    law_report_on_changed_lines(
        engine::report(kind, new_content, config),
        diff::changed(kind, old_content, new_content),
    );
}

// ── What a diff reads ──────────────────────────────────────────────────────

/// A carriage return and a backslash are escaped. Every other character is
/// read as it is.
pub open spec fn escape(c: char) -> Seq<char> {
    if c == '\r' {
        seq!['\\', 'r']
    } else if c == '\\' {
        seq!['\\', '\\']
    } else {
        seq![c]
    }
}

proof fn lemma_escapes(s: Seq<char>, i: int)
    requires
        0 <= i <= s.len(),
    ensures
        lists::collected(i as nat, |k: int| escape(s[k])) + diff::one_line_from(s, i)
            == diff::one_line_from(s, 0),
    decreases i,
{
    let f = |k: int| escape(s[k]);
    lists::lemma_collected(i as nat, f);
    if i > 0 {
        lemma_escapes(s, i - 1);
        let before = lists::collected((i - 1) as nat, f);
        assert(f(i - 1) == diff::escaped(s[i - 1]));
        assert(before + f(i - 1) + diff::one_line_from(s, i) =~= before + (f(i - 1)
            + diff::one_line_from(s, i)));
    } else {
        assert(lists::collected(0, f) + diff::one_line_from(s, 0) =~= diff::one_line_from(s, 0));
    }
}

/// A diff reads the prose of a text: its lines are the prose lines, with
/// carriage returns and backslashes escaped.
pub proof fn law_diff_reads_prose(kind: LintKind, text: Seq<char>, k: int)
    requires
        0 <= k < prose::prose(kind, text).len(),
    ensures
        ({
            let row = prose::prose(kind, text)[k];
            &&& lines::lines(diff::prose_text(kind, text)).len() == prose::prose(kind, text).len()
            &&& lines::lines(diff::prose_text(kind, text))[k] == lists::collected(
                row.len(),
                |i: int| escape(row[i]),
            )
        }),
{
    let row = prose::prose(kind, text)[k];
    diff::lemma_prose_text(kind, text);
    lemma_escapes(row, row.len() as int);
    let all = lists::collected(row.len(), |i: int| escape(row[i]));
    assert(diff::one_line_from(row, row.len() as int) =~= Seq::<char>::empty());
    assert(all + diff::one_line_from(row, row.len() as int) =~= all);
}

/// A line is old exactly when it is a prose line of the old text. A violation
/// on a line that is not old is kept.
pub proof fn law_old_lines(
    kind: LintKind,
    old_text: Seq<char>,
    new_text: Seq<char>,
    found: Seq<ViolationModel>,
    kept: Seq<ViolationModel>,
    k: int,
)
    requires
        0 <= k < found.len(),
    ensures
        ({
            let rows = prose::prose(kind, old_text);
            let line = prose::prose(kind, new_text)[found[k].line - 1];
            let old_line = exists|j: int| 0 <= j < rows.len() && #[trigger] rows[j] == line;
            &&& diff::is_old_line(kind, old_text, new_text, found[k].line) <==> old_line
            &&& diff::drops_old_lines_only(found, kept, kind, old_text, new_text) && !old_line
                ==> kept.contains(found[k])
        }),
{
    let rows = prose::prose(kind, old_text);
    let line = prose::prose(kind, new_text)[found[k].line - 1];
    if rows.contains(line) {
        let j = choose|j: int| 0 <= j < rows.len() && rows[j] == line;
        assert(rows[j] == line);
    }
}

} // verus!

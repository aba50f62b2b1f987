//! Laws that relate the sentences and the paragraphs of whole texts.

use vstd::prelude::*;

use crate::lines;
use crate::sentences;
use crate::sentences::{BlockKind, ScanModel};
use crate::text;
use crate::types::{ParagraphModel, SentenceModel};

verus! {

// ── Lines that are not merged ──────────────────────────────────────────────

/// The texts of a list of sentences.
pub open spec fn sentence_texts(v: Seq<SentenceModel>) -> Seq<Seq<char>> {
    Seq::new(v.len(), |i: int| v[i].text)
}

/// A scan that has closed the sentences `base` before.
spec fn behind(base: Seq<SentenceModel>, st: ScanModel) -> ScanModel {
    ScanModel { done: base + st.done, ..st }
}

proof fn lemma_closed_behind(base: Seq<SentenceModel>, st: ScanModel)
    ensures
        sentences::closed(behind(base, st)) == behind(base, sentences::closed(st)),
{
    assert(sentences::closed(behind(base, st)).done =~= behind(base, sentences::closed(st)).done);
}

proof fn lemma_scan_ends_behind(
    base: Seq<SentenceModel>,
    st: ScanModel,
    s: Seq<char>,
    start: int,
    ends: Seq<(int, int)>,
    line: int,
    k: int,
)
    ensures
        sentences::scan_ends(behind(base, st), s, start, ends, line, k) == behind(
            base,
            sentences::scan_ends(st, s, start, ends, line, k),
        ),
    decreases k,
{
    if k > 0 {
        lemma_scan_ends_behind(base, st, s, start, ends, line, k - 1);
        let before = sentences::scan_ends(st, s, start, ends, line, k - 1);
        let read = sentences::added(
            before,
            s,
            sentences::after_ends(ends, start, k - 1),
            sentences::after_ends(ends, start, k),
            line,
        );
        lemma_closed_behind(base, read);
    }
}

/// Reading a line adds to what was closed before and depends on nothing in
/// it.
proof fn lemma_scan_line_behind(
    base: Seq<SentenceModel>,
    st: ScanModel,
    s: Seq<char>,
    line: int,
    merge_lines: bool,
)
    ensures
        sentences::scan_line(behind(base, st), s, line, merge_lines) == behind(
            base,
            sentences::scan_line(st, s, line, merge_lines),
        ),
{
    let (kind, start) = sentences::block(s);
    lemma_closed_behind(base, st);
    let ends = sentences::ends_from(s.skip(start), 0);
    let n = ends.len() as int;
    let opened = if kind == BlockKind::Plain {
        st
    } else {
        sentences::closed(st)
    };
    lemma_scan_ends_behind(base, opened, s, start, ends, line, n);
    let read = sentences::added(
        sentences::scan_ends(opened, s, start, ends, line, n),
        s,
        sentences::after_ends(ends, start, n),
        s.len() as int,
        line,
    );
    lemma_closed_behind(base, read);
}

/// Two scans that differ in places only.
spec fn same_texts(a: ScanModel, b: ScanModel) -> bool {
    sentence_texts(a.done) == sentence_texts(b.done) && a.parts == b.parts
}

proof fn lemma_closed_texts(a: ScanModel, b: ScanModel)
    requires
        same_texts(a, b),
    ensures
        same_texts(sentences::closed(a), sentences::closed(b)),
{
    if a.parts.len() > 0 {
        let text = lines::join(a.parts, " "@);
        assert(sentence_texts(sentences::closed(a).done) =~= sentence_texts(a.done).push(text));
        assert(sentence_texts(sentences::closed(b).done) =~= sentence_texts(b.done).push(text));
    }
}

proof fn lemma_scan_ends_texts(
    a: ScanModel,
    b: ScanModel,
    s: Seq<char>,
    start: int,
    ends: Seq<(int, int)>,
    x: int,
    y: int,
    k: int,
)
    requires
        same_texts(a, b),
    ensures
        same_texts(
            sentences::scan_ends(a, s, start, ends, x, k),
            sentences::scan_ends(b, s, start, ends, y, k),
        ),
    decreases k,
{
    if k > 0 {
        lemma_scan_ends_texts(a, b, s, start, ends, x, y, k - 1);
        let from = sentences::after_ends(ends, start, k - 1);
        let to = sentences::after_ends(ends, start, k);
        lemma_closed_texts(
            sentences::added(sentences::scan_ends(a, s, start, ends, x, k - 1), s, from, to, x),
            sentences::added(sentences::scan_ends(b, s, start, ends, y, k - 1), s, from, to, y),
        );
    }
}

/// The texts that a line gives do not depend on its number.
proof fn lemma_scan_line_texts(
    a: ScanModel,
    b: ScanModel,
    s: Seq<char>,
    x: int,
    y: int,
    merge_lines: bool,
)
    requires
        same_texts(a, b),
    ensures
        same_texts(
            sentences::scan_line(a, s, x, merge_lines),
            sentences::scan_line(b, s, y, merge_lines),
        ),
{
    let (kind, start) = sentences::block(s);
    lemma_closed_texts(a, b);
    let ends = sentences::ends_from(s.skip(start), 0);
    let n = ends.len() as int;
    let p = if kind == BlockKind::Plain {
        a
    } else {
        sentences::closed(a)
    };
    let q = if kind == BlockKind::Plain {
        b
    } else {
        sentences::closed(b)
    };
    lemma_scan_ends_texts(p, q, s, start, ends, x, y, n);
    let from = sentences::after_ends(ends, start, n);
    let to = s.len() as int;
    lemma_closed_texts(
        sentences::added(sentences::scan_ends(p, s, start, ends, x, n), s, from, to, x),
        sentences::added(sentences::scan_ends(q, s, start, ends, y, n), s, from, to, y),
    );
}

/// With no sentence open, the place is zero.
spec fn is_tidy(st: ScanModel) -> bool {
    st.parts.len() == 0 ==> st.parts == Seq::<Seq<char>>::empty() && st.line == 0 && st.column == 0
}

proof fn lemma_scan_ends_tidy(
    st: ScanModel,
    s: Seq<char>,
    start: int,
    ends: Seq<(int, int)>,
    line: int,
    k: int,
)
    requires
        is_tidy(st),
    ensures
        is_tidy(sentences::scan_ends(st, s, start, ends, line, k)),
    decreases k,
{
    if k > 0 {
        lemma_scan_ends_tidy(st, s, start, ends, line, k - 1);
    }
}

proof fn lemma_scan_line_tidy(st: ScanModel, s: Seq<char>, line: int)
    requires
        is_tidy(st),
    ensures
        is_tidy(sentences::scan_line(st, s, line, false)),
        sentences::scan_line(st, s, line, false).parts.len() == 0,
{
    let (kind, start) = sentences::block(s);
    let ends = sentences::ends_from(s.skip(start), 0);
    let opened = if kind == BlockKind::Plain {
        st
    } else {
        sentences::closed(st)
    };
    lemma_scan_ends_tidy(opened, s, start, ends, line, ends.len() as int);
}

/// The texts of the sentences of a line by itself.
pub open spec fn line_texts(s: Seq<char>) -> Seq<Seq<char>> {
    sentence_texts(sentences::scan_line(sentences::scan_start(), s, 1, false).done)
}

/// The texts of the sentences of the first `n` lines, each line by itself.
pub open spec fn texts_to(rows: Seq<Seq<char>>, n: int) -> Seq<Seq<char>>
    decreases n,
{
    if n <= 0 {
        Seq::empty()
    } else {
        texts_to(rows, n - 1) + line_texts(rows[n - 1])
    }
}

proof fn lemma_scan_texts(rows: Seq<Seq<char>>, n: int)
    requires
        0 <= n <= rows.len(),
    ensures
        sentence_texts(sentences::scan(rows, n, false).done) == texts_to(rows, n),
        is_tidy(sentences::scan(rows, n, false)),
        sentences::scan(rows, n, false).parts.len() == 0,
    decreases n,
{
    if n > 0 {
        lemma_scan_texts(rows, n - 1);
        let st = sentences::scan(rows, n - 1, false);
        let s = rows[n - 1];
        let fresh = sentences::scan_start();
        lemma_scan_line_tidy(st, s, n);
        assert(st.done =~= behind(st.done, fresh).done);
        assert(st == behind(st.done, fresh));
        lemma_scan_line_behind(st.done, fresh, s, n, false);
        lemma_scan_line_texts(fresh, fresh, s, n, 1, false);
        let more = sentences::scan_line(fresh, s, n, false).done;
        assert(sentence_texts(st.done + more) =~= sentence_texts(st.done) + sentence_texts(more));
    } else {
        assert(sentence_texts(sentences::scan_start().done) =~= Seq::<Seq<char>>::empty());
    }
}

proof fn lemma_texts_concat(a: Seq<Seq<char>>, b: Seq<Seq<char>>, n: int)
    requires
        0 <= n <= b.len(),
    ensures
        texts_to(a + b, a.len() + n) == texts_to(a, a.len() as int) + texts_to(b, n),
    decreases n,
{
    let first = texts_to(a, a.len() as int);
    if n > 0 {
        lemma_texts_concat(a, b, n - 1);
        assert((a + b)[a.len() + n - 1] == b[n - 1]);
        assert(first + (texts_to(b, n - 1) + line_texts(b[n - 1])) =~= first + texts_to(b, n - 1)
            + line_texts(b[n - 1]));
    } else {
        lemma_texts_prefix(a + b, a, a.len() as int);
        assert(first + texts_to(b, 0) =~= first);
    }
}

proof fn lemma_texts_prefix(a: Seq<Seq<char>>, b: Seq<Seq<char>>, n: int)
    requires
        n <= a.len(),
        n <= b.len(),
        forall|k: int| 0 <= k < n ==> a[k] == b[k],
    ensures
        texts_to(a, n) == texts_to(b, n),
    decreases n,
{
    if n > 0 {
        lemma_texts_prefix(a, b, n - 1);
    }
}

proof fn lemma_unmerged_texts(text: Seq<char>)
    ensures
        sentence_texts(sentences::sentences(text, false)) == texts_to(
            lines::split(text, '\n'),
            lines::split(text, '\n').len() as int,
        ),
{
    let rows = lines::split(text, '\n');
    lemma_scan_texts(rows, rows.len() as int);
}

/// When lines are not merged, no sentence spans two lines: the sentences of
/// two texts with a line feed between them are those of the first, followed
/// by those of the second.
pub proof fn law_unmerged_texts_concatenate(a: Seq<char>, b: Seq<char>)
    ensures
        sentence_texts(sentences::sentences(a + seq!['\n'] + b, false)) == sentence_texts(
            sentences::sentences(a, false),
        ) + sentence_texts(sentences::sentences(b, false)),
{
    let x = lines::split(a, '\n');
    let y = lines::split(b, '\n');
    lemma_unmerged_texts(a);
    lemma_unmerged_texts(b);
    lemma_unmerged_texts(a + seq!['\n'] + b);
    lines::law_split_of_two(a, b, '\n');
    lemma_texts_concat(x, y, y.len() as int);
}

// ── Sentences in order ─────────────────────────────────────────────────────

/// The sentences of a scan up to line `n` are in the order of their lines.
spec fn in_order(st: ScanModel, n: int) -> bool {
    &&& forall|i: int, j: int|
        0 <= i < j < st.done.len() ==> (#[trigger] st.done[i]).line <= (#[trigger] st.done[j]).line
    &&& forall|k: int|
        0 <= k < st.done.len() ==> (#[trigger] st.done[k]).line <= n && (st.parts.len() > 0
            ==> st.done[k].line <= st.line)
    &&& st.parts.len() > 0 ==> st.line <= n
}

proof fn lemma_closed_in_order(st: ScanModel, n: int)
    requires
        in_order(st, n),
    ensures
        in_order(sentences::closed(st), n),
{
    let r = sentences::closed(st);
    if st.parts.len() > 0 {
        assert forall|i: int, j: int| 0 <= i < j < r.done.len() implies (#[trigger] r.done[i]).line
            <= (#[trigger] r.done[j]).line by {
            assert(r.done[i] == st.done[i]);
            if j < st.done.len() {
                assert(r.done[j] == st.done[j]);
            }
        }
        assert forall|k: int| 0 <= k < r.done.len() implies (#[trigger] r.done[k]).line <= n by {
            if k < st.done.len() {
                assert(r.done[k] == st.done[k]);
            }
        }
    }
}

proof fn lemma_scan_ends_in_order(
    st: ScanModel,
    s: Seq<char>,
    start: int,
    ends: Seq<(int, int)>,
    line: int,
    k: int,
)
    requires
        in_order(st, line),
    ensures
        in_order(sentences::scan_ends(st, s, start, ends, line, k), line),
    decreases k,
{
    if k > 0 {
        lemma_scan_ends_in_order(st, s, start, ends, line, k - 1);
        let read = sentences::added(
            sentences::scan_ends(st, s, start, ends, line, k - 1),
            s,
            sentences::after_ends(ends, start, k - 1),
            sentences::after_ends(ends, start, k),
            line,
        );
        assert(in_order(read, line));
        lemma_closed_in_order(read, line);
    }
}

proof fn lemma_scan_in_order(rows: Seq<Seq<char>>, n: int, merge_lines: bool)
    requires
        0 <= n,
    ensures
        in_order(sentences::scan(rows, n, merge_lines), n),
    decreases n,
{
    if n > 0 {
        lemma_scan_in_order(rows, n - 1, merge_lines);
        let st = sentences::scan(rows, n - 1, merge_lines);
        let s = rows[n - 1];
        let (kind, start) = sentences::block(s);
        assert(in_order(st, n));
        lemma_closed_in_order(st, n);
        let ends = sentences::ends_from(s.skip(start), 0);
        let opened = if kind == BlockKind::Plain {
            st
        } else {
            sentences::closed(st)
        };
        lemma_scan_ends_in_order(opened, s, start, ends, n, ends.len() as int);
        let read = sentences::added(
            sentences::scan_ends(opened, s, start, ends, n, ends.len() as int),
            s,
            sentences::after_ends(ends, start, ends.len() as int),
            s.len() as int,
            n,
        );
        assert(in_order(read, n));
        lemma_closed_in_order(read, n);
    }
}

/// The sentences of a text come in the order of their lines.
pub proof fn law_sentences_are_in_order(text: Seq<char>, merge_lines: bool)
    ensures
        forall|i: int, j: int|
            0 <= i < j < sentences::sentences(text, merge_lines).len() ==> (
            #[trigger] sentences::sentences(text, merge_lines)[i]).line <= (
            #[trigger] sentences::sentences(text, merge_lines)[j]).line,
{
    let rows = lines::split(text, '\n');
    lemma_scan_in_order(rows, rows.len() as int, merge_lines);
    lemma_closed_in_order(
        sentences::scan(rows, rows.len() as int, merge_lines),
        rows.len() as int,
    );
}

// ── Paragraphs in order ────────────────────────────────────────────────────

/// The sentences of the first `n` paragraphs of a list, one after the other.
pub open spec fn gathered_to(v: Seq<ParagraphModel>, n: int) -> Seq<SentenceModel>
    decreases n,
{
    if n <= 0 {
        Seq::empty()
    } else {
        gathered_to(v, n - 1) + v[n - 1].sentences
    }
}

/// The sentences of a list of paragraphs, one after the other.
pub open spec fn gathered(v: Seq<ParagraphModel>) -> Seq<SentenceModel> {
    gathered_to(v, v.len() as int)
}

/// Those of the first `n` sentences that the first `p` paragraphs own, by
/// paragraph.
spec fn owned_to(
    rows: Seq<Seq<char>>,
    given: Seq<SentenceModel>,
    p: int,
    n: int,
) -> Seq<SentenceModel>
    decreases p,
{
    if p <= 0 {
        Seq::empty()
    } else {
        owned_to(rows, given, p - 1, n) + sentences::members(rows, given, p - 1, n)
    }
}

proof fn lemma_gathered_prefix(a: Seq<ParagraphModel>, b: Seq<ParagraphModel>, n: int)
    requires
        n <= a.len(),
        n <= b.len(),
        forall|k: int| 0 <= k < n ==> a[k] == b[k],
    ensures
        gathered_to(a, n) == gathered_to(b, n),
    decreases n,
{
    if n > 0 {
        lemma_gathered_prefix(a, b, n - 1);
    }
}

proof fn lemma_gathered(rows: Seq<Seq<char>>, given: Seq<SentenceModel>, p: int)
    ensures
        gathered(sentences::paragraphs_to(rows, given, p)) == owned_to(
            rows,
            given,
            p,
            given.len() as int,
        ),
    decreases p,
{
    if p > 0 {
        lemma_gathered(rows, given, p - 1);
        let before = sentences::paragraphs_to(rows, given, p - 1);
        let all = sentences::paragraphs_to(rows, given, p);
        let own = sentences::members(rows, given, p - 1, given.len() as int);
        if own.len() == 0 {
            assert(gathered(before) + own =~= gathered(before));
        } else {
            lemma_gathered_prefix(all, before, before.len() as int);
        }
    }
}

/// The paragraph of a sentence.
spec fn number(rows: Seq<Seq<char>>, s: SentenceModel) -> int {
    sentences::owner(rows, s)->0
}

/// A paragraph after that of all sentences owns none.
proof fn lemma_no_members(rows: Seq<Seq<char>>, given: Seq<SentenceModel>, p: int, n: int)
    requires
        0 <= n <= given.len(),
        forall|k: int| 0 <= k < n ==> sentences::owner(rows, #[trigger] given[k]) != Some(p),
    ensures
        sentences::members(rows, given, p, n).len() == 0,
    decreases n,
{
    if n > 0 {
        lemma_no_members(rows, given, p, n - 1);
    }
}

/// One more sentence, of a paragraph that no earlier one comes after, goes to
/// the end.
proof fn lemma_owned_push(
    rows: Seq<Seq<char>>,
    given: Seq<SentenceModel>,
    p: int,
    n: int,
    q: int,
)
    requires
        0 < n <= given.len(),
        0 <= p,
        sentences::owner(rows, given[n - 1]) == Some(q),
        forall|k: int|
            0 <= k < n ==> sentences::owner(rows, #[trigger] given[k]) is Some && number(
                rows,
                given[k],
            ) <= q,
    ensures
        owned_to(rows, given, p, n) == (if p <= q {
            owned_to(rows, given, p, n - 1)
        } else {
            owned_to(rows, given, p, n - 1).push(given[n - 1])
        }),
    decreases p,
{
    if p > 0 {
        lemma_owned_push(rows, given, p - 1, n, q);
        let before = owned_to(rows, given, p - 1, n - 1);
        let own = sentences::members(rows, given, p - 1, n - 1);
        let x = given[n - 1];
        if p - 1 == q {
            assert(before + own.push(x) =~= (before + own).push(x));
        } else if p - 1 > q {
            lemma_no_members(rows, given, p - 1, n - 1);
            assert(before + own =~= before);
            assert(before.push(x) + own =~= before.push(x));
        }
    }
}

proof fn lemma_owned(rows: Seq<Seq<char>>, given: Seq<SentenceModel>, p: int, n: int)
    requires
        0 <= n <= given.len(),
        0 <= p,
        forall|k: int|
            0 <= k < given.len() ==> sentences::owner(rows, #[trigger] given[k]) is Some && 0
                <= number(rows, given[k]) < p,
        forall|i: int, j: int|
            0 <= i < j < given.len() ==> number(rows, #[trigger] given[i]) <= number(
                rows,
                #[trigger] given[j],
            ),
    ensures
        owned_to(rows, given, p, n) == given.take(n),
    decreases n,
{
    if n > 0 {
        lemma_owned(rows, given, p, n - 1);
        let q = number(rows, given[n - 1]);
        assert(sentences::owner(rows, given[n - 1]) == Some(q));
        assert forall|k: int| 0 <= k < n implies sentences::owner(rows, #[trigger] given[k]) is Some
            && number(rows, given[k]) <= q by {
            if k < n - 1 {
                assert(number(rows, given[k]) <= number(rows, given[n - 1]));
            }
        }
        lemma_owned_push(rows, given, p, n, q);
        assert(given.take(n) =~= given.take(n - 1).push(given[n - 1]));
    } else {
        lemma_owned_none(rows, given, p);
        assert(given.take(0) =~= Seq::<SentenceModel>::empty());
    }
}

proof fn lemma_owned_none(rows: Seq<Seq<char>>, given: Seq<SentenceModel>, p: int)
    ensures
        owned_to(rows, given, p, 0) == Seq::<SentenceModel>::empty(),
    decreases p,
{
    if p > 0 {
        lemma_owned_none(rows, given, p - 1);
        assert(owned_to(rows, given, p, 0) =~= Seq::<SentenceModel>::empty());
    }
}

proof fn lemma_paragraph_of_grows(rows: Seq<Seq<char>>, i: int, j: int)
    requires
        i <= j,
    ensures
        sentences::paragraph_of(rows, i) <= sentences::paragraph_of(rows, j),
    decreases j - i,
{
    if i < j {
        lemma_paragraph_of_grows(rows, i, j - 1);
    }
}

/// A sentence of a text starts on a line that is not blank.
proof fn lemma_on_a_line(text: Seq<char>, merge_lines: bool, k: int)
    requires
        0 <= k < sentences::sentences(text, merge_lines).len(),
    ensures
        ({
            let rows = lines::split(text, '\n');
            let s = sentences::sentences(text, merge_lines)[k];
            1 <= s.line <= rows.len() && !text::is_blank(rows[s.line - 1])
        }),
{
    let rows = lines::split(text, '\n');
    sentences::law_sentences_are_placed(text, merge_lines);
    let s = sentences::sentences(text, merge_lines)[k];
    assert(sentences::is_placed(rows, s));
    let row = rows[s.line - 1];
    let i = choose|i: int|
        #![trigger row[i]]
        0 <= i < row.len() && row[i] == s.text[0] && s.column == text::byte_offset(row, i) + 1;
    assert(!text::is_white(row[i]));
}

/// The first line of a paragraph that is not blank.
proof fn lemma_first_line(rows: Seq<Seq<char>>, p: int, i: int, k: int)
    requires
        0 <= i <= k < rows.len(),
        sentences::paragraph_of(rows, k) == p,
        !text::is_blank(rows[k]),
    ensures
        i + 1 <= sentences::first_line(rows, p, i) <= k + 1,
        sentences::paragraph_of(rows, sentences::first_line(rows, p, i) - 1) == p,
        !text::is_blank(rows[sentences::first_line(rows, p, i) - 1]),
    decreases k - i,
{
    if !(sentences::paragraph_of(rows, i) == p && !text::is_blank(rows[i])) {
        lemma_first_line(rows, p, i + 1, k);
    }
}

/// A paragraph starts on a line of its own that is not blank, at or before
/// each of its sentences.
spec fn starts_well(rows: Seq<Seq<char>>, m: ParagraphModel, p: int) -> bool {
    &&& m.sentences.len() > 0
    &&& m.column == 1
    &&& 1 <= m.line <= rows.len()
    &&& !text::is_blank(rows[m.line - 1])
    &&& sentences::paragraph_of(rows, m.line - 1) == p
    &&& forall|j: int| 0 <= j < m.sentences.len() ==> m.line <= (#[trigger] m.sentences[j]).line
}

/// A paragraph is one of the first `p`.
spec fn starts_within(rows: Seq<Seq<char>>, m: ParagraphModel, p: int) -> bool {
    exists|q: int| 0 <= q < p && #[trigger] starts_well(rows, m, q)
}

proof fn lemma_members_start(
    rows: Seq<Seq<char>>,
    given: Seq<SentenceModel>,
    p: int,
    n: int,
    j: int,
)
    requires
        0 <= n <= given.len(),
        0 <= j < sentences::members(rows, given, p, n).len(),
        forall|k: int|
            0 <= k < given.len() ==> 1 <= (#[trigger] given[k]).line <= rows.len()
                && !text::is_blank(rows[given[k].line - 1]),
    ensures
        ({
            let line = sentences::first_line(rows, p, 0);
            &&& 1 <= line <= sentences::members(rows, given, p, n)[j].line
            &&& line <= rows.len()
            &&& sentences::paragraph_of(rows, line - 1) == p
            &&& !text::is_blank(rows[line - 1])
        }),
    decreases n,
{
    let before = sentences::members(rows, given, p, n - 1);
    if j < before.len() {
        lemma_members_start(rows, given, p, n - 1, j);
        assert(sentences::members(rows, given, p, n)[j] == before[j]);
    } else {
        let s = given[n - 1];
        assert(sentences::members(rows, given, p, n)[j] == s);
        lemma_first_line(rows, p, 0, s.line - 1);
    }
}

/// The paragraphs start on strictly increasing lines.
proof fn lemma_paragraphs_in_order(rows: Seq<Seq<char>>, given: Seq<SentenceModel>, p: int)
    requires
        forall|k: int|
            0 <= k < given.len() ==> 1 <= (#[trigger] given[k]).line <= rows.len()
                && !text::is_blank(rows[given[k].line - 1]),
    ensures
        forall|k: int|
            0 <= k < sentences::paragraphs_to(rows, given, p).len() ==> starts_within(
                rows,
                #[trigger] sentences::paragraphs_to(rows, given, p)[k],
                p,
            ),
        forall|i: int, j: int|
            0 <= i < j < sentences::paragraphs_to(rows, given, p).len() ==> (
            #[trigger] sentences::paragraphs_to(rows, given, p)[i]).line < (
            #[trigger] sentences::paragraphs_to(rows, given, p)[j]).line,
    decreases p,
{
    if p > 0 {
        lemma_paragraphs_in_order(rows, given, p - 1);
        let before = sentences::paragraphs_to(rows, given, p - 1);
        let all = sentences::paragraphs_to(rows, given, p);
        let n = given.len() as int;
        let own = sentences::members(rows, given, p - 1, n);
        if own.len() > 0 {
            let last = all[before.len() as int];
            assert forall|j: int| 0 <= j < own.len() implies last.line <= (
            #[trigger] own[j]).line by {
                lemma_members_start(rows, given, p - 1, n, j);
            }
            lemma_members_start(rows, given, p - 1, n, 0);
            assert(starts_well(rows, last, p - 1));
        }
        assert forall|k: int| 0 <= k < all.len() implies starts_within(
            rows,
            #[trigger] all[k],
            p,
        ) by {
            if k < before.len() {
                assert(all[k] == before[k]);
                assert(starts_within(rows, before[k], p - 1));
                let q = choose|q: int| 0 <= q < p - 1 && starts_well(rows, before[k], q);
                assert(starts_well(rows, all[k], q));
            } else {
                assert(starts_well(rows, all[k], p - 1));
            }
        }
        assert forall|i: int, j: int| 0 <= i < j < all.len() implies (#[trigger] all[i]).line < (
        #[trigger] all[j]).line by {
            assert(all[i] == before[i]);
            if j < before.len() {
                assert(all[j] == before[j]);
            } else {
                assert(starts_within(rows, before[i], p - 1));
                let q = choose|q: int| 0 <= q < p - 1 && starts_well(rows, before[i], q);
                if all[j].line <= all[i].line {
                    lemma_paragraph_of_grows(rows, all[j].line - 1, all[i].line - 1);
                }
            }
        }
    }
}

/// The paragraphs of a text hold all of its sentences, each once and in
/// order. Every paragraph holds a sentence. It starts at column 1 of a line
/// that is not blank, at or before each of its sentences. The paragraphs
/// start on strictly increasing lines.
pub proof fn law_paragraphs_partition_the_sentences(text: Seq<char>, merge_lines: bool)
    ensures
        ({
            let rows = lines::split(text, '\n');
            let given = sentences::sentences(text, merge_lines);
            let all = sentences::paragraphs(text, given);
            &&& gathered(all) == given
            &&& forall|k: int|
                0 <= k < all.len() ==> {
                    let m = #[trigger] all[k];
                    &&& m.sentences.len() > 0
                    &&& m.column == 1
                    &&& 1 <= m.line <= rows.len()
                    &&& !text::is_blank(rows[m.line - 1])
                    &&& forall|j: int|
                        0 <= j < m.sentences.len() ==> m.line <= (#[trigger] m.sentences[j]).line
                }
            &&& forall|i: int, j: int|
                0 <= i < j < all.len() ==> (#[trigger] all[i]).line < (#[trigger] all[j]).line
        }),
{
    let rows = lines::split(text, '\n');
    let given = sentences::sentences(text, merge_lines);
    let last = sentences::paragraph_of(rows, rows.len() - 1) as int;
    assert forall|k: int| 0 <= k < given.len() implies 1 <= (#[trigger] given[k]).line <= rows.len()
        && !text::is_blank(rows[given[k].line - 1]) by {
        lemma_on_a_line(text, merge_lines, k);
    }
    assert forall|k: int| 0 <= k < given.len() implies sentences::owner(
        rows,
        #[trigger] given[k],
    ) is Some && 0 <= number(rows, given[k]) < last + 1 by {
        lemma_paragraph_of_grows(rows, given[k].line - 1, rows.len() - 1);
    }
    law_sentences_are_in_order(text, merge_lines);
    assert forall|i: int, j: int| 0 <= i < j < given.len() implies number(
        rows,
        #[trigger] given[i],
    ) <= number(rows, #[trigger] given[j]) by {
        lemma_paragraph_of_grows(rows, given[i].line - 1, given[j].line - 1);
    }
    lemma_gathered(rows, given, last + 1);
    lemma_owned(rows, given, last + 1, given.len() as int);
    assert(given.take(given.len() as int) =~= given);
    lemma_paragraphs_in_order(rows, given, last + 1);
    let all = sentences::paragraphs(text, given);
    assert forall|k: int| 0 <= k < all.len() implies {
        let m = #[trigger] all[k];
        &&& m.sentences.len() > 0
        &&& m.column == 1
        &&& 1 <= m.line <= rows.len()
        &&& !text::is_blank(rows[m.line - 1])
        &&& forall|j: int|
            0 <= j < m.sentences.len() ==> m.line <= (#[trigger] m.sentences[j]).line
    } by {
        assert(starts_within(rows, all[k], last + 1));
        let q = choose|q: int| 0 <= q < last + 1 && starts_well(rows, all[k], q);
        assert(starts_well(rows, all[k], q));
    }
}

} // verus!

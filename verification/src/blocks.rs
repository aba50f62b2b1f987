//! Laws of the blocks of a markdown text that hold no prose.

use vstd::prelude::*;

use crate::lines;
use crate::prose;
use crate::text;
use crate::types::LintKind;
use crate::words;

verus! {

// ── Fences ─────────────────────────────────────────────────────────────────

/// `n` times the character `c`.
pub open spec fn repeated(c: char, n: nat) -> Seq<char> {
    Seq::new(n, |i: int| c)
}

/// A fence line in its parts: at most three bytes of white space, a run of
/// three or more backticks or tildes, and the rest. After backticks the rest
/// holds no backtick.
pub open spec fn is_fence(s: Seq<char>, pad: Seq<char>, c: char, n: nat, rest: Seq<char>) -> bool {
    &&& s == pad + repeated(c, n) + rest
    &&& text::is_blank(pad)
    &&& text::byte_len(pad) <= 3
    &&& c == '`' || c == '~'
    &&& n >= 3
    &&& rest.len() > 0 ==> rest[0] != c
    &&& c == '`' ==> !rest.contains('`')
}

/// A fence line with a run of `n` times `c`.
pub open spec fn opens_fence(s: Seq<char>, c: char, n: nat) -> bool {
    exists|pad: Seq<char>, rest: Seq<char>| is_fence(s, pad, c, n, rest)
}

/// A line that ends a fence of `n` times `c`: a fence line with the same
/// character, a run that is at least as long, and nothing but white space
/// after it.
pub open spec fn closes_fence(s: Seq<char>, c: char, n: int) -> bool {
    exists|pad: Seq<char>, m: nat, rest: Seq<char>|
        #[trigger] is_fence(s, pad, c, m, rest) && m >= n && text::is_blank(rest)
}

/// A fence line.
pub open spec fn is_fence_line(s: Seq<char>) -> bool {
    exists|c: char, n: nat| opens_fence(s, c, n)
}

proof fn lemma_run(s: Seq<char>, c: char, i: int, j: int)
    requires
        0 <= i <= j <= s.len(),
        forall|k: int| i <= k < j ==> s[k] == c,
        j < s.len() ==> s[j] != c,
    ensures
        text::run_end(s, c, i) == j,
{
    text::lemma_run_end(s, c, i);
    let e = text::run_end(s, c, i);
    if e < j {
        assert(s[e] == c);
    }
}

/// A line is read as a fence line with a run of `n` times `c` exactly when
/// it has the parts of one.
pub proof fn law_fence_line(s: Seq<char>, pad: Seq<char>, c: char, n: nat, rest: Seq<char>)
    requires
        is_fence(s, pad, c, n, rest),
    ensures
        prose::fence(s) == Some((c, (pad.len() + n) as int)),
        prose::fence_len(s, (pad.len() + n) as int) == n,
        s.skip((pad.len() + n) as int) == rest,
{
    let tail = repeated(c, n) + rest;
    let w = pad.len() as int;
    assert(s =~= pad + tail);
    assert(tail[0] == c);
    words::law_indent(pad, tail);
    assert(s[w] == c);
    assert forall|k: int| w <= k < w + n implies s[k] == c by {
        assert(s[k] == tail[k - w]);
    }
    if rest.len() > 0 {
        assert(s[w + n] == rest[0]);
    }
    lemma_run(s, c, w, w + n);
    assert(s.skip(w + n) =~= rest);
}

proof fn lemma_fence_parts(s: Seq<char>, c: char, e: int)
    requires
        prose::fence(s) == Some((c, e)),
    ensures
        ({
            let w = text::white_end(s, 0);
            0 <= w && e - w >= 3 && e <= s.len() && is_fence(
                s,
                s.take(w),
                c,
                (e - w) as nat,
                s.skip(e),
            )
        }),
{
    let w = text::white_end(s, 0);
    text::lemma_white_end(s, 0);
    text::lemma_run_end(s, c, w);
    let pad = s.take(w);
    assert forall|i: int| 0 <= i < pad.len() implies text::is_white(#[trigger] pad[i]) by {
        assert(pad[i] == s[i]);
    }
    text::lemma_offset_prefix(s, pad, w);
    assert(s =~= pad + repeated(c, (e - w) as nat) + s.skip(e));
}

/// A line that is read as a fence line has the parts of one.
pub proof fn law_fence_line_has_its_parts(s: Seq<char>)
    ensures
        prose::fence(s) is Some <==> is_fence_line(s),
        prose::fence(s) matches Some((c, e)) ==> opens_fence(
            s,
            c,
            prose::fence_len(s, e) as nat,
        ) && prose::fence_len(s, e) >= 3,
{
    if let Some((c, e)) = prose::fence(s) {
        lemma_fence_parts(s, c, e);
        assert(opens_fence(s, c, prose::fence_len(s, e) as nat));
    }
    if is_fence_line(s) {
        let (c, n) = choose|c: char, n: nat| opens_fence(s, c, n);
        let (pad, rest) = choose|pad: Seq<char>, rest: Seq<char>| is_fence(s, pad, c, n, rest);
        law_fence_line(s, pad, c, n, rest);
    }
}

proof fn lemma_closes(s: Seq<char>, c: char, n: int)
    ensures
        closes_fence(s, c, n) <==> (prose::fence(s) matches Some((d, e)) && d == c
            && prose::fence_len(s, e) >= n && text::is_blank(s.skip(e))),
{
    if let Some((d, e)) = prose::fence(s) {
        lemma_fence_parts(s, d, e);
        if d == c && prose::fence_len(s, e) >= n && text::is_blank(s.skip(e)) {
            assert(closes_fence(s, c, n));
        }
    }
    if closes_fence(s, c, n) {
        let (pad, m, rest) = choose|pad: Seq<char>, m: nat, rest: Seq<char>|
            #[trigger] is_fence(s, pad, c, m, rest) && m >= n && text::is_blank(rest);
        law_fence_line(s, pad, c, m, rest);
    }
}

/// A fence that opens on line `i` is open up to the line that closes it.
pub proof fn law_fence_stays_open(rows: Seq<Seq<char>>, i: int, k: int, c: char, n: nat)
    requires
        0 <= i < k <= rows.len(),
        prose::block_state(rows, i).fence is None,
        opens_fence(rows[i], c, n),
        forall|j: int| i < j < k ==> !closes_fence(#[trigger] rows[j], c, n as int),
    ensures
        prose::block_state(rows, k).fence == Some((c, n as int)),
    decreases k - i,
{
    let s = rows[k - 1];
    if k == i + 1 {
        let (pad, rest) = choose|pad: Seq<char>, rest: Seq<char>| is_fence(s, pad, c, n, rest);
        law_fence_line(s, pad, c, n, rest);
    } else {
        law_fence_stays_open(rows, i, k - 1, c, n);
        lemma_closes(s, c, n as int);
        assert(!closes_fence(rows[k - 1], c, n as int));
    }
}

/// A closing line ends the fence.
pub proof fn law_fence_closes(rows: Seq<Seq<char>>, k: int, c: char, n: int)
    requires
        0 <= k < rows.len(),
        prose::block_state(rows, k).fence == Some((c, n)),
        closes_fence(rows[k], c, n),
    ensures
        prose::block_state(rows, k + 1).fence is None,
{
    lemma_closes(rows[k], c, n);
}

/// Only a fence line opens a fence. Before the first line none is open.
pub proof fn law_no_fence_opens(rows: Seq<Seq<char>>, i: int, k: int)
    requires
        0 <= i <= k <= rows.len(),
        i == 0 || prose::block_state(rows, i).fence is None,
        forall|j: int| i <= j < k ==> !is_fence_line(#[trigger] rows[j]),
    ensures
        prose::block_state(rows, k).fence is None,
    decreases k - i,
{
    if i < k {
        law_no_fence_opens(rows, i, k - 1);
        law_fence_line_has_its_parts(rows[k - 1]);
        assert(!is_fence_line(rows[k - 1]));
    }
}

// ── HTML comments ──────────────────────────────────────────────────────────

/// A line that opens an HTML comment: white space, then `<!--`.
pub open spec fn opens_comment(s: Seq<char>) -> bool {
    exists|pad: Seq<char>, rest: Seq<char>|
        text::is_blank(pad) && s == #[trigger] (pad + "<!--"@ + rest)
}

/// A line that ends an HTML comment: it holds `-->`.
pub open spec fn closes_comment(s: Seq<char>) -> bool {
    exists|a: Seq<char>, b: Seq<char>| s == #[trigger] (a + "-->"@ + b)
}

/// Line `j` is neither a fence line nor inside a fence.
pub open spec fn is_unfenced(rows: Seq<Seq<char>>, j: int) -> bool {
    prose::block_state(rows, j).fence is None && !is_fence_line(rows[j])
}

/// Line `i` opens a comment that no line before `k` ends.
pub open spec fn stays_open(rows: Seq<Seq<char>>, i: int, k: int) -> bool {
    &&& is_unfenced(rows, i)
    &&& opens_comment(rows[i])
    &&& forall|j: int| i <= j < k && is_unfenced(rows, j) ==> !closes_comment(#[trigger] rows[j])
}

proof fn lemma_opens_comment(s: Seq<char>)
    ensures
        opens_comment(s) <==> text::starts_with(text::trim_start(s), "<!--"@),
{
    let t = text::trim_start(s);
    let w = text::white_end(s, 0);
    text::lemma_white_end(s, 0);
    words::law_starts_with(t, "<!--"@);
    reveal_strlit("<!--");
    if text::starts_with(t, "<!--"@) {
        let rest = choose|b: Seq<char>| t == #[trigger] ("<!--"@ + b);
        let pad = s.take(w);
        assert(s =~= pad + t);
        assert(pad + ("<!--"@ + rest) =~= pad + "<!--"@ + rest);
        assert forall|i: int| 0 <= i < pad.len() implies text::is_white(#[trigger] pad[i]) by {
            assert(pad[i] == s[i]);
        }
        assert(text::is_blank(pad) && s == pad + "<!--"@ + rest);
    }
    if opens_comment(s) {
        let (pad, rest) = choose|pad: Seq<char>, rest: Seq<char>|
            text::is_blank(pad) && s == #[trigger] (pad + "<!--"@ + rest);
        let tail = "<!--"@ + rest;
        assert(s =~= pad + tail);
        assert(tail[0] == '<');
        words::law_indent(pad, tail);
        assert(t == "<!--"@ + rest);
    }
}

/// A comment is open before line `k` exactly when an earlier line outside
/// fences opened one, and no line outside fences from that one up to `k - 1`
/// ended it.
pub proof fn law_open_comment(rows: Seq<Seq<char>>, k: int)
    requires
        0 <= k <= rows.len(),
    ensures
        prose::block_state(rows, k).comment <==> exists|i: int|
            0 <= i < k && #[trigger] stays_open(rows, i, k),
    decreases k,
{
    if k > 0 {
        law_open_comment(rows, k - 1);
        let st = prose::block_state(rows, k - 1);
        let s = rows[k - 1];
        law_fence_line_has_its_parts(s);
        lemma_opens_comment(s);
        words::law_contains(s, "-->"@);
        let free = is_unfenced(rows, k - 1);
        assert(free <==> prose::fence(s) is None && st.fence is None);
        if prose::block_state(rows, k).comment {
            if st.comment {
                let i = choose|i: int| 0 <= i < k - 1 && #[trigger] stays_open(rows, i, k - 1);
                assert(stays_open(rows, i, k));
            } else {
                assert(stays_open(rows, k - 1, k));
            }
        }
        if exists|i: int| 0 <= i < k && #[trigger] stays_open(rows, i, k) {
            let i = choose|i: int| 0 <= i < k && #[trigger] stays_open(rows, i, k);
            assert(free ==> !closes_comment(rows[k - 1]));
            if i < k - 1 {
                assert(stays_open(rows, i, k - 1));
            }
        }
    }
}

/// A line outside fences that opens a comment and ends it leaves nothing
/// open.
pub proof fn law_one_line_comment(rows: Seq<Seq<char>>, k: int)
    requires
        0 <= k < rows.len(),
        is_unfenced(rows, k),
        opens_comment(rows[k]),
        closes_comment(rows[k]),
    ensures
        prose::block_state(rows, k + 1).fence is None,
        !prose::block_state(rows, k + 1).comment,
{
    law_open_comment(rows, k + 1);
    law_no_fence_opens(rows, k, k + 1);
    if prose::block_state(rows, k + 1).comment {
        let i = choose|i: int| 0 <= i < k + 1 && #[trigger] stays_open(rows, i, k + 1);
        assert(closes_comment(rows[k]));
    }
}

// ── Tables ─────────────────────────────────────────────────────────────────

/// A row of a table: at most three bytes of leading white space, and a pipe.
pub open spec fn has_cells(s: Seq<char>) -> bool {
    text::indent(s) <= 3 && exists|i: int| 0 <= i < s.len() && #[trigger] s[i] == '|'
}

/// A delimiter row: without its outer white space it has at least one dash,
/// and nothing but pipes, colons, dashes and spaces.
pub open spec fn is_ruler(s: Seq<char>) -> bool {
    let t = text::trim(s);
    &&& exists|i: int| 0 <= i < t.len() && #[trigger] t[i] == '-'
    &&& forall|i: int|
        0 <= i < t.len() ==> (#[trigger] t[i] == '|' || t[i] == ':' || t[i] == '-' || t[i] == ' ')
}

/// Line `k` belongs to the table whose delimiter row is line `d`: it is the
/// header row, the delimiter row, or one of the rows right after it.
pub open spec fn is_in_table_of(rows: Seq<Seq<char>>, d: int, k: int) -> bool {
    &&& 0 < d < rows.len()
    &&& is_ruler(rows[d])
    &&& has_cells(rows[d - 1])
    &&& d - 1 <= k < rows.len()
    &&& forall|j: int| d < j <= k ==> has_cells(#[trigger] rows[j]) && !is_ruler(rows[j])
}

proof fn lemma_rows(s: Seq<char>)
    ensures
        prose::is_row(s) <==> has_cells(s),
        prose::is_delimiter(s) <==> is_ruler(s),
{
    let t = text::trim(s);
    if prose::is_delimiter(s) {
        let i = choose|i: int| 0 <= i < t.len() && t[i] == '-';
        assert(t[i] == '-');
        assert forall|i: int| 0 <= i < t.len() implies (#[trigger] t[i] == '|' || t[i] == ':'
            || t[i] == '-' || t[i] == ' ') by {
            assert(prose::is_delimiter_char(t[i]));
        }
    }
    if is_ruler(s) {
        assert(t.contains('-'));
    }
}

proof fn lemma_data(rows: Seq<Seq<char>>, k: int)
    ensures
        prose::is_data(rows, k) <==> exists|d: int| d < k && #[trigger] is_in_table_of(rows, d, k),
    decreases k,
{
    if 0 < k < rows.len() {
        lemma_data(rows, k - 1);
        lemma_rows(rows[k]);
        lemma_rows(rows[k - 1]);
        if k > 1 {
            lemma_rows(rows[k - 2]);
        }
        if prose::is_data(rows, k) {
            if prose::table_at(rows, k - 1) {
                assert(is_in_table_of(rows, k - 1, k));
            } else {
                let d = choose|d: int| d < k - 1 && #[trigger] is_in_table_of(rows, d, k - 1);
                assert(is_in_table_of(rows, d, k));
            }
        }
        if exists|d: int| d < k && #[trigger] is_in_table_of(rows, d, k) {
            let d = choose|d: int| d < k && #[trigger] is_in_table_of(rows, d, k);
            assert(has_cells(rows[k]) && !is_ruler(rows[k]));
            if d < k - 1 {
                assert(is_in_table_of(rows, d, k - 1));
            }
        }
    }
}

/// A line belongs to a table exactly when it is a header row, a delimiter row
/// after one, or one of the rows right after that.
pub proof fn law_table_lines(rows: Seq<Seq<char>>, k: int)
    requires
        0 <= k < rows.len(),
    ensures
        prose::in_table(rows, k) <==> exists|d: int| #[trigger] is_in_table_of(rows, d, k),
{
    lemma_data(rows, k);
    lemma_rows(rows[k]);
    if k > 0 {
        lemma_rows(rows[k - 1]);
    }
    if k + 1 < rows.len() {
        lemma_rows(rows[k + 1]);
    }
    if prose::table_at(rows, k + 1) {
        assert(is_in_table_of(rows, k + 1, k));
    }
    if prose::table_at(rows, k) {
        assert(is_in_table_of(rows, k, k));
    }
    if exists|d: int| #[trigger] is_in_table_of(rows, d, k) {
        let d = choose|d: int| #[trigger] is_in_table_of(rows, d, k);
        assert(d < k || d == k || d == k + 1);
    }
}

// ── Code spans ─────────────────────────────────────────────────────────────

/// A longest row of backticks.
pub open spec fn is_ticks(s: Seq<char>, a: int, b: int) -> bool {
    &&& 0 <= a < b <= s.len()
    &&& forall|k: int| a <= k < b ==> #[trigger] s[k] == '`'
    &&& b < s.len() ==> s[b] != '`'
    &&& a > 0 ==> s[a - 1] != '`'
}

/// A backslash stands right before `a`.
pub open spec fn is_escaped(s: Seq<char>, a: int) -> bool {
    a > 0 && s[a - 1] == '\\'
}

/// Backticks from `i` to `m` that open a span when a partner follows.
pub open spec fn is_opener(s: Seq<char>, i: int, m: int) -> bool {
    &&& 0 <= i < m <= s.len()
    &&& forall|k: int| i <= k < m ==> #[trigger] s[k] == '`'
    &&& m < s.len() ==> s[m] != '`'
    &&& !is_escaped(s, i)
}

/// A partner of `n` backticks stands at `p`.
pub open spec fn is_partner(s: Seq<char>, n: int, p: int) -> bool {
    is_ticks(s, p, p + n) && !is_escaped(s, p)
}

proof fn lemma_partner(s: Seq<char>, j: int, n: int)
    requires
        0 <= j <= s.len(),
        n > 0,
        0 < j < s.len() && s[j] == '`' ==> s[j - 1] != '`',
    ensures
        match prose::span_end(s, j, n) {
            Some(e) => j <= e - n && is_partner(s, n, e - n) && forall|p: int|
                j <= p < e - n ==> !#[trigger] is_partner(s, n, p),
            None => forall|p: int| j <= p ==> !#[trigger] is_partner(s, n, p),
        },
    decreases s.len() - j,
{
    if j < s.len() {
        if s[j] != '`' {
            lemma_partner(s, j + 1, n);
            assert(!is_partner(s, n, j)) by {
                if is_partner(s, n, j) {
                    assert(s[j] == '`');
                }
            }
        } else {
            text::lemma_run_end(s, '`', j);
            let e = text::run_end(s, '`', j);
            if e - j == n && !is_escaped(s, j) {
                assert(is_partner(s, n, j));
            } else {
                lemma_partner(s, e, n);
                assert forall|p: int| j <= p < e implies !#[trigger] is_partner(s, n, p) by {
                    if is_partner(s, n, p) {
                        if p > j {
                            assert(s[p - 1] == '`');
                        } else if p + n < e {
                            assert(s[p + n] == '`');
                        } else if p + n > e {
                            assert(s[e] == '`');
                        }
                    }
                }
            }
        }
    }
}

/// A span ends after the first partner of its opening backticks: a row of the
/// same length that no backslash stands before. Without a partner there is no
/// span.
pub proof fn law_code_span(s: Seq<char>, i: int, m: int)
    requires
        is_opener(s, i, m),
    ensures
        match prose::span_at(s, i) {
            Some(e) => m <= e - (m - i) && is_partner(s, m - i, e - (m - i)) && forall|p: int|
                m <= p < e - (m - i) ==> !#[trigger] is_partner(s, m - i, p),
            None => forall|p: int| m <= p ==> !#[trigger] is_partner(s, m - i, p),
        },
{
    lemma_run(s, '`', i, m);
    assert(s[i] == '`');
    lemma_partner(s, m, m - i);
}

/// Text without backticks stays as it is.
pub proof fn law_text_outside_spans_stays(s: Seq<char>, i: int, j: int)
    requires
        0 <= i <= j <= s.len(),
        forall|k: int| i <= k < j ==> #[trigger] s[k] != '`',
    ensures
        prose::without_spans(s, i) == s.subrange(i, j) + prose::without_spans(s, j),
    decreases j - i,
{
    if i < j {
        law_text_outside_spans_stays(s, i + 1, j);
        assert(s[i] != '`');
        assert(s.subrange(i, i + 1) + (s.subrange(i + 1, j) + prose::without_spans(s, j))
            =~= s.subrange(i, j) + prose::without_spans(s, j));
    } else {
        assert(s.subrange(i, j) + prose::without_spans(s, j) =~= prose::without_spans(s, j));
    }
}

/// A span becomes as many spaces as it takes bytes.
pub proof fn law_span_becomes_spaces(s: Seq<char>, i: int, m: int, p: int)
    requires
        is_opener(s, i, m),
        m <= p,
        is_partner(s, m - i, p),
        forall|q: int| m <= q < p ==> !#[trigger] is_partner(s, m - i, q),
    ensures
        prose::without_spans(s, i) == repeated(' ', text::byte_len(s.subrange(i, p + (m - i))))
            + prose::without_spans(s, p + (m - i)),
{
    law_code_span(s, i, m);
    let n = m - i;
    let e = p + n;
    assert(prose::span_at(s, i) == Some(e)) by {
        if let Some(f) = prose::span_at(s, i) {
            if f < e {
                assert(is_partner(s, n, f - n));
            }
        }
    }
    assert(prose::blanked(s.subrange(i, e)) =~= repeated(' ', text::byte_len(s.subrange(i, e))));
}

/// Backticks from `i` to `m` that have no partner, or one escaped backtick.
pub open spec fn is_lone(s: Seq<char>, i: int, m: int) -> bool {
    ||| is_opener(s, i, m) && forall|p: int| m <= p ==> !#[trigger] is_partner(s, m - i, p)
    ||| is_escaped(s, i) && s[i] == '`' && m == i + 1
}

/// Backticks without a partner stay as they are, and so does an escaped
/// backtick.
pub proof fn law_lone_backticks_stay(s: Seq<char>, i: int, m: int)
    requires
        0 <= i < m <= s.len(),
        is_lone(s, i, m),
    ensures
        prose::without_spans(s, i) == s.subrange(i, m) + prose::without_spans(s, m),
{
    if is_opener(s, i, m) {
        law_code_span(s, i, m);
        lemma_run(s, '`', i, m);
        if let Some(e) = prose::span_at(s, i) {
            assert(is_partner(s, m - i, e - (m - i)));
        }
    }
}

/// Nothing stands after the end of a line.
pub proof fn law_line_ends(s: Seq<char>)
    ensures
        prose::without_spans(s, s.len() as int).len() == 0,
{
}

// ── Prose lines ────────────────────────────────────────────────────────────

/// Line `k` is prose: no fence and no comment is open before it, it is no
/// fence line and opens no comment, it has less than four bytes of leading
/// white space, and it belongs to no table.
pub open spec fn is_prose_line(rows: Seq<Seq<char>>, k: int) -> bool {
    &&& is_unfenced(rows, k)
    &&& !prose::block_state(rows, k).comment
    &&& !opens_comment(rows[k])
    &&& text::indent(rows[k]) <= 3
    &&& !exists|d: int| #[trigger] is_in_table_of(prose::without_code(rows), d, k)
}

/// A prose line keeps its text outside code spans. Every other line becomes
/// spaces.
pub proof fn law_prose_lines_are_kept(kind: LintKind, text: Seq<char>, k: int)
    requires
        kind is ProseFile || kind is CommitMessage,
        0 <= k < lines::lines(text).len(),
    ensures
        is_prose_line(lines::lines(text), k) ==> prose::prose(kind, text)[k]
            == prose::without_spans(lines::lines(text)[k], 0),
        !is_prose_line(lines::lines(text), k) ==> prose::prose(kind, text)[k] == repeated(
            ' ',
            text::byte_len(lines::lines(text)[k]),
        ),
{
    let rows = lines::lines(text);
    law_fence_line_has_its_parts(rows[k]);
    lemma_opens_comment(rows[k]);
    law_table_lines(prose::without_code(rows), k);
    if !is_prose_line(rows, k) {
        prose::law_code_lines_are_blank(kind, text, k);
        assert(prose::blanked(rows[k]) =~= repeated(' ', text::byte_len(rows[k])));
    }
}

/// The line after a one-line comment keeps its text outside code spans, when
/// it is no fence line, no comment, no indented code and in no table.
pub proof fn law_prose_after_a_comment(kind: LintKind, text: Seq<char>, k: int)
    requires
        kind is ProseFile || kind is CommitMessage,
        0 <= k < lines::lines(text).len() - 1,
        ({
            let rows = lines::lines(text);
            &&& is_unfenced(rows, k)
            &&& opens_comment(rows[k])
            &&& closes_comment(rows[k])
            &&& !is_fence_line(rows[k + 1])
            &&& !opens_comment(rows[k + 1])
            &&& text::indent(rows[k + 1]) <= 3
            &&& !exists|d: int| #[trigger] is_in_table_of(prose::without_code(rows), d, k + 1)
        }),
    ensures
        prose::prose(kind, text)[k + 1] == prose::without_spans(lines::lines(text)[k + 1], 0),
{
    law_one_line_comment(lines::lines(text), k);
    law_prose_lines_are_kept(kind, text, k + 1);
}

} // verus!

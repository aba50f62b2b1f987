//! Laws of sentence marks and markdown markers.

use vstd::prelude::*;

use crate::sentences;
use crate::sentences::BlockKind;
use crate::text;
use crate::words;

verus! {

// ── Sentence marks ─────────────────────────────────────────────────────────

/// The marks that end a sentence: `.`, `!`, `?` and their full-width forms.
pub open spec fn is_stop(c: char) -> bool {
    ||| c == '.' || c == '!' || c == '?'
    ||| c == '\u{3002}' || c == '\u{ff01}' || c == '\u{ff1f}'
}

/// The quotes and brackets that close after a mark.
pub open spec fn is_tail(c: char) -> bool {
    ||| c == ')' || c == ']' || c == '}' || c == '"'
    ||| c == '\u{201d}' || c == '\u{bb}' || c == '\u{203a}'
}

/// An ASCII letter, an ASCII digit or an underscore.
pub open spec fn is_name_char(c: char) -> bool {
    'a' <= c <= 'z' || 'A' <= c <= 'Z' || '0' <= c <= '9' || c == '_'
}

/// The dot at `i` stands after a digit, or between two name characters.
pub open spec fn is_dot_inside(s: Seq<char>, i: int) -> bool {
    &&& s[i] == '.'
    &&& 0 < i
    &&& ('0' <= s[i - 1] <= '9' || (i + 1 < s.len() && is_name_char(s[i - 1]) && is_name_char(
        s[i + 1],
    )))
}

/// A text ends with the abbreviation `p`, which starts it or follows a
/// character that is no name character.
pub open spec fn ends_with(s: Seq<char>, p: Seq<char>) -> bool {
    exists|a: Seq<char>| s == #[trigger] (a + p) && (a.len() == 0 || !is_name_char(a.last()))
}

/// The mark at `i` is the dot of an abbreviation.
pub open spec fn is_abbreviated(s: Seq<char>, i: int) -> bool {
    let t = s.take(i + 1);
    ||| ends_with(t, "e.g."@)
    ||| ends_with(t, "i.e."@)
    ||| ends_with(t, "etc."@)
    ||| ends_with(t, "vs."@)
    ||| ends_with(t, "Fig."@)
    ||| ends_with(t, "No."@)
}

/// The mark at `i` is part of a `#!` that starts the line.
pub open spec fn is_hash_bang(s: Seq<char>, i: int) -> bool {
    i == 1 && s[0] == '#' && s[1] == '!'
}

/// From `i` to `m` stand marks, and then quotes and brackets that close.
pub open spec fn is_mark(s: Seq<char>, i: int, t: int, m: int) -> bool {
    &&& 0 <= i < t <= m <= s.len()
    &&& forall|k: int| i <= k < t ==> is_stop(#[trigger] s[k])
    &&& t < s.len() ==> !is_stop(s[t])
    &&& forall|k: int| t <= k < m ==> is_tail(#[trigger] s[k])
    &&& m < s.len() ==> !is_tail(s[m])
}

proof fn lemma_terminators(s: Seq<char>, i: int, t: int)
    requires
        0 <= i <= t <= s.len(),
        forall|k: int| i <= k < t ==> is_stop(#[trigger] s[k]),
        t < s.len() ==> !is_stop(s[t]),
    ensures
        sentences::terminators_end(s, i) == t,
    decreases t - i,
{
    if i < t {
        assert(is_stop(s[i]));
        lemma_terminators(s, i + 1, t);
    }
}

proof fn lemma_closers(s: Seq<char>, i: int, m: int)
    requires
        0 <= i <= m <= s.len(),
        forall|k: int| i <= k < m ==> is_tail(#[trigger] s[k]),
        m < s.len() ==> !is_tail(s[m]),
    ensures
        sentences::closers_end(s, i) == m,
    decreases m - i,
{
    if i < m {
        assert(is_tail(s[i]));
        lemma_closers(s, i + 1, m);
    }
}

proof fn lemma_abbreviation(s: Seq<char>, p: Seq<char>, i: int)
    requires
        0 <= i < s.len(),
    ensures
        sentences::is_abbreviation(s, p, i + 1) <==> ends_with(s.take(i + 1), p),
{
    let t = s.take(i + 1);
    let k = i + 1 - p.len();
    if sentences::is_abbreviation(s, p, i + 1) {
        let a = s.take(k);
        assert(s.subrange(k, k + p.len()) == p);
        assert(t =~= a + s.subrange(k, k + p.len()));
        if k > 0 {
            assert(a.last() == s[k - 1]);
        }
        assert(t == a + p && (a.len() == 0 || !is_name_char(a.last())));
    }
    if ends_with(t, p) {
        let a = choose|a: Seq<char>|
            t == #[trigger] (a + p) && (a.len() == 0 || !is_name_char(a.last()));
        assert(t.len() == (a + p).len());
        assert(a.len() == k);
        assert(s.subrange(k, k + p.len()) =~= p) by {
            assert forall|j: int| 0 <= j < p.len() implies s.subrange(k, k + p.len())[j] == p[j] by {
                assert(t[k + j] == (a + p)[k + j]);
            }
        }
        if k > 0 {
            assert(s[k - 1] == t[k - 1]);
            assert(t[k - 1] == a[k - 1]);
        }
    }
}

/// A stretch without marks, or with dots inside names and numbers only, ends
/// no sentence.
pub proof fn law_no_mark_no_end(s: Seq<char>, i: int, j: int)
    requires
        0 <= i <= j <= s.len(),
        forall|k: int| i <= k < j ==> !is_stop(#[trigger] s[k]) || is_dot_inside(s, k),
    ensures
        sentences::ends_from(s, i) == sentences::ends_from(s, j),
    decreases j - i,
{
    if i < j {
        assert(!is_stop(s[i]) || is_dot_inside(s, i));
        law_no_mark_no_end(s, i + 1, j);
    }
}

/// Marks with what closes after them end a sentence as a whole, unless they
/// start at the dot of an abbreviation or belong to a shebang.
pub proof fn law_marks_end_a_sentence(s: Seq<char>, i: int, t: int, m: int)
    requires
        is_mark(s, i, t, m),
        !is_dot_inside(s, i),
    ensures
        is_abbreviated(s, i) || is_hash_bang(s, i) ==> sentences::ends_from(s, i)
            == sentences::ends_from(s, m),
        !is_abbreviated(s, i) && !is_hash_bang(s, i) ==> sentences::ends_from(s, i) == seq![(i, m)]
            + sentences::ends_from(s, m),
{
    assert(is_stop(s[i]));
    lemma_terminators(s, i + 1, t);
    lemma_closers(s, t, m);
    lemma_abbreviation(s, "e.g."@, i);
    lemma_abbreviation(s, "i.e."@, i);
    lemma_abbreviation(s, "etc."@, i);
    lemma_abbreviation(s, "vs."@, i);
    lemma_abbreviation(s, "Fig."@, i);
    lemma_abbreviation(s, "No."@, i);
}

/// After the end of a line there is nothing to end.
pub proof fn law_no_end_after_the_line(s: Seq<char>)
    ensures
        sentences::ends_from(s, s.len() as int).len() == 0,
{
}

// ── Markdown markers ───────────────────────────────────────────────────────

/// A line in two parts: its leading white space, and the rest.
pub open spec fn is_indented(s: Seq<char>, pad: Seq<char>, rest: Seq<char>) -> bool {
    s == pad + rest && text::is_blank(pad) && words::is_flush(rest)
}

/// A space or a tab stands at `i`.
pub open spec fn has_gap(s: Seq<char>, i: int) -> bool {
    0 <= i < s.len() && (s[i] == ' ' || s[i] == '\t')
}

/// Three times the same character out of `-`, `_`, `*` and `=`, and nothing
/// else but white space.
pub open spec fn is_ruler(s: Seq<char>) -> bool {
    &&& s.len() > 0
    &&& s[0] == '-' || s[0] == '_' || s[0] == '*' || s[0] == '='
    &&& forall|i: int| 0 <= i < s.len() ==> (#[trigger] s[i] == s[0] || text::is_white(s[i]))
    &&& exists|j: int, k: int|
        0 < j < k < s.len() && #[trigger] s[j] == s[0] && #[trigger] s[k] == s[0]
}

proof fn lemma_count(s: Seq<char>, c: char, w: int, n: int)
    requires
        0 <= w <= n <= s.len(),
        forall|i: int| 0 <= i < w ==> #[trigger] s[i] != c,
    ensures
        sentences::count_of(s, c, n) >= 1 <==> exists|i: int| w <= i < n && #[trigger] s[i] == c,
        sentences::count_of(s, c, n) >= 2 <==> exists|i: int, j: int|
            w <= i < j < n && #[trigger] s[i] == c && #[trigger] s[j] == c,
        sentences::count_of(s, c, n) >= 3 <==> exists|i: int, j: int, k: int|
            w <= i < j < k < n && #[trigger] s[i] == c && #[trigger] s[j] == c && #[trigger] s[k]
                == c,
    decreases n,
{
    if n > w {
        lemma_count(s, c, w, n - 1);
        let m = n - 1;
        if s[m] == c {
            if sentences::count_of(s, c, m) >= 2 {
                let (i, j) = choose|i: int, j: int|
                    w <= i < j < m && #[trigger] s[i] == c && #[trigger] s[j] == c;
                assert(s[i] == c && s[j] == c && s[m] == c);
            }
            if sentences::count_of(s, c, m) >= 1 {
                let i = choose|i: int| w <= i < m && #[trigger] s[i] == c;
                assert(s[i] == c && s[m] == c);
            }
        }
    } else if n > 0 {
        lemma_none(s, c, n);
    }
}

proof fn lemma_none(s: Seq<char>, c: char, n: int)
    requires
        0 <= n <= s.len(),
        forall|i: int| 0 <= i < n ==> #[trigger] s[i] != c,
    ensures
        sentences::count_of(s, c, n) == 0,
    decreases n,
{
    if n > 0 {
        lemma_none(s, c, n - 1);
        assert(s[n - 1] != c);
    }
}

proof fn lemma_break(s: Seq<char>, pad: Seq<char>, rest: Seq<char>)
    requires
        is_indented(s, pad, rest),
        rest.len() > 0,
    ensures
        sentences::is_break(s, pad.len() as int) <==> is_ruler(rest),
{
    let w = pad.len() as int;
    let c = rest[0];
    let n = s.len() as int;
    assert(s[w] == c);
    assert forall|i: int| 0 <= i < w implies #[trigger] s[i] != c by {
        assert(s[i] == pad[i]);
        assert(text::is_white(pad[i]));
    }
    lemma_count(s, c, w, n);
    assert(forall|i: int| 0 <= i < rest.len() ==> #[trigger] rest[i] == s[w + i]);
    if sentences::is_break(s, w) {
        let (i, j, k) = choose|i: int, j: int, k: int|
            w <= i < j < k < n && #[trigger] s[i] == c && #[trigger] s[j] == c && #[trigger] s[k]
                == c;
        assert(rest[j - w] == c && rest[k - w] == c);
        assert forall|i: int| 0 <= i < rest.len() implies (#[trigger] rest[i] == rest[0]
            || text::is_white(rest[i])) by {
            assert(s[w + i] == s[w] || text::is_white(s[w + i]));
        }
    }
    if is_ruler(rest) {
        let (j, k) = choose|j: int, k: int|
            0 < j < k < rest.len() && #[trigger] rest[j] == c && #[trigger] rest[k] == c;
        assert(s[w] == c && s[w + j] == c && s[w + k] == c);
        assert forall|i: int| w <= i < s.len() implies (#[trigger] s[i] == s[w] || text::is_white(
            s[i],
        )) by {
            assert(s[i] == rest[i - w]);
        }
    }
}

/// A line with more than three bytes of leading white space, and a blank one,
/// starts no block.
pub proof fn law_indented_lines_start_no_block(s: Seq<char>, pad: Seq<char>, rest: Seq<char>)
    requires
        is_indented(s, pad, rest),
        text::byte_len(pad) > 3 || rest.len() == 0,
    ensures
        sentences::block(s) == (BlockKind::Plain, 0int),
{
    words::law_indent(pad, rest);
}

/// A ruler is a break.
pub proof fn law_rulers_are_breaks(s: Seq<char>, pad: Seq<char>, rest: Seq<char>)
    requires
        is_indented(s, pad, rest),
        text::byte_len(pad) <= 3,
        rest.len() > 0,
    ensures
        sentences::block(s).0 == BlockKind::ThematicBreak <==> is_ruler(rest),
{
    words::law_indent(pad, rest);
    lemma_break(s, pad, rest);
}

proof fn lemma_run(s: Seq<char>, c: char, i: int, j: int)
    requires
        0 <= i <= j <= s.len(),
        forall|k: int| i <= k < j ==> #[trigger] s[k] == c,
        j < s.len() ==> s[j] != c,
    ensures
        text::run_end(s, c, i) == j,
{
    text::lemma_run_end(s, c, i);
    let e = text::run_end(s, c, i);
    if e < j {
        assert(s[e] == c);
    }
}

/// A heading has one to six `#` and then a gap or nothing. Its prose begins
/// after that. With more of them, or without a gap, the line is plain.
pub proof fn law_headings(s: Seq<char>, pad: Seq<char>, n: int, rest: Seq<char>)
    requires
        is_indented(s, pad, rest),
        text::byte_len(pad) <= 3,
        0 < n <= rest.len(),
        forall|k: int| 0 <= k < n ==> #[trigger] rest[k] == '#',
        n < rest.len() ==> rest[n] != '#',
    ensures
        n <= 6 && n == rest.len() ==> sentences::block(s) == (
            BlockKind::SingleLine,
            pad.len() + n,
        ),
        n <= 6 && has_gap(rest, n) ==> sentences::block(s) == (
            BlockKind::SingleLine,
            pad.len() + n + 1,
        ),
        n > 6 || (n < rest.len() && !has_gap(rest, n)) ==> sentences::block(s) == (
            BlockKind::Plain,
            0int,
        ),
{
    let w = pad.len() as int;
    words::law_indent(pad, rest);
    lemma_break(s, pad, rest);
    assert(rest[0] == '#');
    assert(s[w] == '#');
    assert forall|k: int| w <= k < w + n implies #[trigger] s[k] == '#' by {
        assert(s[k] == rest[k - w]);
    }
    if n < rest.len() {
        assert(s[w + n] == rest[n]);
    }
    lemma_run(s, '#', w, w + n);
}

/// A block quote is plain text. Its prose begins after the quote marks and
/// one gap.
pub proof fn law_quotes(s: Seq<char>, pad: Seq<char>, n: int, rest: Seq<char>)
    requires
        is_indented(s, pad, rest),
        text::byte_len(pad) <= 3,
        0 < n <= rest.len(),
        forall|k: int| 0 <= k < n ==> #[trigger] rest[k] == '>',
        n < rest.len() ==> rest[n] != '>',
    ensures
        has_gap(rest, n) ==> sentences::block(s) == (BlockKind::Plain, pad.len() + n + 1),
        !has_gap(rest, n) ==> sentences::block(s) == (BlockKind::Plain, pad.len() + n),
{
    let w = pad.len() as int;
    words::law_indent(pad, rest);
    lemma_break(s, pad, rest);
    assert(rest[0] == '>');
    assert(s[w] == '>');
    assert forall|k: int| w <= k < w + n implies #[trigger] s[k] == '>' by {
        assert(s[k] == rest[k - w]);
    }
    if n < rest.len() {
        assert(s[w + n] == rest[n]);
    }
    lemma_run(s, '>', w, w + n);
}

/// A bullet is `-`, `*` or `+` with a gap after it. Its prose begins after
/// the gap. Without one the line is plain.
pub proof fn law_bullets(s: Seq<char>, pad: Seq<char>, rest: Seq<char>)
    requires
        is_indented(s, pad, rest),
        text::byte_len(pad) <= 3,
        rest.len() > 0,
        rest[0] == '-' || rest[0] == '*' || rest[0] == '+',
        !is_ruler(rest),
    ensures
        has_gap(rest, 1) ==> sentences::block(s) == (BlockKind::Item, pad.len() as int + 2),
        !has_gap(rest, 1) ==> sentences::block(s) == (BlockKind::Plain, 0int),
{
    let w = pad.len() as int;
    words::law_indent(pad, rest);
    lemma_break(s, pad, rest);
    assert(s[w] == rest[0]);
    if rest.len() > 1 {
        assert(s[w + 1] == rest[1]);
    }
}

proof fn lemma_digits(s: Seq<char>, i: int, j: int)
    requires
        0 <= i <= j <= s.len(),
        forall|k: int| i <= k < j ==> '0' <= #[trigger] s[k] <= '9',
        j < s.len() ==> !('0' <= s[j] <= '9'),
    ensures
        sentences::digits_end(s, i) == j,
    decreases j - i,
{
    if i < j {
        assert('0' <= s[i] <= '9');
        lemma_digits(s, i + 1, j);
    }
}

/// A numbered item has one to nine digits, then `.` or `)`, and then a gap or
/// nothing. Its prose begins after that. Otherwise the line is plain.
pub proof fn law_numbered_items(s: Seq<char>, pad: Seq<char>, n: int, rest: Seq<char>)
    requires
        is_indented(s, pad, rest),
        text::byte_len(pad) <= 3,
        0 < n <= rest.len(),
        forall|k: int| 0 <= k < n ==> '0' <= #[trigger] rest[k] <= '9',
        n < rest.len() ==> !('0' <= rest[n] <= '9'),
    ensures
        ({
            let dotted = n <= 9 && n < rest.len() && (rest[n] == '.' || rest[n] == ')');
            &&& dotted && has_gap(rest, n + 1) ==> sentences::block(s) == (
                BlockKind::Item,
                pad.len() + n + 2,
            )
            &&& dotted && n + 1 == rest.len() ==> sentences::block(s) == (
                BlockKind::Item,
                pad.len() + n + 1,
            )
            &&& !dotted || (n + 1 < rest.len() && !has_gap(rest, n + 1)) ==> sentences::block(s)
                == (BlockKind::Plain, 0int)
        }),
{
    let w = pad.len() as int;
    words::law_indent(pad, rest);
    lemma_break(s, pad, rest);
    assert('0' <= rest[0] <= '9');
    assert(s[w] == rest[0]);
    assert forall|k: int| w <= k < w + n implies '0' <= #[trigger] s[k] <= '9' by {
        assert(s[k] == rest[k - w]);
    }
    if n < rest.len() {
        assert(s[w + n] == rest[n]);
    }
    if n + 1 < rest.len() {
        assert(s[w + n + 1] == rest[n + 1]);
    }
    lemma_digits(s, w, w + n);
}

/// Every other line is plain.
pub proof fn law_other_lines_are_plain(s: Seq<char>, pad: Seq<char>, rest: Seq<char>)
    requires
        is_indented(s, pad, rest),
        rest.len() > 0,
        !is_ruler(rest),
        rest[0] != '#',
        rest[0] != '>',
        rest[0] != '-',
        rest[0] != '*',
        rest[0] != '+',
        !('0' <= rest[0] <= '9'),
    ensures
        sentences::block(s) == (BlockKind::Plain, 0int),
{
    let w = pad.len() as int;
    words::law_indent(pad, rest);
    lemma_break(s, pad, rest);
    assert(s[w] == rest[0]);
}

/// The sentence ends of a line in bytes are its sentence ends in characters,
/// each place by its byte offset.
pub proof fn law_byte_ends(s: Seq<char>, k: int)
    requires
        0 <= k < sentences::ends_from(s, 0).len(),
    ensures
        sentences::byte_ends(s).len() == sentences::ends_from(s, 0).len(),
        sentences::byte_ends(s)[k].0 == text::byte_len(s.take(sentences::ends_from(s, 0)[k].0)),
        sentences::byte_ends(s)[k].1 == text::byte_len(s.take(sentences::ends_from(s, 0)[k].1)),
{
    sentences::law_sentence_ends(s, 0);
    let e = sentences::ends_from(s, 0)[k];
    assert(sentences::is_end(s, 0, e));
    text::lemma_offset_prefix(s, s.take(e.0), e.0);
    text::lemma_offset_prefix(s, s.take(e.1), e.1);
}

} // verus!

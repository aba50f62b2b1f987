//! Sentence and paragraph segmentation.
//!
//! Text splits into sentences at `.`, `!` and `?`, at their full-width and
//! ideographic forms, and at the closing delimiters after them. Sentences
//! group into paragraphs. Paragraphs break at blank lines and at markdown
//! block boundaries (headings, list items, thematic breaks). Known
//! abbreviations, dotted identifiers and numeric literals do not end a
//! sentence.

use vstd::prelude::*;

use crate::lines;
use crate::text;
use crate::types;
use crate::types::{Paragraph, ParagraphModel, Sentence, SentenceModel};

verus! {

// ── Sentence ends ──────────────────────────────────────────────────────────

/// A mark that can end a sentence.
pub open spec fn is_terminator(c: char) -> bool {
    c == '.' || c == '!' || c == '?' || c == '\u{3002}' || c == '\u{ff01}' || c == '\u{ff1f}'
}

/// A closing delimiter that can follow a terminator.
pub open spec fn is_closer(c: char) -> bool {
    c == '"' || c == '\u{201d}' || c == '\u{bb}' || c == '\u{203a}' || c == ')' || c == ']' || c
        == '}'
}

/// A word character: an ASCII letter, a digit, or an underscore.
pub open spec fn is_word(c: char) -> bool {
    c == '_' || text::is_ascii_alnum(c)
}

/// The end of the run of terminators that starts at `i`.
pub open spec fn terminators_end(s: Seq<char>, i: int) -> int
    decreases s.len() - i,
{
    if 0 <= i < s.len() && is_terminator(s[i]) {
        terminators_end(s, i + 1)
    } else {
        i
    }
}

/// The end of the run of closing delimiters that starts at `i`.
pub open spec fn closers_end(s: Seq<char>, i: int) -> int
    decreases s.len() - i,
{
    if 0 <= i < s.len() && is_closer(s[i]) {
        closers_end(s, i + 1)
    } else {
        i
    }
}

/// Where the sentence mark that starts at `i` ends.
pub open spec fn mark_end(s: Seq<char>, i: int) -> int {
    closers_end(s, terminators_end(s, i + 1))
}

/// A dot inside code: it has word characters on both sides, or a digit on
/// its left.
pub open spec fn is_inner_dot(s: Seq<char>, i: int) -> bool {
    &&& s[i] == '.'
    &&& i > 0
    &&& text::is_digit(s[i - 1]) || (is_word(s[i - 1]) && i + 1 < s.len() && is_word(s[i + 1]))
}

/// The abbreviation `p` ends right before `e`. It starts the line or follows
/// a character that is no word character.
pub open spec fn is_abbreviation(s: Seq<char>, p: Seq<char>, e: int) -> bool {
    let k = e - p.len();
    text::occurs_at(s, p, k) && (k == 0 || !is_word(s[k - 1]))
}

/// The dot at `i` ends a known abbreviation.
pub open spec fn ends_abbreviation(s: Seq<char>, i: int) -> bool {
    ||| is_abbreviation(s, "e.g."@, i + 1)
    ||| is_abbreviation(s, "i.e."@, i + 1)
    ||| is_abbreviation(s, "etc."@, i + 1)
    ||| is_abbreviation(s, "vs."@, i + 1)
    ||| is_abbreviation(s, "Fig."@, i + 1)
    ||| is_abbreviation(s, "No."@, i + 1)
}

/// The `!` at `i` belongs to a `#!` at the start of the line.
pub open spec fn is_shebang(s: Seq<char>, i: int) -> bool {
    i == 1 && s[0] == '#' && s[1] == '!'
}

/// The sentence ends at or after `i`, each with the place of its first
/// mark and the place after its last one.
pub open spec fn ends_from(s: Seq<char>, i: int) -> Seq<(int, int)>
    decreases s.len() - i,
    via ends_from_decreases
{
    if i < 0 || i >= s.len() {
        Seq::empty()
    } else if !is_terminator(s[i]) || is_inner_dot(s, i) {
        ends_from(s, i + 1)
    } else if ends_abbreviation(s, i) || is_shebang(s, i) {
        ends_from(s, mark_end(s, i))
    } else {
        seq![(i, mark_end(s, i))] + ends_from(s, mark_end(s, i))
    }
}

#[via_fn]
proof fn ends_from_decreases(s: Seq<char>, i: int) {
    if 0 <= i < s.len() {
        lemma_mark_end(s, i);
    }
}

proof fn lemma_terminators_end(s: Seq<char>, i: int)
    requires
        0 <= i <= s.len(),
    ensures
        i <= terminators_end(s, i) <= s.len(),
    decreases s.len() - i,
{
    if i < s.len() && is_terminator(s[i]) {
        lemma_terminators_end(s, i + 1);
    }
}

proof fn lemma_closers_end(s: Seq<char>, i: int)
    requires
        0 <= i <= s.len(),
    ensures
        i <= closers_end(s, i) <= s.len(),
    decreases s.len() - i,
{
    if i < s.len() && is_closer(s[i]) {
        lemma_closers_end(s, i + 1);
    }
}

proof fn lemma_mark_end(s: Seq<char>, i: int)
    requires
        0 <= i < s.len(),
    ensures
        i < mark_end(s, i) <= s.len(),
{
    lemma_terminators_end(s, i + 1);
    lemma_closers_end(s, terminators_end(s, i + 1));
}

/// A sentence end within the line at or after `i`: it starts at a
/// terminator that is not inside code, does not end an abbreviation and is
/// no part of a shebang.
pub open spec fn is_end(s: Seq<char>, i: int, e: (int, int)) -> bool {
    &&& i <= e.0 < e.1 <= s.len()
    &&& is_terminator(s[e.0])
    &&& !is_inner_dot(s, e.0)
    &&& !ends_abbreviation(s, e.0)
    &&& !is_shebang(s, e.0)
}

/// Sentence ends are in order, do not overlap and stay within the line. A
/// dot inside a dotted identifier, after a digit or at the end of an
/// abbreviation is never one of them.
pub proof fn law_sentence_ends(s: Seq<char>, i: int)
    requires
        0 <= i <= s.len(),
    ensures
        forall|k: int| 0 <= k < ends_from(s, i).len() ==> is_end(s, i, #[trigger] ends_from(s, i)[k]),
        forall|j: int, k: int|
            0 <= j < k < ends_from(s, i).len() ==> (#[trigger] ends_from(s, i)[j]).1 <= (
            #[trigger] ends_from(s, i)[k]).0,
    decreases s.len() - i,
{
    if i < s.len() {
        let all = ends_from(s, i);
        if !is_terminator(s[i]) || is_inner_dot(s, i) {
            law_sentence_ends(s, i + 1);
            assert(all == ends_from(s, i + 1));
            assert forall|k: int| 0 <= k < all.len() implies is_end(s, i, #[trigger] all[k]) by {
                assert(is_end(s, i + 1, ends_from(s, i + 1)[k]));
            }
        } else {
            let m = mark_end(s, i);
            lemma_mark_end(s, i);
            law_sentence_ends(s, m);
            let rest = ends_from(s, m);
            if ends_abbreviation(s, i) || is_shebang(s, i) {
                assert(all == rest);
                assert forall|k: int| 0 <= k < all.len() implies is_end(s, i, #[trigger] all[k]) by {
                    assert(is_end(s, m, rest[k]));
                }
            } else {
                assert(all == seq![(i, m)] + rest);
                assert forall|k: int| 0 <= k < all.len() implies is_end(s, i, #[trigger] all[k]) by {
                    if k > 0 {
                        assert(is_end(s, m, rest[k - 1]));
                    }
                }
                assert forall|j: int, k: int| 0 <= j < k < all.len() implies (#[trigger] all[j]).1
                    <= (#[trigger] all[k]).0 by {
                    assert(is_end(s, m, rest[k - 1]));
                    if j > 0 {
                        assert(rest[j - 1].1 <= rest[k - 1].0);
                    }
                }
            }
        }
    }
}

fn terminator(c: char) -> (r: bool)
    ensures
        r == is_terminator(c),
{
    c == '.' || c == '!' || c == '?' || c == '\u{3002}' || c == '\u{ff01}' || c == '\u{ff1f}'
}

fn closer(c: char) -> (r: bool)
    ensures
        r == is_closer(c),
{
    c == '"' || c == '\u{201d}' || c == '\u{bb}' || c == '\u{203a}' || c == ')' || c == ']' || c
        == '}'
}

/// A word character for the dotted-identifier guard: an ASCII letter,
/// a digit, or an underscore.
pub fn is_word_char(c: char) -> (r: bool)
    ensures
        r == is_word(c),
{
    c == '_' || text::ascii_alnum(c)
}

fn inner_dot(s: &Vec<char>, i: usize) -> (r: bool)
    requires
        i < s.len(),
    ensures
        r == is_inner_dot(s@, i as int),
{
    if s[i] != '.' || i == 0 {
        return false;
    }
    text::digit(s[i - 1]) || (is_word_char(s[i - 1]) && i + 1 < s.len() && is_word_char(s[i + 1]))
}

/// True when the abbreviation `p` ends right before `e`.
fn ends_at(s: &Vec<char>, p: &str, e: usize) -> (r: bool)
    requires
        e <= s@.len(),
    ensures
        r == is_abbreviation(s@, p@, e as int),
{
    let p = text::chars_of(p);
    if p.len() > e {
        return false;
    }
    let k: usize = e - p.len();
    text::at(s, &p, k) && (k == 0 || !is_word_char(s[k - 1]))
}

fn abbreviation(s: &Vec<char>, i: usize) -> (r: bool)
    requires
        i < s.len(),
    ensures
        r == ends_abbreviation(s@, i as int),
{
    let e: usize = i + 1;
    ends_at(s, "e.g.", e) || ends_at(s, "i.e.", e) || ends_at(s, "etc.", e) || ends_at(s, "vs.", e)
        || ends_at(s, "Fig.", e) || ends_at(s, "No.", e)
}

/// Where the sentence mark that starts at `i` ends.
fn skip_mark(s: &Vec<char>, i: usize) -> (r: usize)
    requires
        i < s.len(),
    ensures
        r == mark_end(s@, i as int),
        i < r <= s@.len(),
{
    let mut j: usize = i + 1;
    while j < s.len() && terminator(s[j])
        invariant
            i < j <= s@.len(),
            terminators_end(s@, i + 1) == terminators_end(s@, j as int),
        decreases s@.len() - j,
    {
        j += 1;
    }
    let ghost mid = j as int;
    while j < s.len() && closer(s[j])
        invariant
            i < j <= s@.len(),
            closers_end(s@, mid) == closers_end(s@, j as int),
        decreases s@.len() - j,
    {
        j += 1;
    }
    j
}

/// Pairs of places, as integers.
pub open spec fn places(v: Seq<(usize, usize)>) -> Seq<(int, int)> {
    Seq::new(v.len(), |i: int| (v[i].0 as int, v[i].1 as int))
}

/// The sentence ends of a line, as character places.
fn end_places(s: &Vec<char>) -> (r: Vec<(usize, usize)>)
    ensures
        places(r@) == ends_from(s@, 0),
{
    let mut r: Vec<(usize, usize)> = Vec::new();
    let mut i: usize = 0;
    assert(places(r@) + ends_from(s@, 0) =~= ends_from(s@, 0));
    while i < s.len()
        invariant
            i <= s@.len(),
            places(r@) + ends_from(s@, i as int) == ends_from(s@, 0),
        decreases s@.len() - i,
    {
        if !terminator(s[i]) || inner_dot(s, i) {
            i += 1;
            continue;
        }
        let e = skip_mark(s, i);
        let shebang = i == 1 && s[0] == '#' && s[1] == '!';
        if !abbreviation(s, i) && !shebang {
            let ghost before = places(r@);
            r.push((i, e));
            proof {
                assert(places(r@) =~= before.push((i as int, e as int)));
                assert(before + (seq![(i as int, e as int)] + ends_from(s@, e as int)) =~= places(
                    r@,
                ) + ends_from(s@, e as int));
            }
        }
        i = e;
    }
    assert(places(r@) + ends_from(s@, i as int) =~= places(r@));
    r
}

/// The sentence ends of a line, as byte offsets.
pub open spec fn byte_ends(s: Seq<char>) -> Seq<(int, int)> {
    let e = ends_from(s, 0);
    Seq::new(
        e.len(),
        |k: int| (text::byte_offset(s, e[k].0) as int, text::byte_offset(s, e[k].1) as int),
    )
}

/// The byte ranges of `line` where a sentence ends.
///
/// All offsets lie on character boundaries.
pub fn sentence_ends(line: &str) -> (r: Vec<(usize, usize)>)
    ensures
        places(r@) == byte_ends(line@),
{
    let s = text::chars_of(line);
    let n = text::byte_length(line);
    let ends = end_places(&s);
    let mut r: Vec<(usize, usize)> = Vec::new();
    let mut k: usize = 0;
    while k < ends.len()
        invariant
            s@ == line@,
            n == text::byte_len(s@),
            places(ends@) == ends_from(s@, 0),
            k <= ends@.len(),
            r@.len() == k,
            forall|j: int| 0 <= j < k ==> places(r@)[j] == #[trigger] byte_ends(s@)[j],
        decreases ends@.len() - k,
    {
        proof {
            law_sentence_ends(s@, 0);
            assert(ends_from(s@, 0)[k as int] == places(ends@)[k as int]);
        }
        let (a, b) = ends[k];
        r.push((text::offset_at(&s, a), text::offset_at(&s, b)));
        k += 1;
    }
    assert(places(r@) =~= byte_ends(line@));
    r
}

// ── Markdown blocks ────────────────────────────────────────────────────────

/// The kind of markdown block a line starts.
#[derive(Debug, Clone, Copy, PartialEq, Eq, Structural)]
pub enum BlockKind {
    /// A regular prose line: a wrapped continuation of the previous
    /// block, or plain text.
    Plain,
    /// A single-line block (an ATX heading). Its sentence must close
    /// at end of line.
    SingleLine,
    /// A list item. Its content may continue on the next indented
    /// line, but the line starts a new block.
    Item,
    /// A thematic break or setext heading underline. It carries no
    /// prose and acts as a separator.
    ThematicBreak,
}

/// A character of which thematic breaks and setext underlines are made.
pub open spec fn is_rule_char(c: char) -> bool {
    c == '-' || c == '_' || c == '*' || c == '='
}

/// A space or a tab.
pub open spec fn is_gap(c: char) -> bool {
    c == ' ' || c == '\t'
}

/// The width of the optional space or tab at `i`.
pub open spec fn gap(s: Seq<char>, i: int) -> int {
    if 0 <= i < s.len() && is_gap(s[i]) {
        1
    } else {
        0
    }
}

/// How often `c` stands in the first `n` characters.
pub open spec fn count_of(s: Seq<char>, c: char, n: int) -> nat
    decreases n,
{
    if n <= 0 {
        0
    } else {
        count_of(s, c, n - 1) + if s[n - 1] == c {
            1nat
        } else {
            0
        }
    }
}

/// From `w` on the line is three or more of the same rule character, with
/// optional white space between.
pub open spec fn is_break(s: Seq<char>, w: int) -> bool {
    &&& is_rule_char(s[w])
    &&& forall|i: int| w <= i < s.len() ==> (#[trigger] s[i] == s[w] || text::is_white(s[i]))
    &&& count_of(s, s[w], s.len() as int) >= 3
}

/// The end of the run of digits that starts at `i`.
pub open spec fn digits_end(s: Seq<char>, i: int) -> int
    decreases s.len() - i,
{
    if 0 <= i < s.len() && text::is_digit(s[i]) {
        digits_end(s, i + 1)
    } else {
        i
    }
}

/// The block that a line starts, and the place where its prose begins, past
/// any marker. At most three bytes of white space may stand before a marker.
pub open spec fn block(s: Seq<char>) -> (BlockKind, int) {
    let w = text::white_end(s, 0);
    if text::indent(s) > 3 || w >= s.len() {
        (BlockKind::Plain, 0)
    } else if is_break(s, w) {
        (BlockKind::ThematicBreak, 0)
    } else if s[w] == '>' {
        let q = text::run_end(s, '>', w);
        (BlockKind::Plain, q + gap(s, q))
    } else if s[w] == '#' {
        let h = text::run_end(s, '#', w);
        if h - w <= 6 && (h == s.len() || gap(s, h) == 1) {
            (BlockKind::SingleLine, h + gap(s, h))
        } else {
            (BlockKind::Plain, 0)
        }
    } else if s[w] == '-' || s[w] == '*' || s[w] == '+' {
        if gap(s, w + 1) == 1 {
            (BlockKind::Item, w + 2)
        } else {
            (BlockKind::Plain, 0)
        }
    } else if text::is_digit(s[w]) {
        let d = digits_end(s, w);
        if d - w <= 9 && d < s.len() && (s[d] == '.' || s[d] == ')') && (d + 1 == s.len() || gap(
            s,
            d + 1,
        ) == 1) {
            (BlockKind::Item, d + 1 + gap(s, d + 1))
        } else {
            (BlockKind::Plain, 0)
        }
    } else {
        (BlockKind::Plain, 0)
    }
}

proof fn lemma_digits_end(s: Seq<char>, i: int)
    requires
        0 <= i <= s.len(),
    ensures
        i <= digits_end(s, i) <= s.len(),
    decreases s.len() - i,
{
    if i < s.len() && text::is_digit(s[i]) {
        lemma_digits_end(s, i + 1);
    }
}

/// The prose of a block begins within the line.
proof fn lemma_block(s: Seq<char>)
    ensures
        0 <= block(s).1 <= s.len(),
{
    text::lemma_white_end(s, 0);
    let w = text::white_end(s, 0);
    if w < s.len() {
        text::lemma_run_end(s, '>', w);
        text::lemma_run_end(s, '#', w);
        lemma_digits_end(s, w);
    }
}

/// The width of the optional space or tab at `i`.
fn gap_at(s: &Vec<char>, i: usize) -> (r: usize)
    requires
        i <= s@.len(),
    ensures
        r == gap(s@, i as int),
{
    if i < s.len() && (s[i] == ' ' || s[i] == '\t') {
        1
    } else {
        0
    }
}

fn break_at(s: &Vec<char>, w: usize) -> (r: bool)
    requires
        w < s@.len(),
        forall|i: int| 0 <= i < w ==> text::is_white(#[trigger] s@[i]),
    ensures
        r == is_break(s@, w as int),
{
    let c = s[w];
    if c != '-' && c != '_' && c != '*' && c != '=' {
        return false;
    }
    let mut count: usize = 0;
    let mut i: usize = 0;
    while i < s.len()
        invariant
            w < s@.len(),
            i <= s@.len(),
            c == s@[w as int],
            is_rule_char(c),
            count == count_of(s@, c, i as int),
            count <= i,
            forall|k: int| 0 <= k < w ==> text::is_white(#[trigger] s@[k]),
            forall|k: int| w <= k < i ==> (#[trigger] s@[k] == c || text::is_white(s@[k])),
        decreases s@.len() - i,
    {
        if s[i] == c {
            count += 1;
        } else if !text::white(s[i]) {
            assert(i >= w);
            return false;
        }
        i += 1;
    }
    count >= 3
}

/// Classify the markdown block that a line starts.
///
/// Returns the block kind and the place where the block's prose content
/// begins, past any leading marker such as `#`, `- `, or `1.`. These are
/// structural boundaries, so an open sentence and an open paragraph must
/// close before such a line.
fn block_analysis(s: &Vec<char>) -> (r: (BlockKind, usize))
    requires
        text::byte_len(s@) <= usize::MAX,
    ensures
        (r.0, r.1 as int) == block(s@),
        r.1 <= s@.len(),
{
    proof {
        lemma_block(s@);
        text::lemma_white_end(s@, 0);
    }
    let w = text::skip_white(s, 0);
    let n: usize = s.len();
    if w == n || text::offset_at(s, w) > 3 {
        return (BlockKind::Plain, 0);
    }
    if break_at(s, w) {
        return (BlockKind::ThematicBreak, 0);
    }
    if s[w] == '>' {
        let q = text::skip_run(s, '>', w);
        return (BlockKind::Plain, q + gap_at(s, q));
    }
    if s[w] == '#' {
        let h = text::skip_run(s, '#', w);
        if h - w <= 6 && (h == n || gap_at(s, h) == 1) {
            return (BlockKind::SingleLine, h + gap_at(s, h));
        }
        return (BlockKind::Plain, 0);
    }
    if s[w] == '-' || s[w] == '*' || s[w] == '+' {
        if gap_at(s, w + 1) == 1 {
            return (BlockKind::Item, w + 2);
        }
        return (BlockKind::Plain, 0);
    }
    if text::digit(s[w]) {
        let mut d: usize = w;
        while d < n && text::digit(s[d])
            invariant
                w <= d <= n,
                n == s@.len(),
                digits_end(s@, w as int) == digits_end(s@, d as int),
            decreases n - d,
        {
            d += 1;
        }
        if d - w <= 9 && d < n && (s[d] == '.' || s[d] == ')') && (d + 1 == n || gap_at(s, d + 1)
            == 1) {
            return (BlockKind::Item, d + 1 + gap_at(s, d + 1));
        }
    }
    (BlockKind::Plain, 0)
}

// ── Sentences ──────────────────────────────────────────────────────────────

/// How far segmentation has come: the sentences that are closed, and the
/// parts of the open one with the place of its first character. An open
/// sentence has at least one part. With none open the place is zero.
pub struct ScanModel {
    pub done: Seq<SentenceModel>,
    pub parts: Seq<Seq<char>>,
    pub line: int,
    pub column: int,
}

/// Nothing read yet.
pub open spec fn scan_start() -> ScanModel {
    ScanModel { done: Seq::empty(), parts: Seq::empty(), line: 0, column: 0 }
}

/// Closes the open sentence, if there is one.
pub open spec fn closed(st: ScanModel) -> ScanModel {
    if st.parts.len() == 0 {
        st
    } else {
        let text = lines::join(st.parts, " "@);
        ScanModel {
            done: st.done.push(
                SentenceModel {
                    text,
                    line: st.line,
                    column: st.column,
                    word_count: text::word_count(text) as int,
                },
            ),
            parts: Seq::empty(),
            line: 0,
            column: 0,
        }
    }
}

/// Adds the stretch `from..to` of line number `line` to the open sentence,
/// without its outer white space. A blank stretch adds nothing.
pub open spec fn added(st: ScanModel, s: Seq<char>, from: int, to: int, line: int) -> ScanModel {
    let piece = s.subrange(from, to);
    if text::is_blank(piece) {
        st
    } else {
        let first = from + text::white_end(piece, 0);
        let fresh = st.parts.len() == 0;
        ScanModel {
            done: st.done,
            parts: st.parts.push(text::trim(piece)),
            line: if fresh {
                line
            } else {
                st.line
            },
            column: if fresh {
                text::byte_offset(s, first) as int + 1
            } else {
                st.column
            },
        }
    }
}

/// Where the stretch after the first `k` sentence ends begins.
pub open spec fn after_ends(ends: Seq<(int, int)>, start: int, k: int) -> int {
    if k <= 0 {
        start
    } else {
        start + ends[k - 1].1
    }
}

/// Reads a line up to its `k`th sentence end. The prose of the line begins
/// at `start`.
pub open spec fn scan_ends(
    st: ScanModel,
    s: Seq<char>,
    start: int,
    ends: Seq<(int, int)>,
    line: int,
    k: int,
) -> ScanModel
    decreases k,
{
    if k <= 0 {
        st
    } else {
        closed(
            added(
                scan_ends(st, s, start, ends, line, k - 1),
                s,
                after_ends(ends, start, k - 1),
                after_ends(ends, start, k),
                line,
            ),
        )
    }
}

/// Reads line number `line`.
pub open spec fn scan_line(st: ScanModel, s: Seq<char>, line: int, merge_lines: bool) -> ScanModel {
    let (kind, start) = block(s);
    if text::is_blank(s) || kind == BlockKind::ThematicBreak {
        closed(st)
    } else {
        let ends = ends_from(s.skip(start), 0);
        let n = ends.len() as int;
        let opened = if kind == BlockKind::Plain {
            st
        } else {
            closed(st)
        };
        let read = added(
            scan_ends(opened, s, start, ends, line, n),
            s,
            after_ends(ends, start, n),
            s.len() as int,
            line,
        );
        if kind == BlockKind::SingleLine || !merge_lines {
            closed(read)
        } else {
            read
        }
    }
}

/// Reads the first `n` lines. Lines count from one.
pub open spec fn scan(rows: Seq<Seq<char>>, n: int, merge_lines: bool) -> ScanModel
    decreases n,
{
    if n <= 0 {
        scan_start()
    } else {
        scan_line(scan(rows, n - 1, merge_lines), rows[n - 1], n, merge_lines)
    }
}

/// The sentences of a text.
pub open spec fn sentences(text: Seq<char>, merge_lines: bool) -> Seq<SentenceModel> {
    let rows = lines::split(text, '\n');
    closed(scan(rows, rows.len() as int, merge_lines)).done
}

/// The executable form of `ScanModel`.
struct Scanner {
    done: Vec<Sentence>,
    parts: Vec<String>,
    line: usize,
    column: usize,
}

impl View for Scanner {
    type V = ScanModel;

    closed spec fn view(&self) -> ScanModel {
        ScanModel {
            done: types::sentence_models(self.done@),
            parts: lines::texts(self.parts@),
            line: self.line as int,
            column: self.column as int,
        }
    }
}

impl Scanner {
    fn close(&mut self)
        ensures
            final(self)@ == closed(old(self)@),
    {
        if self.parts.len() == 0 {
            return;
        }
        let text = lines::join_strings(&self.parts, " ");
        let word_count = text::count_words(&text::chars_of(text.as_str()));
        let s = Sentence { text, line: self.line, column: self.column, word_count };
        let ghost m = s@;
        let ghost before = types::sentence_models(self.done@);
        self.done.push(s);
        self.parts = Vec::new();
        self.line = 0;
        self.column = 0;
        proof {
            assert(types::sentence_models(self.done@) =~= before.push(m));
            assert(lines::texts(self.parts@) =~= Seq::<Seq<char>>::empty());
        }
    }

    fn extend(&mut self, s: &Vec<char>, from: usize, to: usize, line: usize)
        requires
            from <= to <= s@.len(),
            text::byte_len(s@) <= usize::MAX,
        ensures
            final(self)@ == added(old(self)@, s@, from as int, to as int, line as int),
    {
        let (a, b) = text::trim_bounds(s, from, to);
        if a == b {
            return;
        }
        if self.parts.len() == 0 {
            proof {
                text::lemma_offset_grows(s@, a as int, s@.len() as int);
            }
            self.line = line;
            self.column = text::offset_at(s, a) + 1;
        }
        let part = text::string_of(s, a, b);
        let ghost p = part@;
        let ghost before = lines::texts(self.parts@);
        self.parts.push(part);
        assert(lines::texts(self.parts@) =~= before.push(p));
    }

    fn read(&mut self, s: &Vec<char>, line: usize, merge_lines: bool)
        requires
            text::byte_len(s@) <= usize::MAX,
        ensures
            final(self)@ == scan_line(old(self)@, s@, line as int, merge_lines),
    {
        let (kind, start) = block_analysis(s);
        if text::blank(s) || kind == BlockKind::ThematicBreak {
            self.close();
            return;
        }
        if kind != BlockKind::Plain {
            self.close();
        }
        let ghost opened = self@;
        let n: usize = s.len();
        let content = text::part_of(s, start, n);
        let ends = end_places(&content);
        let ghost places = ends_from(content@, 0);
        let mut last: usize = start;
        let mut k: usize = 0;
        while k < ends.len()
            invariant
                text::byte_len(s@) <= usize::MAX,
                start <= n == s@.len(),
                content@ == s@.skip(start as int),
                places == ends_from(content@, 0),
                places == self::places(ends@),
                k <= ends@.len(),
                last == after_ends(places, start as int, k as int),
                start <= last <= s@.len(),
                self@ == scan_ends(opened, s@, start as int, places, line as int, k as int),
            decreases ends@.len() - k,
        {
            proof {
                law_sentence_ends(content@, 0);
                assert(is_end(content@, 0, places[k as int]));
                if k > 0 {
                    assert(places[k - 1].1 <= places[k as int].0);
                }
            }
            let end: usize = start + ends[k].1;
            self.extend(s, last, end, line);
            self.close();
            last = end;
            k += 1;
        }
        self.extend(s, last, n, line);
        if kind == BlockKind::SingleLine || !merge_lines {
            self.close();
        }
    }
}

/// Segment `text` into sentences. Each sentence carries the 1-based line
/// and byte column of its first character that is not white, and its word
/// count.
///
/// When `merge_lines` is false, each line closes its own sentence. The
/// source kinds pass false. Their comment lines stay separate, so a long
/// run of period-free lines cannot build one giant sentence.
pub fn segment_sentences(text: &str, merge_lines: bool) -> (r: Vec<Sentence>)
    ensures
        types::sentence_models(r@) == sentences(text@, merge_lines),
{
    let rows = lines::split_at_char(&text::chars_of(text), '\n');
    let ghost all = lines::split(text@, '\n');
    let n = text::byte_length(text);
    proof {
        lines::lemma_piece_bytes(text@, '\n', 0, 0);
    }
    let mut scanner = Scanner { done: Vec::new(), parts: Vec::new(), line: 0, column: 0 };
    proof {
        assert(types::sentence_models(scanner.done@) =~= Seq::<SentenceModel>::empty());
        assert(lines::texts(scanner.parts@) =~= Seq::<Seq<char>>::empty());
    }
    let mut i: usize = 0;
    while i < rows.len()
        invariant
            lines::rows(rows@) == all,
            n == text::byte_len(text@),
            forall|k: int| 0 <= k < all.len() ==> text::byte_len(#[trigger] all[k]) <= n,
            i <= rows@.len(),
            scanner@ == scan(all, i as int, merge_lines),
        decreases rows@.len() - i,
    {
        assert(all[i as int] == rows@[i as int]@);
        scanner.read(&rows[i], i + 1, merge_lines);
        i += 1;
    }
    scanner.close();
    scanner.done
}

// ── Paragraphs ─────────────────────────────────────────────────────────────

/// A line that starts a markdown block.
pub open spec fn starts_block(s: Seq<char>) -> bool {
    !text::is_blank(s) && block(s).0 != BlockKind::Plain
}

/// The number of the paragraph that line `i` belongs to, with lines and
/// paragraphs counted from zero. A new paragraph starts after a blank line
/// and at a markdown block.
pub open spec fn paragraph_of(rows: Seq<Seq<char>>, i: int) -> nat
    decreases i,
{
    if i <= 0 {
        0
    } else {
        paragraph_of(rows, i - 1) + if text::is_blank(rows[i - 1]) || starts_block(rows[i]) {
            1nat
        } else {
            0
        }
    }
}

/// The 1-based number of the first line at or after `i` that belongs to
/// paragraph `p` and is not blank, or zero.
pub open spec fn first_line(rows: Seq<Seq<char>>, p: int, i: int) -> int
    decreases rows.len() - i,
{
    if i < 0 || i >= rows.len() {
        0
    } else if paragraph_of(rows, i) == p && !text::is_blank(rows[i]) {
        i + 1
    } else {
        first_line(rows, p, i + 1)
    }
}

/// The paragraph that owns a sentence. A sentence whose line is blank, or
/// beyond the text, has none.
pub open spec fn owner(rows: Seq<Seq<char>>, s: SentenceModel) -> Option<int> {
    let i = if s.line > 0 {
        s.line - 1
    } else {
        0
    };
    if i < rows.len() && !text::is_blank(rows[i]) {
        Some(paragraph_of(rows, i) as int)
    } else {
        None
    }
}

/// Those of the first `n` sentences that paragraph `p` owns.
pub open spec fn members(
    rows: Seq<Seq<char>>,
    sentences: Seq<SentenceModel>,
    p: int,
    n: int,
) -> Seq<SentenceModel>
    decreases n,
{
    if n <= 0 {
        Seq::empty()
    } else if owner(rows, sentences[n - 1]) == Some(p) {
        members(rows, sentences, p, n - 1).push(sentences[n - 1])
    } else {
        members(rows, sentences, p, n - 1)
    }
}

/// Those of the first `p` paragraphs that own a sentence.
pub open spec fn paragraphs_to(
    rows: Seq<Seq<char>>,
    sentences: Seq<SentenceModel>,
    p: int,
) -> Seq<ParagraphModel>
    decreases p,
{
    if p <= 0 {
        Seq::empty()
    } else {
        let before = paragraphs_to(rows, sentences, p - 1);
        let own = members(rows, sentences, p - 1, sentences.len() as int);
        if own.len() == 0 {
            before
        } else {
            before.push(
                ParagraphModel { sentences: own, line: first_line(rows, p - 1, 0), column: 1 },
            )
        }
    }
}

/// The paragraphs of a text that own a sentence, in order.
pub open spec fn paragraphs(text: Seq<char>, sentences: Seq<SentenceModel>) -> Seq<ParagraphModel> {
    let rows = lines::split(text, '\n');
    paragraphs_to(rows, sentences, paragraph_of(rows, rows.len() - 1) as int + 1)
}

fn block_start(s: &Vec<char>) -> (r: bool)
    requires
        text::byte_len(s@) <= usize::MAX,
    ensures
        r == starts_block(s@),
{
    !text::blank(s) && block_analysis(s).0 != BlockKind::Plain
}

/// The paragraph of each line.
fn paragraph_numbers(rows: &Vec<Vec<char>>) -> (r: Vec<usize>)
    requires
        rows@.len() > 0,
        forall|k: int| 0 <= k < rows@.len() ==> text::byte_len(#[trigger] rows@[k]@) <= usize::MAX,
    ensures
        r@.len() == rows@.len(),
        forall|k: int|
            0 <= k < r@.len() ==> #[trigger] r@[k] == paragraph_of(lines::rows(rows@), k) && r@[k] <= k,
{
    let ghost all = lines::rows(rows@);
    let mut r: Vec<usize> = Vec::new();
    r.push(0);
    let mut i: usize = 1;
    while i < rows.len()
        invariant
            all == lines::rows(rows@),
            forall|k: int|
                0 <= k < rows@.len() ==> text::byte_len(#[trigger] rows@[k]@) <= usize::MAX,
            1 <= i <= rows@.len(),
            r@.len() == i,
            forall|k: int| 0 <= k < i ==> #[trigger] r@[k] == paragraph_of(all, k) && r@[k] <= k,
        decreases rows@.len() - i,
    {
        assert(all[i - 1] == rows@[i - 1]@ && all[i as int] == rows@[i as int]@);
        let before = r[i - 1];
        if text::blank(&rows[i - 1]) || block_start(&rows[i]) {
            r.push(before + 1);
        } else {
            r.push(before);
        }
        i += 1;
    }
    r
}

/// The 1-based number of the first line of paragraph `p` that is not blank.
fn find_first_line(rows: &Vec<Vec<char>>, numbers: &Vec<usize>, p: usize) -> (r: usize)
    requires
        numbers@.len() == rows@.len(),
        forall|k: int|
            0 <= k < rows@.len() ==> #[trigger] numbers@[k] == paragraph_of(lines::rows(rows@), k),
    ensures
        r == first_line(lines::rows(rows@), p as int, 0),
{
    let ghost all = lines::rows(rows@);
    let mut i: usize = 0;
    while i < rows.len()
        invariant
            all == lines::rows(rows@),
            numbers@.len() == rows@.len(),
            forall|k: int| 0 <= k < rows@.len() ==> #[trigger] numbers@[k] == paragraph_of(all, k),
            i <= rows@.len(),
            first_line(all, p as int, 0) == first_line(all, p as int, i as int),
        decreases rows@.len() - i,
    {
        assert(all[i as int] == rows@[i as int]@);
        if numbers[i] == p && !text::blank(&rows[i]) {
            return i + 1;
        }
        i += 1;
    }
    0
}

/// The paragraph that owns each sentence.
fn owners(rows: &Vec<Vec<char>>, numbers: &Vec<usize>, sentences: &[Sentence]) -> (r: Vec<
    Option<usize>,
>)
    requires
        numbers@.len() == rows@.len(),
        forall|k: int|
            0 <= k < rows@.len() ==> #[trigger] numbers@[k] == paragraph_of(lines::rows(rows@), k),
    ensures
        r@.len() == sentences@.len(),
        forall|k: int|
            0 <= k < r@.len() ==> owner(lines::rows(rows@), sentences@[k]@) == match #[trigger] r@[k] {
                Some(p) => Some(p as int),
                None => None,
            },
{
    let ghost all = lines::rows(rows@);
    let mut r: Vec<Option<usize>> = Vec::new();
    let mut k: usize = 0;
    while k < sentences.len()
        invariant
            all == lines::rows(rows@),
            numbers@.len() == rows@.len(),
            forall|k: int| 0 <= k < rows@.len() ==> #[trigger] numbers@[k] == paragraph_of(all, k),
            k <= sentences@.len(),
            r@.len() == k,
            forall|j: int|
                0 <= j < k ==> owner(all, sentences@[j]@) == match #[trigger] r@[j] {
                    Some(p) => Some(p as int),
                    None => None,
                },
        decreases sentences@.len() - k,
    {
        let line: usize = sentences[k].line;
        let i: usize = if line > 0 {
            line - 1
        } else {
            0
        };
        if i < rows.len() && !text::blank(&rows[i]) {
            r.push(Some(numbers[i]));
        } else {
            r.push(None);
        }
        assert(i < rows@.len() ==> all[i as int] == rows@[i as int]@);
        k += 1;
    }
    r
}

/// The sentences that paragraph `p` owns.
fn own_sentences(
    rows: &Vec<Vec<char>>,
    sentences: &[Sentence],
    owners: &Vec<Option<usize>>,
    p: usize,
) -> (r: Vec<Sentence>)
    requires
        owners@.len() == sentences@.len(),
        forall|k: int|
            0 <= k < owners@.len() ==> owner(lines::rows(rows@), sentences@[k]@)
                == match #[trigger] owners@[k] {
                Some(q) => Some(q as int),
                None => None,
            },
    ensures
        types::sentence_models(r@) == members(
            lines::rows(rows@),
            types::sentence_models(sentences@),
            p as int,
            sentences@.len() as int,
        ),
{
    let ghost all = lines::rows(rows@);
    let ghost given = types::sentence_models(sentences@);
    let mut r: Vec<Sentence> = Vec::new();
    assert(types::sentence_models(r@) =~= Seq::<SentenceModel>::empty());
    let mut k: usize = 0;
    while k < sentences.len()
        invariant
            all == lines::rows(rows@),
            given == types::sentence_models(sentences@),
            owners@.len() == sentences@.len(),
            forall|k: int|
                0 <= k < owners@.len() ==> owner(all, sentences@[k]@) == match #[trigger] owners@[k] {
                    Some(q) => Some(q as int),
                    None => None,
                },
            k <= sentences@.len(),
            types::sentence_models(r@) == members(all, given, p as int, k as int),
        decreases sentences@.len() - k,
    {
        let own = match owners[k] {
            Some(q) => q == p,
            None => false,
        };
        assert(given[k as int] == sentences@[k as int]@);
        if own {
            let s = sentences[k].clone();
            let ghost m = s@;
            let ghost before = types::sentence_models(r@);
            r.push(s);
            assert(types::sentence_models(r@) =~= before.push(m));
        }
        k += 1;
    }
    r
}

/// Group sentences into paragraphs.
///
/// A paragraph begins on the first line, after any blank line, or on a
/// line that starts a markdown block (a heading, a list item, or a
/// thematic break). Consecutive non-boundary lines inside one block
/// form a single paragraph, so a wrapped paragraph stays whole while a
/// bulleted or numbered list becomes one paragraph per item.
///
/// Each returned `Paragraph` carries the 1-based line number of its
/// first non-blank line and the subset of `sentences` that start on
/// lines belonging to that paragraph.
pub fn segment_paragraphs(text: &str, sentences: &[Sentence]) -> (r: Vec<Paragraph>)
    ensures
        types::paragraph_models(r@) == paragraphs(text@, types::sentence_models(sentences@)),
{
    let rows = lines::split_at_char(&text::chars_of(text), '\n');
    let ghost all = lines::split(text@, '\n');
    let ghost given = types::sentence_models(sentences@);
    let n = text::byte_length(text);
    proof {
        lines::lemma_piece_bytes(text@, '\n', 0, 0);
        assert forall|k: int| 0 <= k < rows@.len() implies text::byte_len(#[trigger] rows@[k]@)
            <= usize::MAX by {
            assert(all[k] == rows@[k]@);
        }
    }
    let numbers = paragraph_numbers(&rows);
    let owners = owners(&rows, &numbers, sentences);
    let last: usize = numbers[rows.len() - 1];
    let mut r: Vec<Paragraph> = Vec::new();
    assert(types::paragraph_models(r@) =~= Seq::<ParagraphModel>::empty());
    let mut p: usize = 0;
    while p <= last
        invariant
            all == lines::rows(rows@),
            given == types::sentence_models(sentences@),
            numbers@.len() == rows@.len(),
            last < rows.len(),
            last == paragraph_of(all, rows@.len() - 1),
            forall|k: int| 0 <= k < rows@.len() ==> #[trigger] numbers@[k] == paragraph_of(all, k),
            owners@.len() == sentences@.len(),
            forall|k: int|
                0 <= k < owners@.len() ==> owner(all, sentences@[k]@) == match #[trigger] owners@[k] {
                    Some(q) => Some(q as int),
                    None => None,
                },
            p <= last + 1,
            types::paragraph_models(r@) == paragraphs_to(all, given, p as int),
        decreases last + 1 - p,
    {
        let own = own_sentences(&rows, sentences, &owners, p);
        if own.len() > 0 {
            let line = find_first_line(&rows, &numbers, p);
            let paragraph = Paragraph { sentences: own, line, column: 1 };
            let ghost m = paragraph@;
            let ghost before = types::paragraph_models(r@);
            r.push(paragraph);
            assert(types::paragraph_models(r@) =~= before.push(m));
        }
        p += 1;
    }
    r
}

// ── Laws of sentences ──────────────────────────────────────────────────────

/// Line `line`, byte column `column` holds the character `c`, which is not
/// white.
pub open spec fn stands_at(rows: Seq<Seq<char>>, line: int, column: int, c: char) -> bool {
    &&& 1 <= line <= rows.len()
    &&& !text::is_white(c)
    &&& exists|i: int|
        #![trigger rows[line - 1][i]]
        0 <= i < rows[line - 1].len() && rows[line - 1][i] == c && column == text::byte_offset(
            rows[line - 1],
            i,
        ) + 1
}

/// A text that starts and ends with a character that is not white.
pub open spec fn is_trimmed(s: Seq<char>) -> bool {
    s.len() > 0 && !text::is_white(s[0]) && !text::is_white(s.last())
}

/// A sentence is a trimmed text, its place is that of its first character,
/// and its word count is that of its text.
pub open spec fn is_placed(rows: Seq<Seq<char>>, s: SentenceModel) -> bool {
    &&& is_trimmed(s.text)
    &&& stands_at(rows, s.line, s.column, s.text[0])
    &&& s.word_count == text::word_count(s.text)
}

/// A stretch of one line, without its outer white space.
pub open spec fn is_stretch(row: Seq<char>, s: Seq<char>) -> bool {
    exists|i: int, j: int|
        0 <= i <= j <= row.len() && s == text::trim(#[trigger] row.subrange(i, j))
}

/// What holds of a scan, up to the end of a line when `ended`.
spec fn scan_ok(rows: Seq<Seq<char>>, st: ScanModel, merge_lines: bool, ended: bool) -> bool {
    &&& forall|k: int|
        0 <= k < st.done.len() ==> {
            &&& is_placed(rows, #[trigger] st.done[k])
            &&& !merge_lines ==> is_stretch(rows[st.done[k].line - 1], st.done[k].text)
        }
    &&& forall|k: int| 0 <= k < st.parts.len() ==> is_trimmed(#[trigger] st.parts[k])
    &&& st.parts.len() > 0 ==> stands_at(rows, st.line, st.column, st.parts[0][0])
    &&& !merge_lines ==> {
        &&& st.parts.len() <= if ended {
            0int
        } else {
            1
        }
        &&& st.parts.len() > 0 ==> is_stretch(rows[st.line - 1], st.parts[0])
    }
}

proof fn lemma_join_ends(parts: Seq<Seq<char>>, sep: Seq<char>, n: int)
    requires
        0 < n <= parts.len(),
        forall|k: int| 0 <= k < n ==> is_trimmed(#[trigger] parts[k]),
    ensures
        is_trimmed(lines::join_to(parts, sep, n)),
        lines::join_to(parts, sep, n)[0] == parts[0][0],
    decreases n,
{
    assert(is_trimmed(parts[n - 1]));
    if n > 1 {
        lemma_join_ends(parts, sep, n - 1);
        let s = lines::join_to(parts, sep, n);
        assert(s.last() == parts[n - 1].last());
    }
}

proof fn lemma_closed_ok(rows: Seq<Seq<char>>, st: ScanModel, merge_lines: bool, ended: bool)
    requires
        scan_ok(rows, st, merge_lines, false),
    ensures
        scan_ok(rows, closed(st), merge_lines, ended),
        closed(st).parts.len() == 0,
{
    if st.parts.len() > 0 {
        lemma_join_ends(st.parts, " "@, st.parts.len() as int);
        let r = closed(st);
        assert forall|k: int| 0 <= k < r.done.len() implies {
            &&& is_placed(rows, #[trigger] r.done[k])
            &&& !merge_lines ==> is_stretch(rows[r.done[k].line - 1], r.done[k].text)
        } by {
            if k < st.done.len() {
                assert(r.done[k] == st.done[k]);
            }
        }
    }
}

proof fn lemma_added_ok(
    rows: Seq<Seq<char>>,
    st: ScanModel,
    from: int,
    to: int,
    line: int,
    merge_lines: bool,
)
    requires
        scan_ok(rows, st, merge_lines, false),
        1 <= line <= rows.len(),
        0 <= from <= to <= rows[line - 1].len(),
        !merge_lines ==> st.parts.len() == 0,
    ensures
        scan_ok(rows, added(st, rows[line - 1], from, to, line), merge_lines, false),
{
    let s = rows[line - 1];
    let piece = s.subrange(from, to);
    text::lemma_trim(piece);
    if !text::is_blank(piece) {
        text::lemma_white_end(piece, 0);
        let first = from + text::white_end(piece, 0);
        assert(text::trim(piece)[0] == s[first]);
        assert(rows[line - 1][first] == s[first]);
        let r = added(st, s, from, to, line);
        assert forall|k: int| 0 <= k < r.parts.len() implies is_trimmed(#[trigger] r.parts[k]) by {
            if k < st.parts.len() {
                assert(r.parts[k] == st.parts[k]);
            }
        }
        if st.parts.len() > 0 {
            assert(r.parts[0] == st.parts[0]);
        }
    }
}

proof fn lemma_scan_ends_ok(
    rows: Seq<Seq<char>>,
    st: ScanModel,
    start: int,
    ends: Seq<(int, int)>,
    line: int,
    k: int,
    merge_lines: bool,
)
    requires
        scan_ok(rows, st, merge_lines, false),
        1 <= line <= rows.len(),
        0 <= start <= rows[line - 1].len(),
        ends == ends_from(rows[line - 1].skip(start), 0),
        0 <= k <= ends.len(),
        !merge_lines ==> st.parts.len() == 0,
    ensures
        scan_ok(rows, scan_ends(st, rows[line - 1], start, ends, line, k), merge_lines, false),
        !merge_lines ==> scan_ends(st, rows[line - 1], start, ends, line, k).parts.len() == 0,
        start <= after_ends(ends, start, k) <= rows[line - 1].len(),
    decreases k,
{
    let content = rows[line - 1].skip(start);
    law_sentence_ends(content, 0);
    if k > 0 {
        lemma_scan_ends_ok(rows, st, start, ends, line, k - 1, merge_lines);
        assert(is_end(content, 0, ends[k - 1]));
        if k > 1 {
            assert(ends[k - 2].1 <= ends[k - 1].0);
        }
        let before = scan_ends(st, rows[line - 1], start, ends, line, k - 1);
        let from = after_ends(ends, start, k - 1);
        let to = after_ends(ends, start, k);
        lemma_added_ok(rows, before, from, to, line, merge_lines);
        lemma_closed_ok(rows, added(before, rows[line - 1], from, to, line), merge_lines, false);
    }
}

proof fn lemma_scan_line_ok(rows: Seq<Seq<char>>, st: ScanModel, line: int, merge_lines: bool)
    requires
        scan_ok(rows, st, merge_lines, true),
        1 <= line <= rows.len(),
    ensures
        scan_ok(rows, scan_line(st, rows[line - 1], line, merge_lines), merge_lines, true),
{
    let s = rows[line - 1];
    let (kind, start) = block(s);
    lemma_block(s);
    lemma_closed_ok(rows, st, merge_lines, true);
    if !text::is_blank(s) && kind != BlockKind::ThematicBreak {
        let ends = ends_from(s.skip(start), 0);
        let n = ends.len() as int;
        let opened = if kind == BlockKind::Plain {
            st
        } else {
            closed(st)
        };
        lemma_scan_ends_ok(rows, opened, start, ends, line, n, merge_lines);
        let read = scan_ends(opened, s, start, ends, line, n);
        let from = after_ends(ends, start, n);
        lemma_added_ok(rows, read, from, s.len() as int, line, merge_lines);
        lemma_closed_ok(rows, added(read, s, from, s.len() as int, line), merge_lines, true);
    }
}

proof fn lemma_scan_ok(rows: Seq<Seq<char>>, n: int, merge_lines: bool)
    requires
        0 <= n <= rows.len(),
    ensures
        scan_ok(rows, scan(rows, n, merge_lines), merge_lines, true),
    decreases n,
{
    if n > 0 {
        lemma_scan_ok(rows, n - 1, merge_lines);
        lemma_scan_line_ok(rows, scan(rows, n - 1, merge_lines), n, merge_lines);
    }
}

/// Every sentence is a trimmed text that is not empty, carries the place of
/// its first character, and counts its own words.
pub proof fn law_sentences_are_placed(text: Seq<char>, merge_lines: bool)
    ensures
        forall|k: int|
            0 <= k < sentences(text, merge_lines).len() ==> is_placed(
                lines::split(text, '\n'),
                #[trigger] sentences(text, merge_lines)[k],
            ),
{
    let rows = lines::split(text, '\n');
    let n = rows.len() as int;
    lemma_scan_ok(rows, n, merge_lines);
    lemma_closed_ok(rows, scan(rows, n, merge_lines), merge_lines, true);
}

/// When lines are not merged, every sentence is a stretch of one line.
pub proof fn law_unmerged_sentences_keep_to_one_line(text: Seq<char>)
    ensures
        forall|k: int|
            0 <= k < sentences(text, false).len() ==> {
                let s = #[trigger] sentences(text, false)[k];
                is_stretch(lines::split(text, '\n')[s.line - 1], s.text)
            },
{
    let rows = lines::split(text, '\n');
    let n = rows.len() as int;
    lemma_scan_ok(rows, n, false);
    lemma_closed_ok(rows, scan(rows, n, false), false, true);
}

/// A blank line, and a line that starts a markdown block, do not continue the
/// sentence before them: reading on is the same whether that sentence was
/// closed before or not.
pub proof fn law_blocks_start_afresh(st: ScanModel, s: Seq<char>, line: int, merge_lines: bool)
    requires
        text::is_blank(s) || block(s).0 != BlockKind::Plain,
    ensures
        scan_line(st, s, line, merge_lines) == scan_line(closed(st), s, line, merge_lines),
{
}

/// A heading does not continue onto the next line.
pub proof fn law_headings_end_with_their_line(
    st: ScanModel,
    s: Seq<char>,
    line: int,
    merge_lines: bool,
)
    requires
        block(s).0 == BlockKind::SingleLine,
    ensures
        scan_line(st, s, line, merge_lines).parts.len() == 0,
{
}

// ── Laws of paragraphs ─────────────────────────────────────────────────────

/// `m` is the paragraph of number `p`: it owns at least one sentence, and it
/// starts at the first of its lines that is not blank.
pub open spec fn is_paragraph(
    rows: Seq<Seq<char>>,
    sentences: Seq<SentenceModel>,
    p: int,
    m: ParagraphModel,
) -> bool {
    &&& m.sentences.len() > 0
    &&& m.sentences == members(rows, sentences, p, sentences.len() as int)
    &&& m.line == first_line(rows, p, 0)
    &&& m.column == 1
}

/// One of the paragraphs holds `s`.
pub open spec fn is_grouped(paragraphs: Seq<ParagraphModel>, s: SentenceModel) -> bool {
    exists|k: int| 0 <= k < paragraphs.len() && (#[trigger] paragraphs[k]).sentences.contains(s)
}

proof fn lemma_member(
    rows: Seq<Seq<char>>,
    sentences: Seq<SentenceModel>,
    p: int,
    n: int,
    j: int,
)
    requires
        0 <= j < n <= sentences.len(),
        owner(rows, sentences[j]) == Some(p),
    ensures
        members(rows, sentences, p, n).contains(sentences[j]),
    decreases n,
{
    let all = members(rows, sentences, p, n);
    let before = members(rows, sentences, p, n - 1);
    if j == n - 1 {
        assert(all[before.len() as int] == sentences[j]);
    } else {
        lemma_member(rows, sentences, p, n - 1, j);
        let i = choose|i: int| 0 <= i < before.len() && before[i] == sentences[j];
        assert(all[i] == sentences[j]);
    }
}

proof fn lemma_grouped(rows: Seq<Seq<char>>, sentences: Seq<SentenceModel>, p: int, q: int, j: int)
    requires
        0 <= q < p,
        0 <= j < sentences.len(),
        owner(rows, sentences[j]) == Some(q),
    ensures
        is_grouped(paragraphs_to(rows, sentences, p), sentences[j]),
    decreases p,
{
    let all = paragraphs_to(rows, sentences, p);
    let before = paragraphs_to(rows, sentences, p - 1);
    if q == p - 1 {
        let own = members(rows, sentences, q, sentences.len() as int);
        lemma_member(rows, sentences, q, sentences.len() as int, j);
        assert(own.contains(sentences[j]));
        assert(all[before.len() as int].sentences == own);
    } else {
        lemma_grouped(rows, sentences, p - 1, q, j);
        let k = choose|k: int|
            0 <= k < before.len() && (#[trigger] before[k]).sentences.contains(sentences[j]);
        assert(all[k] == before[k]);
    }
}

proof fn lemma_paragraph(rows: Seq<Seq<char>>, sentences: Seq<SentenceModel>, p: int, k: int) -> (q:
    int)
    requires
        0 <= k < paragraphs_to(rows, sentences, p).len(),
    ensures
        is_paragraph(rows, sentences, q, paragraphs_to(rows, sentences, p)[k]),
    decreases p,
{
    let all = paragraphs_to(rows, sentences, p);
    let before = paragraphs_to(rows, sentences, p - 1);
    if k < before.len() {
        assert(all[k] == before[k]);
        lemma_paragraph(rows, sentences, p - 1, k)
    } else {
        p - 1
    }
}

proof fn lemma_paragraph_of_grows(rows: Seq<Seq<char>>, i: int, j: int)
    requires
        i <= j,
    ensures
        paragraph_of(rows, i) <= paragraph_of(rows, j),
    decreases j - i,
{
    if i < j {
        lemma_paragraph_of_grows(rows, i, j - 1);
    }
}

/// Every paragraph owns at least one sentence, starts at the first of its
/// lines that is not blank, and holds exactly the sentences that start on
/// its lines.
pub proof fn law_paragraphs_hold_their_sentences(
    text: Seq<char>,
    sentences: Seq<SentenceModel>,
    k: int,
) -> (p: int)
    requires
        0 <= k < paragraphs(text, sentences).len(),
    ensures
        is_paragraph(lines::split(text, '\n'), sentences, p, paragraphs(text, sentences)[k]),
{
    let rows = lines::split(text, '\n');
    lemma_paragraph(rows, sentences, paragraph_of(rows, rows.len() - 1) as int + 1, k)
}

/// A sentence that starts on a line that is not blank belongs to a
/// paragraph.
pub proof fn law_owned_sentences_are_grouped(
    text: Seq<char>,
    sentences: Seq<SentenceModel>,
    j: int,
)
    requires
        0 <= j < sentences.len(),
        owner(lines::split(text, '\n'), sentences[j]) is Some,
    ensures
        is_grouped(paragraphs(text, sentences), sentences[j]),
{
    let rows = lines::split(text, '\n');
    let s = sentences[j];
    let i = if s.line > 0 {
        s.line - 1
    } else {
        0
    };
    lemma_paragraph_of_grows(rows, i, rows.len() - 1);
    lemma_grouped(
        rows,
        sentences,
        paragraph_of(rows, rows.len() - 1) as int + 1,
        owner(rows, s)->0,
        j,
    );
}

/// No sentence of a text is lost when its sentences are grouped.
pub proof fn law_every_sentence_is_grouped(text: Seq<char>, merge_lines: bool, j: int)
    requires
        0 <= j < sentences(text, merge_lines).len(),
    ensures
        is_grouped(
            paragraphs(text, sentences(text, merge_lines)),
            sentences(text, merge_lines)[j],
        ),
{
    let rows = lines::split(text, '\n');
    let all = sentences(text, merge_lines);
    law_sentences_are_placed(text, merge_lines);
    let s = all[j];
    assert(is_placed(rows, s));
    let row = rows[s.line - 1];
    let i = choose|i: int|
        #![trigger row[i]]
        0 <= i < row.len() && row[i] == s.text[0] && s.column == text::byte_offset(row, i) + 1;
    assert(!text::is_white(row[i]));
    law_owned_sentences_are_grouped(text, all, j);
}

} // verus!

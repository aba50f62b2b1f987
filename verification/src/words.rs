//! Laws of characters, words, numbers and lines.

use vstd::prelude::*;

use crate::foreign;
use crate::lines;
use crate::text;

verus! {

// ── Characters ─────────────────────────────────────────────────────────────

/// The code points with the Unicode `White_Space` property.
pub proof fn law_white_space(c: char)
    ensures
        text::is_white(c) <==> {
            let n = c as u32;
            ||| 0x9 <= n <= 0xd
            ||| n == 0x20
            ||| n == 0x85
            ||| n == 0xa0
            ||| n == 0x1680
            ||| 0x2000 <= n <= 0x200a
            ||| n == 0x2028
            ||| n == 0x2029
            ||| n == 0x202f
            ||| n == 0x205f
            ||| n == 0x3000
        },
{
}

/// The ASCII letters and digits, by code point.
pub proof fn law_ascii_letters_and_digits(c: char)
    ensures
        text::is_digit(c) <==> 0x30 <= c as u32 <= 0x39,
        text::is_ascii_alnum(c) <==> {
            let n = c as u32;
            0x30 <= n <= 0x39 || 0x41 <= n <= 0x5a || 0x61 <= n <= 0x7a
        },
        c as u32 <= 0x7f ==> text::is_alnum(c) == text::is_ascii_alnum(c),
{
}

// ── White space ────────────────────────────────────────────────────────────

/// Text that neither starts nor ends with white space.
pub open spec fn is_core(s: Seq<char>) -> bool {
    s.len() > 0 ==> !text::is_white(s[0]) && !text::is_white(s.last())
}

/// Text that does not start with white space.
pub open spec fn is_flush(s: Seq<char>) -> bool {
    s.len() > 0 ==> !text::is_white(s[0])
}

/// The white space before a text is its indent.
pub proof fn law_indent(pad: Seq<char>, rest: Seq<char>)
    requires
        text::is_blank(pad),
        is_flush(rest),
    ensures
        text::white_end(pad + rest, 0) == pad.len(),
        text::trim_start(pad + rest) == rest,
        text::indent(pad + rest) == text::byte_len(pad),
{
    let s = pad + rest;
    let w = text::white_end(s, 0);
    text::lemma_white_end(s, 0);
    if w < pad.len() {
        assert(s[w] == pad[w]);
    }
    if w > pad.len() {
        assert(s[pad.len() as int] == rest[0]);
        assert(text::is_white(s[pad.len() as int]));
    }
    assert(s.skip(w) =~= rest);
    text::lemma_offset_prefix(s, pad, w);
}

/// Trimming takes away the white space around a text and nothing else.
pub proof fn law_trim(pad: Seq<char>, core: Seq<char>, tail: Seq<char>)
    requires
        text::is_blank(pad),
        text::is_blank(tail),
        is_core(core),
    ensures
        text::trim(pad + core + tail) == core,
{
    let s = pad + core + tail;
    if core.len() == 0 {
        assert(text::is_blank(s)) by {
            assert forall|i: int| 0 <= i < s.len() implies text::is_white(#[trigger] s[i]) by {
                if i < pad.len() {
                    assert(s[i] == pad[i]);
                } else {
                    assert(s[i] == tail[i - pad.len()]);
                }
            }
        }
        text::lemma_trim(s);
        assert(text::trim(s) =~= core);
    } else {
        let rest = core + tail;
        assert(s =~= pad + rest);
        assert(rest[0] == core[0]);
        law_indent(pad, rest);
        let n = core.len() as int;
        let w = text::white_start(rest, rest.len() as int);
        text::lemma_white_start(rest, rest.len() as int);
        if w > n {
            assert(rest[w - 1] == tail[w - 1 - n]);
            assert(text::is_white(tail[w - 1 - n]));
        }
        if w < n {
            assert(rest[n - 1] == core.last());
            assert(text::is_white(rest[n - 1]));
        }
        assert(rest.take(w) =~= core);
    }
}

// ── Searching ──────────────────────────────────────────────────────────────

/// A text stands in another one exactly when it can be cut out of it.
pub proof fn law_contains(s: Seq<char>, p: Seq<char>)
    ensures
        text::contains(s, p) <==> exists|a: Seq<char>, b: Seq<char>| s == #[trigger] (a + p + b),
{
    if text::contains(s, p) {
        let i = choose|i: int| text::occurs_at(s, p, i);
        let a = s.take(i);
        let b = s.skip(i + p.len());
        let m = s.subrange(i, i + p.len());
        assert(s =~= a + p + b) by {
            let t = a + p + b;
            assert forall|k: int| 0 <= k < s.len() implies s[k] == t[k] by {
                if i <= k < i + p.len() {
                    assert(m[k - i] == p[k - i]);
                }
            }
        }
    }
    if exists|a: Seq<char>, b: Seq<char>| s == #[trigger] (a + p + b) {
        let (a, b) = choose|a: Seq<char>, b: Seq<char>| s == #[trigger] (a + p + b);
        let i = a.len() as int;
        assert(s.subrange(i, i + p.len()) =~= p);
        assert(text::occurs_at(s, p, i));
    }
}

/// A text starts with another one exactly when that one can be cut off.
pub proof fn law_starts_with(s: Seq<char>, p: Seq<char>)
    ensures
        text::starts_with(s, p) <==> exists|b: Seq<char>| s == #[trigger] (p + b),
{
    if text::starts_with(s, p) {
        let n = p.len() as int;
        assert(s.subrange(0, n) == p);
        assert(s =~= s.subrange(0, n) + s.skip(n));
        assert(s == p + s.skip(n));
    }
    if exists|b: Seq<char>| s == #[trigger] (p + b) {
        let b = choose|b: Seq<char>| s == #[trigger] (p + b);
        assert(s.subrange(0, p.len() as int) =~= p);
    }
}

/// A search finds the first place. What stands before it, and all of the
/// match but its last character, holds no match.
pub proof fn law_search_finds_the_first(s: Seq<char>, p: Seq<char>)
    requires
        p.len() > 0,
    ensures
        match text::find_from(s, p, 0) {
            Some(k) => {
                &&& 0 <= k <= s.len() - p.len()
                &&& s == s.take(k) + p + s.skip(k + p.len())
                &&& !text::contains(s.take(k + p.len() - 1), p)
            },
            None => !text::contains(s, p),
        },
{
    text::lemma_find_from(s, p, 0);
    if let Some(k) = text::find_from(s, p, 0) {
        let n = p.len() as int;
        let m = s.subrange(k, k + n);
        assert(s =~= s.take(k) + m + s.skip(k + n));
        let t = s.take(k + n - 1);
        if text::contains(t, p) {
            let i = choose|i: int| text::occurs_at(t, p, i);
            assert(s.subrange(i, i + n) =~= t.subrange(i, i + n));
            assert(text::occurs_at(s, p, i));
        }
    }
}

// ── Words ──────────────────────────────────────────────────────────────────

proof fn lemma_words_prefix(s: Seq<char>, t: Seq<char>, n: int)
    requires
        0 <= n <= s.len(),
        n <= t.len(),
        forall|i: int| 0 <= i < n ==> s[i] == t[i],
    ensures
        text::words_to(s, n) == text::words_to(t, n),
    decreases n,
{
    if n > 0 {
        lemma_words_prefix(s, t, n - 1);
    }
}

proof fn lemma_words_concat(a: Seq<char>, w: char, b: Seq<char>, n: int)
    requires
        text::is_white(w),
        0 <= n <= b.len(),
    ensures
        text::words_to(a + seq![w] + b, a.len() + 1 + n) == text::word_count(a) + text::words_to(b, n),
    decreases n,
{
    let s = a + seq![w] + b;
    let k = a.len() as int;
    assert(s[k] == w);
    if n > 0 {
        lemma_words_concat(a, w, b, n - 1);
        assert(s[k + n] == b[n - 1]);
        if n > 1 {
            assert(s[k + n - 1] == b[n - 2]);
        }
    } else {
        assert(forall|i: int| 0 <= i < k ==> s[i] == a[i]);
        lemma_words_prefix(s, a, k);
    }
}

/// White space parts words: the words of two texts with white space between
/// them are the words of the one and the words of the other.
pub proof fn law_words_are_parted_by_white_space(a: Seq<char>, w: char, b: Seq<char>)
    requires
        text::is_white(w),
    ensures
        text::word_count(a + seq![w] + b) == text::word_count(a) + text::word_count(b),
{
    lemma_words_concat(a, w, b, b.len() as int);
}

proof fn lemma_one_word(s: Seq<char>, n: int)
    requires
        0 < n <= s.len(),
        forall|i: int| 0 <= i < s.len() ==> !text::is_white(#[trigger] s[i]),
    ensures
        text::words_to(s, n) == 1,
    decreases n,
{
    assert(!text::is_white(s[n - 1]));
    if n > 1 {
        lemma_one_word(s, n - 1);
        assert(!text::is_white(s[n - 2]));
    } else {
        assert(text::words_to(s, 0) == 0);
    }
}

/// A stretch without white space is one word.
pub proof fn law_one_word(s: Seq<char>)
    requires
        s.len() > 0,
        forall|i: int| 0 <= i < s.len() ==> !text::is_white(#[trigger] s[i]),
    ensures
        text::word_count(s) == 1,
{
    lemma_one_word(s, s.len() as int);
}

/// An empty text has no words.
pub proof fn law_no_words()
    ensures
        text::word_count(Seq::empty()) == 0,
{
}

// ── Numbers ────────────────────────────────────────────────────────────────

/// The value of a digit.
pub open spec fn digit_value(c: char) -> int {
    if '0' <= c <= '9' {
        c as int - '0' as int
    } else {
        c as int - 'a' as int + 10
    }
}

/// The value of a row of decimal digits.
pub open spec fn decimal_value(s: Seq<char>) -> int
    decreases s.len(),
{
    if s.len() == 0 {
        0
    } else {
        10 * decimal_value(s.drop_last()) + digit_value(s.last())
    }
}

/// The value of a row of hexadecimal digits.
pub open spec fn hexadecimal_value(s: Seq<char>) -> int
    decreases s.len(),
{
    if s.len() == 0 {
        0
    } else {
        16 * hexadecimal_value(s.drop_last()) + digit_value(s.last())
    }
}

/// How many numbers have at most `k` hexadecimal digits.
pub open spec fn hexadecimal_range(k: nat) -> int
    decreases k,
{
    if k == 0 {
        1
    } else {
        16 * hexadecimal_range((k - 1) as nat)
    }
}

/// A number in decimal has the value of the number, and no leading zero.
pub proof fn law_decimal_is_the_number(n: nat)
    ensures
        decimal_value(text::decimal(n)) == n,
        text::decimal(n).len() > 0,
        n > 0 ==> text::decimal(n)[0] != '0',
        forall|i: int| 0 <= i < text::decimal(n).len() ==> '0' <= #[trigger] text::decimal(n)[i] <= '9',
    decreases n,
{
    let s = text::decimal(n);
    if n < 10 {
        assert(s.drop_last() =~= Seq::empty());
        assert(decimal_value(s.drop_last()) == 0);
        assert(s.last() == text::digit_of(n as int));
    } else {
        law_decimal_is_the_number(n / 10);
        assert(s.drop_last() =~= text::decimal(n / 10));
        assert(s.last() == text::digit_of((n % 10) as int));
        assert(s[0] == text::decimal(n / 10)[0]);
        assert forall|i: int| 0 <= i < s.len() implies '0' <= #[trigger] s[i] <= '9' by {
            if i < s.len() - 1 {
                assert(s[i] == text::decimal(n / 10)[i]);
            }
        }
    }
}

/// `k` hexadecimal digits of a number that needs no more have its value.
pub proof fn law_hexadecimal_is_the_number(n: nat, k: nat)
    requires
        n < hexadecimal_range(k),
    ensures
        text::hexadecimal(n, k).len() == k,
        hexadecimal_value(text::hexadecimal(n, k)) == n,
    decreases k,
{
    let s = text::hexadecimal(n, k);
    if k > 0 {
        law_hexadecimal_is_the_number(n / 16, (k - 1) as nat);
        assert(s.drop_last() =~= text::hexadecimal(n / 16, (k - 1) as nat));
        assert(s.last() == text::digit_of((n % 16) as int));
    }
}

// ── Lines ──────────────────────────────────────────────────────────────────

proof fn lemma_split_of_one(a: Seq<char>, c: char, i: int)
    requires
        0 <= i <= a.len(),
        !a.contains(c),
    ensures
        lines::pieces(a, c, 0, i) == seq![a],
    decreases a.len() - i,
{
    if i < a.len() {
        assert(a.contains(a[i]));
        lemma_split_of_one(a, c, i + 1);
    } else {
        assert(a.subrange(0, a.len() as int) =~= a);
    }
}

/// A text without the separator is one piece.
pub proof fn law_one_piece(a: Seq<char>, c: char)
    requires
        !a.contains(c),
    ensures
        lines::split(a, c) == seq![a],
{
    lemma_split_of_one(a, c, 0);
}

/// A line ends at the first line feed. The lines after it are those of the
/// rest. A carriage return right before the line feed belongs to the ending.
pub proof fn law_lines(a: Seq<char>, b: Seq<char>)
    requires
        !a.contains('\n'),
    ensures
        a.len() > 0 ==> lines::lines(a) == seq![a],
        a.len() == 0 ==> lines::lines(a).len() == 0,
        lines::lines(a + seq!['\r', '\n'] + b) == seq![a] + lines::lines(b),
        !(a.len() > 0 && a.last() == '\r') ==> lines::lines(a + seq!['\n'] + b) == seq![a]
            + lines::lines(b),
{
    lemma_split_of_one(a, '\n', 0);
    assert(lines::lines(a) =~= if a.len() > 0 {
        seq![a]
    } else {
        Seq::empty()
    });
    let r = a.push('\r');
    assert(!r.contains('\n'));
    assert(a + seq!['\r', '\n'] + b =~= r + seq!['\n'] + b);
    lemma_lines_of_two(r, b);
    assert(r.drop_last() =~= a);
    lemma_lines_of_two(a, b);
}

proof fn lemma_lines_of_two(a: Seq<char>, b: Seq<char>)
    requires
        !a.contains('\n'),
    ensures
        lines::lines(a + seq!['\n'] + b) == seq![lines::strip_cr(a)] + lines::lines(b),
{
    let s = a + seq!['\n'] + b;
    lines::law_split_of_two(a, b, '\n');
    lemma_split_of_one(a, '\n', 0);
    let all = lines::split(s, '\n');
    let more = lines::split(b, '\n');
    lines::lemma_pieces(b, '\n', 0, 0);
    assert(all =~= seq![a] + more);
    assert(all.last() == more.last());
    let x = lines::lines(s);
    let y = seq![lines::strip_cr(a)] + lines::lines(b);
    assert(x.len() == y.len());
    assert forall|k: int| 0 <= k < x.len() implies x[k] == y[k] by {
        if k > 0 {
            assert(all[k] == more[k - 1]);
            assert(y[k] == lines::lines(b)[k - 1]);
        }
    }
    assert(x =~= y);
}

/// Joining puts the separator between the parts.
pub proof fn law_join(parts: Seq<Seq<char>>, last: Seq<char>, sep: Seq<char>)
    ensures
        lines::join(Seq::empty(), sep).len() == 0,
        lines::join(seq![last], sep) == last,
        parts.len() > 0 ==> lines::join(parts.push(last), sep) == lines::join(parts, sep) + sep
            + last,
{
    let all = parts.push(last);
    lines::lemma_join_prefix(all, parts, sep, parts.len() as int);
}

// ── Lower case ─────────────────────────────────────────────────────────────

/// ASCII text is lowered letter by letter. Nothing but capital letters
/// changes.
pub proof fn law_lower_case(s: Seq<char>, i: int)
    requires
        forall|k: int| 0 <= k < s.len() ==> #[trigger] s[k] <= '\u{7f}',
        0 <= i < s.len(),
    ensures
        text::lowered(s).len() == s.len(),
        'A' <= s[i] <= 'Z' ==> text::lowered(s)[i] == (s[i] as u32 + ('a' as u32 - 'A' as u32)) as char,
        !('A' <= s[i] <= 'Z') ==> text::lowered(s)[i] == s[i],
{
    assert(foreign::is_ascii(s));
}

} // verus!

//! Text as a sequence of characters.
//!
//! The rules see text as `Seq<char>`. Columns and widths count UTF-8
//! bytes, so this module also relates characters to byte offsets.

use vstd::prelude::*;
use vstd::string::StringExecFns;

use crate::foreign;

verus! {

// ── Characters ─────────────────────────────────────────────────────────────

/// The Unicode `White_Space` property.
pub open spec fn is_white(c: char) -> bool {
    ||| '\u{9}' <= c <= '\u{d}'
    ||| c == ' '
    ||| c == '\u{85}'
    ||| c == '\u{a0}'
    ||| c == '\u{1680}'
    ||| '\u{2000}' <= c <= '\u{200a}'
    ||| c == '\u{2028}'
    ||| c == '\u{2029}'
    ||| c == '\u{202f}'
    ||| c == '\u{205f}'
    ||| c == '\u{3000}'
}

/// True when `c` has the Unicode `White_Space` property.
pub fn white(c: char) -> (r: bool)
    ensures
        r == is_white(c),
{
    ('\u{9}' <= c && c <= '\u{d}') || c == ' ' || c == '\u{85}' || c == '\u{a0}' || c
        == '\u{1680}' || ('\u{2000}' <= c && c <= '\u{200a}') || c == '\u{2028}' || c
        == '\u{2029}' || c == '\u{202f}' || c == '\u{205f}' || c == '\u{3000}'
}

/// An ASCII decimal digit.
pub open spec fn is_digit(c: char) -> bool {
    '0' <= c <= '9'
}

/// True when `c` is an ASCII decimal digit.
pub fn digit(c: char) -> (r: bool)
    ensures
        r == is_digit(c),
{
    '0' <= c && c <= '9'
}

/// An ASCII letter or digit.
pub open spec fn is_ascii_alnum(c: char) -> bool {
    is_digit(c) || 'a' <= c <= 'z' || 'A' <= c <= 'Z'
}

/// True when `c` is an ASCII letter or digit.
pub fn ascii_alnum(c: char) -> (r: bool)
    ensures
        r == is_ascii_alnum(c),
{
    digit(c) || ('a' <= c && c <= 'z') || ('A' <= c && c <= 'Z')
}

/// A letter or a digit of any script.
pub open spec fn is_alnum(c: char) -> bool {
    if c <= '\u{7f}' {
        is_ascii_alnum(c)
    } else {
        foreign::is_alphanumeric(c)
    }
}

/// True when `c` is a letter or a digit of any script.
pub fn alnum(c: char) -> (r: bool)
    ensures
        r == is_alnum(c),
{
    foreign::alphanumeric(c)
}

/// A text in lower case. ASCII text is lowered letter by letter.
pub open spec fn lowered(s: Seq<char>) -> Seq<char> {
    if foreign::is_ascii(s) {
        Seq::new(s.len(), |i: int| foreign::ascii_lower(s[i]))
    } else {
        foreign::lowercase_of(s)
    }
}

/// A text in lower case.
pub fn lower(s: &str) -> (r: String)
    ensures
        r@ == lowered(s@),
{
    foreign::lowercase(s)
}

/// The number of bytes of `c` in UTF-8.
pub open spec fn width(c: char) -> nat {
    if c <= '\u{7f}' {
        1
    } else if c <= '\u{7ff}' {
        2
    } else if c <= '\u{ffff}' {
        3
    } else {
        4
    }
}

/// The number of bytes of `c` in UTF-8.
pub fn char_width(c: char) -> (r: usize)
    ensures
        r == width(c),
{
    if c <= '\u{7f}' {
        1
    } else if c <= '\u{7ff}' {
        2
    } else if c <= '\u{ffff}' {
        3
    } else {
        4
    }
}

// ── Byte offsets ───────────────────────────────────────────────────────────

/// The byte offset of character `n` of `s`: the bytes that the first `n`
/// characters take.
pub open spec fn byte_offset(s: Seq<char>, n: int) -> nat
    decreases n,
{
    if n <= 0 {
        0
    } else {
        byte_offset(s, n - 1) + width(s[n - 1])
    }
}

/// The length of `s` in UTF-8 bytes.
pub open spec fn byte_len(s: Seq<char>) -> nat {
    byte_offset(s, s.len() as int)
}

/// `n` spaces.
pub open spec fn spaces(n: nat) -> Seq<char> {
    Seq::new(n, |i: int| ' ')
}

/// Byte offsets grow with the character index, by at least one byte per
/// character.
pub proof fn lemma_offset_grows(s: Seq<char>, i: int, j: int)
    requires
        0 <= i <= j,
    ensures
        byte_offset(s, i) + (j - i) <= byte_offset(s, j),
    decreases j - i,
{
    if i < j {
        lemma_offset_grows(s, i, j - 1);
    }
}

/// Byte offsets depend on the characters before them only.
pub proof fn lemma_offset_prefix(s: Seq<char>, t: Seq<char>, n: int)
    requires
        n <= s.len(),
        n <= t.len(),
        forall|i: int| 0 <= i < n ==> s[i] == t[i],
    ensures
        byte_offset(s, n) == byte_offset(t, n),
    decreases n,
{
    if n > 0 {
        lemma_offset_prefix(s, t, n - 1);
    }
}

/// The byte length of a stretch of `s` is the distance of its offsets.
pub proof fn lemma_offset_subrange(s: Seq<char>, i: int, j: int, n: int)
    requires
        0 <= i <= j <= s.len(),
        0 <= n <= j - i,
    ensures
        byte_offset(s.subrange(i, j), n) == byte_offset(s, i + n) - byte_offset(s, i),
    decreases n,
{
    if n > 0 {
        lemma_offset_subrange(s, i, j, n - 1);
    }
}

/// The byte length of a concatenation.
pub proof fn lemma_byte_len_concat(a: Seq<char>, b: Seq<char>)
    ensures
        byte_len(a + b) == byte_len(a) + byte_len(b),
{
    let s = a + b;
    lemma_offset_prefix(s, a, a.len() as int);
    lemma_offset_subrange(s, a.len() as int, s.len() as int, b.len() as int);
    assert(s.subrange(a.len() as int, s.len() as int) =~= b);
}

/// Spaces take one byte each.
pub proof fn lemma_byte_len_spaces(n: nat)
    ensures
        byte_len(spaces(n)) == n,
    decreases n,
{
    lemma_offset_spaces(n, n as int);
}

proof fn lemma_offset_spaces(n: nat, k: int)
    requires
        0 <= k <= n,
    ensures
        byte_offset(spaces(n), k) == k,
    decreases k,
{
    if k > 0 {
        lemma_offset_spaces(n, k - 1);
    }
}

proof fn lemma_width_is_utf8(c: char)
    ensures
        vstd::utf8::encode_scalar(c as u32).len() == width(c),
{
}

/// `byte_len` is the length of the UTF-8 encoding.
pub proof fn lemma_byte_len_is_utf8(s: Seq<char>)
    ensures
        byte_len(s) == vstd::utf8::encode_utf8(s).len(),
    decreases s.len(),
{
    if s.len() > 0 {
        let rest = s.drop_first();
        lemma_byte_len_is_utf8(rest);
        assert(rest =~= s.subrange(1, s.len() as int));
        lemma_offset_subrange(s, 1, s.len() as int, rest.len() as int);
        assert(byte_offset(s, 1) == byte_offset(s, 0) + width(s[0]));
        let c = s[0];
        lemma_width_is_utf8(c);
        assert(byte_offset(s, s.len() as int) == byte_offset(s, 1) + byte_len(rest));
    }
}

// ── Conversions ────────────────────────────────────────────────────────────

/// `String::push` appends one character.
pub assume_specification[ String::push ](s: &mut String, c: char)
    ensures
        final(s)@ == old(s)@.push(c),
;

/// The characters of a string.
pub fn chars_of(s: &str) -> (r: Vec<char>)
    ensures
        r@ == s@,
{
    let mut r: Vec<char> = Vec::new();
    for c in it: s.chars()
        invariant
            r@ == it.seq().take(it.index() as int),
            it.seq() == s@,
    {
        r.push(c);
    }
    r
}

/// A stretch of characters.
pub fn part_of(cs: &Vec<char>, from: usize, to: usize) -> (r: Vec<char>)
    requires
        from <= to <= cs@.len(),
    ensures
        r@ == cs@.subrange(from as int, to as int),
{
    let mut r: Vec<char> = Vec::new();
    let mut i: usize = from;
    while i < to
        invariant
            from <= i <= to <= cs@.len(),
            r@ == cs@.subrange(from as int, i as int),
        decreases to - i,
    {
        r.push(cs[i]);
        i += 1;
        assert(r@ =~= cs@.subrange(from as int, i as int));
    }
    r
}

/// The string of a stretch of characters.
pub fn string_of(cs: &Vec<char>, from: usize, to: usize) -> (r: String)
    requires
        from <= to <= cs@.len(),
    ensures
        r@ == cs@.subrange(from as int, to as int),
{
    let mut r = String::new();
    let mut i: usize = from;
    while i < to
        invariant
            from <= i <= to <= cs@.len(),
            r@ == cs@.subrange(from as int, i as int),
        decreases to - i,
    {
        r.push(cs[i]);
        i += 1;
        assert(cs@.subrange(from as int, i as int) =~= cs@.subrange(from as int, i - 1).push(
            cs@[i - 1],
        ));
    }
    r
}

/// True when two strings hold the same characters.
pub fn same(a: &str, b: &str) -> (r: bool)
    ensures
        r == (a@ == b@),
{
    let mut x = a.chars();
    let mut y = b.chars();
    let ghost mut n: nat = 0;
    loop
        invariant
            n <= a@.len(),
            n <= b@.len(),
            vstd::std_specs::iter::IteratorSpec::remaining(&x) == a@.skip(n as int),
            vstd::std_specs::iter::IteratorSpec::remaining(&y) == b@.skip(n as int),
            forall|i: int| 0 <= i < n ==> a@[i] == b@[i],
        decreases a@.len() - n,
    {
        match (x.next(), y.next()) {
            (Some(c), Some(d)) => {
                if c != d {
                    assert(a@[n as int] != b@[n as int]);
                    return false;
                }
                proof {
                    n = n + 1;
                }
            },
            (None, None) => {
                assert(a@ =~= b@);
                return true;
            },
            _ => {
                return false;
            },
        }
    }
}

/// The length of a string in bytes.
pub fn byte_length(s: &str) -> (r: usize)
    ensures
        r == byte_len(s@),
{
    proof {
        lemma_byte_len_is_utf8(s@);
    }
    s.as_bytes().len()
}

// ── Trimming ───────────────────────────────────────────────────────────────

/// The end of the white run that starts at `i`.
pub open spec fn white_end(s: Seq<char>, i: int) -> int
    decreases s.len() - i,
{
    if 0 <= i < s.len() && is_white(s[i]) {
        white_end(s, i + 1)
    } else {
        i
    }
}

/// The start of the white run that ends at `j`.
pub open spec fn white_start(s: Seq<char>, j: int) -> int
    decreases j,
{
    if 0 < j <= s.len() && is_white(s[j - 1]) {
        white_start(s, j - 1)
    } else {
        j
    }
}

/// `s` without leading white space.
pub open spec fn trim_start(s: Seq<char>) -> Seq<char> {
    s.skip(white_end(s, 0))
}

/// `s` without trailing white space.
pub open spec fn trim_end(s: Seq<char>) -> Seq<char> {
    s.take(white_start(s, s.len() as int))
}

/// `s` without leading and trailing white space.
pub open spec fn trim(s: Seq<char>) -> Seq<char> {
    trim_end(trim_start(s))
}

/// True when `s` holds white space only.
pub open spec fn is_blank(s: Seq<char>) -> bool {
    forall|i: int| 0 <= i < s.len() ==> is_white(#[trigger] s[i])
}

/// The bytes of leading white space.
pub open spec fn indent(s: Seq<char>) -> nat {
    byte_offset(s, white_end(s, 0))
}

/// A white run stays within the text, holds white space only and stops at
/// a character that is not white.
pub proof fn lemma_white_end(s: Seq<char>, i: int)
    requires
        0 <= i <= s.len(),
    ensures
        i <= white_end(s, i) <= s.len(),
        forall|k: int| i <= k < white_end(s, i) ==> is_white(#[trigger] s[k]),
        white_end(s, i) < s.len() ==> !is_white(s[white_end(s, i)]),
    decreases s.len() - i,
{
    if i < s.len() && is_white(s[i]) {
        lemma_white_end(s, i + 1);
    }
}

/// The mirror image of `lemma_white_end`.
pub proof fn lemma_white_start(s: Seq<char>, j: int)
    requires
        0 <= j <= s.len(),
    ensures
        0 <= white_start(s, j) <= j,
        forall|k: int| white_start(s, j) <= k < j ==> is_white(#[trigger] s[k]),
        white_start(s, j) > 0 ==> !is_white(s[white_start(s, j) - 1]),
    decreases j,
{
    if j > 0 && is_white(s[j - 1]) {
        lemma_white_start(s, j - 1);
    }
}

/// A blank text is one that trims to nothing. Otherwise the trimmed text
/// starts and ends with a character that is not white.
pub proof fn lemma_trim(s: Seq<char>)
    ensures
        is_blank(s) <==> trim(s).len() == 0,
        is_blank(s) <==> white_end(s, 0) == s.len(),
        trim(s).len() > 0 ==> !is_white(trim(s)[0]) && !is_white(trim(s).last()),
        trim(s).len() > 0 ==> trim(s)[0] == s[white_end(s, 0)],
        0 <= white_end(s, 0) <= s.len(),
        trim_start(s).len() == s.len() - white_end(s, 0),
{
    lemma_white_end(s, 0);
    let t = trim_start(s);
    lemma_white_start(t, t.len() as int);
    if is_blank(s) {
        if white_end(s, 0) < s.len() {
            assert(is_white(s[white_end(s, 0)]));
        }
        assert(t.len() == 0);
    } else {
        if trim(s).len() == 0 {
            assert forall|i: int| 0 <= i < s.len() implies is_white(#[trigger] s[i]) by {
                if i >= white_end(s, 0) {
                    assert(is_white(t[i - white_end(s, 0)]));
                }
            }
        }
        if t.len() > 0 && white_start(t, t.len() as int) == 0 {
            assert(is_white(t[0]));
        }
    }
}

/// The end of the white run that starts at `i`.
pub fn skip_white(s: &Vec<char>, i: usize) -> (r: usize)
    requires
        i <= s@.len(),
    ensures
        r == white_end(s@, i as int),
        i <= r <= s@.len(),
{
    let mut j: usize = i;
    while j < s.len() && white(s[j])
        invariant
            i <= j <= s@.len(),
            white_end(s@, i as int) == white_end(s@, j as int),
        decreases s@.len() - j,
    {
        j += 1;
    }
    j
}

/// The bounds of `s[from..to]` without leading and trailing white space.
pub fn trim_bounds(s: &Vec<char>, from: usize, to: usize) -> (r: (usize, usize))
    requires
        from <= to <= s@.len(),
    ensures
        from <= r.0 <= r.1 <= to,
        s@.subrange(r.0 as int, r.1 as int) == trim(s@.subrange(from as int, to as int)),
        r.0 == from + white_end(s@.subrange(from as int, to as int), 0),
        r.0 == r.1 <==> is_blank(s@.subrange(from as int, to as int)),
{
    let ghost t = s@.subrange(from as int, to as int);
    let mut i: usize = from;
    while i < to && white(s[i])
        invariant
            from <= i <= to <= s@.len(),
            t == s@.subrange(from as int, to as int),
            white_end(t, 0) == white_end(t, i - from),
        decreases to - i,
    {
        i += 1;
    }
    let ghost u = trim_start(t);
    let mut j: usize = to;
    assert(u =~= s@.subrange(i as int, to as int));
    while j > i && white(s[j - 1])
        invariant
            from <= i <= j <= to <= s@.len(),
            u == s@.subrange(i as int, to as int),
            white_start(u, u.len() as int) == white_start(u, j - i),
        decreases j,
    {
        j -= 1;
    }
    proof {
        lemma_trim(t);
        assert(s@.subrange(i as int, j as int) =~= u.take(j - i));
    }
    (i, j)
}

/// True when `s` holds white space only.
pub fn blank(s: &Vec<char>) -> (r: bool)
    ensures
        r == is_blank(s@),
{
    proof {
        lemma_trim(s@);
    }
    skip_white(s, 0) == s.len()
}

// ── Searching ──────────────────────────────────────────────────────────────

/// True when `p` stands in `s` at `i`.
pub open spec fn occurs_at(s: Seq<char>, p: Seq<char>, i: int) -> bool {
    0 <= i && i + p.len() <= s.len() && s.subrange(i, i + p.len()) == p
}

/// True when `p` stands somewhere in `s`.
pub open spec fn contains(s: Seq<char>, p: Seq<char>) -> bool {
    exists|i: int| occurs_at(s, p, i)
}

/// True when `s` starts with `p`.
pub open spec fn starts_with(s: Seq<char>, p: Seq<char>) -> bool {
    occurs_at(s, p, 0)
}

/// The first place at or after `i` where `p` stands in `s`.
pub open spec fn find_from(s: Seq<char>, p: Seq<char>, i: int) -> Option<int>
    decreases s.len() - i + 1,
{
    if i < 0 || i + p.len() > s.len() {
        None
    } else if occurs_at(s, p, i) {
        Some(i)
    } else {
        find_from(s, p, i + 1)
    }
}

/// `find_from` finds the least place, when there is one.
pub proof fn lemma_find_from(s: Seq<char>, p: Seq<char>, i: int)
    requires
        0 <= i,
    ensures
        match find_from(s, p, i) {
            Some(j) => i <= j && occurs_at(s, p, j) && forall|k: int|
                i <= k < j ==> !occurs_at(s, p, k),
            None => forall|k: int| i <= k ==> !occurs_at(s, p, k),
        },
        i == 0 ==> (find_from(s, p, i) is Some <==> contains(s, p)),
    decreases s.len() - i + 1,
{
    if i + p.len() <= s.len() && !occurs_at(s, p, i) {
        lemma_find_from(s, p, i + 1);
    }
}

/// True when `p` stands in `s` at `i`.
pub fn at(s: &Vec<char>, p: &Vec<char>, i: usize) -> (r: bool)
    ensures
        r == occurs_at(s@, p@, i as int),
{
    if p.len() > s.len() || i > s.len() - p.len() {
        return false;
    }
    let n: usize = s.len();
    let mut k: usize = 0;
    while k < p.len()
        invariant
            i + p@.len() <= s@.len() == n,
            k <= p@.len(),
            forall|j: int| 0 <= j < k ==> s@[i + j] == p@[j],
        decreases p@.len() - k,
    {
        if s[i + k] != p[k] {
            assert(s@.subrange(i as int, i + p@.len())[k as int] != p@[k as int]);
            return false;
        }
        k += 1;
    }
    assert(s@.subrange(i as int, i + p@.len()) =~= p@);
    true
}

/// The first place at or after `i` where `p` stands in `s`.
pub fn find(s: &Vec<char>, p: &Vec<char>, i: usize) -> (r: Option<usize>)
    ensures
        match r {
            Some(j) => find_from(s@, p@, i as int) == Some(j as int) && i <= j && j + p@.len()
                <= s@.len(),
            None => find_from(s@, p@, i as int) is None,
        },
{
    let mut j: usize = i;
    while p.len() <= s.len() && j <= s.len() - p.len()
        invariant
            i <= j,
            find_from(s@, p@, i as int) == find_from(s@, p@, j as int),
        decreases s@.len() - j,
    {
        if at(s, p, j) {
            return Some(j);
        }
        if j == s.len() {
            assert(s@.subrange(j as int, j as int) =~= p@);
            return None;
        }
        j += 1;
    }
    None
}

/// True when `p` stands somewhere in `s`.
pub fn holds(s: &Vec<char>, p: &str) -> (r: bool)
    ensures
        r == contains(s@, p@),
{
    proof {
        lemma_find_from(s@, p@, 0);
    }
    find(s, &chars_of(p), 0).is_some()
}

/// True when `p` stands in `s` at `i`.
pub fn at_str(s: &Vec<char>, p: &str, i: usize) -> (r: bool)
    ensures
        r == occurs_at(s@, p@, i as int),
{
    at(s, &chars_of(p), i)
}

/// True when `c` is one of the characters of `s[from..]`.
pub fn has_char(s: &Vec<char>, c: char, from: usize) -> (r: bool)
    requires
        from <= s@.len(),
    ensures
        r == s@.skip(from as int).contains(c),
{
    let mut i: usize = from;
    while i < s.len()
        invariant
            from <= i <= s@.len(),
            forall|k: int| from <= k < i ==> s@[k] != c,
        decreases s@.len() - i,
    {
        if s[i] == c {
            assert(s@.skip(from as int)[i - from] == c);
            return true;
        }
        i += 1;
    }
    false
}

/// The end of the run of `c` that starts at `i`.
pub open spec fn run_end(s: Seq<char>, c: char, i: int) -> int
    decreases s.len() - i,
{
    if 0 <= i < s.len() && s[i] == c {
        run_end(s, c, i + 1)
    } else {
        i
    }
}

/// A run stays within the text, holds `c` only and stops at another
/// character.
pub proof fn lemma_run_end(s: Seq<char>, c: char, i: int)
    requires
        0 <= i <= s.len(),
    ensures
        i <= run_end(s, c, i) <= s.len(),
        forall|k: int| i <= k < run_end(s, c, i) ==> s[k] == c,
        run_end(s, c, i) < s.len() ==> s[run_end(s, c, i)] != c,
        i < s.len() && s[i] == c ==> i < run_end(s, c, i),
    decreases s.len() - i,
{
    if i < s.len() && s[i] == c {
        lemma_run_end(s, c, i + 1);
    }
}

/// The end of the run of `c` that starts at `i`.
pub fn skip_run(s: &Vec<char>, c: char, i: usize) -> (r: usize)
    requires
        i <= s@.len(),
    ensures
        r == run_end(s@, c, i as int),
        i <= r <= s@.len(),
        i < s@.len() && s@[i as int] == c ==> i < r,
{
    let mut j: usize = i;
    while j < s.len() && s[j] == c
        invariant
            i <= j <= s@.len(),
            run_end(s@, c, i as int) == run_end(s@, c, j as int),
            i < s@.len() && s@[i as int] == c && i == j ==> j < s@.len(),
        decreases s@.len() - j,
    {
        j += 1;
    }
    j
}

// ── Measuring ──────────────────────────────────────────────────────────────

/// The byte offset of character `i`.
pub fn offset_at(s: &Vec<char>, i: usize) -> (r: usize)
    requires
        i <= s@.len(),
        byte_len(s@) <= usize::MAX,
    ensures
        r == byte_offset(s@, i as int),
        r <= byte_len(s@),
{
    let mut n: usize = 0;
    let mut r: usize = 0;
    proof {
        lemma_offset_grows(s@, i as int, s@.len() as int);
    }
    while n < i
        invariant
            n <= i <= s@.len(),
            byte_len(s@) <= usize::MAX,
            r == byte_offset(s@, n as int),
        decreases i - n,
    {
        proof {
            lemma_offset_grows(s@, n + 1, s@.len() as int);
        }
        r += char_width(s[n]);
        n += 1;
    }
    r
}

/// `n` spaces.
pub fn spaces_of(n: usize) -> (r: String)
    ensures
        r@ == spaces(n as nat),
{
    let mut r = String::new();
    let mut i: usize = 0;
    while i < n
        invariant
            i <= n,
            r@ == spaces(i as nat),
        decreases n - i,
    {
        r.push(' ');
        i += 1;
        assert(r@ =~= spaces(i as nat));
    }
    r
}

/// The number of words that start within the first `n` characters. A word
/// is a longest stretch without white space.
pub open spec fn words_to(s: Seq<char>, n: int) -> nat
    decreases n,
{
    if n <= 0 {
        0
    } else if !is_white(s[n - 1]) && (n == 1 || is_white(s[n - 2])) {
        words_to(s, n - 1) + 1
    } else {
        words_to(s, n - 1)
    }
}

/// The number of words of `s`.
pub open spec fn word_count(s: Seq<char>) -> nat {
    words_to(s, s.len() as int)
}

/// The number of words of `s`.
pub fn count_words(s: &Vec<char>) -> (r: usize)
    ensures
        r == word_count(s@),
{
    let mut n: usize = 0;
    let mut r: usize = 0;
    while n < s.len()
        invariant
            n <= s@.len(),
            r == words_to(s@, n as int),
            r <= n,
        decreases s@.len() - n,
    {
        if !white(s[n]) && (n == 0 || white(s[n - 1])) {
            r += 1;
        }
        n += 1;
    }
    r
}

// ── Numbers as text ────────────────────────────────────────────────────────

/// The digit with value `d`.
pub open spec fn digit_of(d: int) -> char {
    seq!['0', '1', '2', '3', '4', '5', '6', '7', '8', '9', 'a', 'b', 'c', 'd', 'e', 'f'][d]
}

/// `n` in decimal.
pub open spec fn decimal(n: nat) -> Seq<char>
    decreases n,
{
    if n < 10 {
        seq![digit_of(n as int)]
    } else {
        decimal(n / 10).push(digit_of((n % 10) as int))
    }
}

/// The last `k` hexadecimal digits of `n`.
pub open spec fn hexadecimal(n: nat, k: nat) -> Seq<char>
    decreases k,
{
    if k == 0 {
        Seq::empty()
    } else {
        hexadecimal(n / 16, (k - 1) as nat).push(digit_of((n % 16) as int))
    }
}

/// The digit with value `d`.
fn digit_char(d: u8) -> (r: char)
    requires
        d < 16,
    ensures
        r == digit_of(d as int),
{
    match d {
        0 => '0',
        1 => '1',
        2 => '2',
        3 => '3',
        4 => '4',
        5 => '5',
        6 => '6',
        7 => '7',
        8 => '8',
        9 => '9',
        10 => 'a',
        11 => 'b',
        12 => 'c',
        13 => 'd',
        14 => 'e',
        _ => 'f',
    }
}

/// `n` in decimal.
pub fn decimal_of(n: usize) -> (r: String)
    ensures
        r@ == decimal(n as nat),
    decreases n,
{
    if n < 10 {
        let mut r = String::new();
        r.push(digit_char(n as u8));
        assert(r@ =~= seq![digit_of(n as int)]);
        r
    } else {
        let mut r = decimal_of(n / 10);
        r.push(digit_char((n % 10) as u8));
        r
    }
}

/// The last `k` hexadecimal digits of `n`.
pub fn hexadecimal_of(n: u64, k: usize) -> (r: String)
    ensures
        r@ == hexadecimal(n as nat, k as nat),
    decreases k,
{
    if k == 0 {
        String::new()
    } else {
        let mut r = hexadecimal_of(n / 16, k - 1);
        r.push(digit_char((n % 16) as u8));
        r
    }
}

/// `hexadecimal` gives as many digits as it is asked for.
pub proof fn lemma_hexadecimal_len(n: nat, k: nat)
    ensures
        hexadecimal(n, k).len() == k,
    decreases k,
{
    if k > 0 {
        lemma_hexadecimal_len(n / 16, (k - 1) as nat);
    }
}

} // verus!

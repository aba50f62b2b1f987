//! Splitting text into lines and joining it again.

use vstd::prelude::*;
use vstd::string::StringExecFns;

use crate::text;

verus! {

// ── Views of nested text ───────────────────────────────────────────────────

/// The texts of a sequence of strings.
pub open spec fn texts(v: Seq<String>) -> Seq<Seq<char>> {
    Seq::new(v.len(), |i: int| v[i]@)
}

/// The texts of a sequence of character vectors.
pub open spec fn rows(v: Seq<Vec<char>>) -> Seq<Seq<char>> {
    Seq::new(v.len(), |i: int| v[i]@)
}

// ── Splitting ──────────────────────────────────────────────────────────────

/// The pieces of `s[start..]` between the separators `c` at or after `i`.
pub open spec fn pieces(s: Seq<char>, c: char, start: int, i: int) -> Seq<Seq<char>>
    decreases s.len() - i,
{
    if i < 0 || i >= s.len() {
        seq![s.subrange(start, s.len() as int)]
    } else if s[i] == c {
        seq![s.subrange(start, i)] + pieces(s, c, i + 1, i + 1)
    } else {
        pieces(s, c, start, i + 1)
    }
}

/// The pieces of `s` between the separators `c`. There is one more piece
/// than there are separators.
pub open spec fn split(s: Seq<char>, c: char) -> Seq<Seq<char>> {
    pieces(s, c, 0, 0)
}

/// `s` without one trailing carriage return.
pub open spec fn strip_cr(s: Seq<char>) -> Seq<char> {
    if s.len() > 0 && s.last() == '\r' {
        s.drop_last()
    } else {
        s
    }
}

/// The lines of `s`. A line ends at a line feed, with or without a carriage
/// return before it. The last line needs no line feed.
pub open spec fn lines(s: Seq<char>) -> Seq<Seq<char>> {
    let all = split(s, '\n');
    let last = all.len() - 1;
    let ended = Seq::new(last as nat, |i: int| strip_cr(all[i]));
    if all[last].len() == 0 {
        ended
    } else {
        ended.push(all[last])
    }
}

/// Splitting gives at least one piece, and no piece holds the separator.
pub proof fn lemma_pieces(s: Seq<char>, c: char, start: int, i: int)
    requires
        0 <= start <= i <= s.len(),
        forall|k: int| start <= k < i ==> s[k] != c,
    ensures
        pieces(s, c, start, i).len() > 0,
        forall|n: int|
            0 <= n < pieces(s, c, start, i).len() ==> !(#[trigger] pieces(
                s,
                c,
                start,
                i,
            )[n]).contains(c),
    decreases s.len() - i,
{
    if i < s.len() {
        if s[i] == c {
            lemma_pieces(s, c, i + 1, i + 1);
            assert(!s.subrange(start, i).contains(c));
        } else {
            lemma_pieces(s, c, start, i + 1);
        }
    } else {
        assert(!s.subrange(start, s.len() as int).contains(c));
    }
}

/// No piece takes more bytes than the text it is cut from.
pub proof fn lemma_piece_bytes(s: Seq<char>, c: char, start: int, i: int)
    requires
        0 <= start <= i <= s.len(),
    ensures
        forall|n: int|
            0 <= n < pieces(s, c, start, i).len() ==> text::byte_len(
                #[trigger] pieces(s, c, start, i)[n],
            ) <= text::byte_len(s),
    decreases s.len() - i,
{
    let len = s.len() as int;
    if i < s.len() {
        if s[i] == c {
            lemma_piece_bytes(s, c, i + 1, i + 1);
            text::lemma_offset_subrange(s, start, i, i - start);
            text::lemma_offset_grows(s, i, len);
            let rest = pieces(s, c, i + 1, i + 1);
            let all = pieces(s, c, start, i);
            assert forall|n: int| 0 <= n < all.len() implies text::byte_len(#[trigger] all[n])
                <= text::byte_len(s) by {
                if n > 0 {
                    assert(all[n] == rest[n - 1]);
                }
            }
        } else {
            lemma_piece_bytes(s, c, start, i + 1);
            assert(pieces(s, c, start, i) == pieces(s, c, start, i + 1));
        }
    } else {
        text::lemma_offset_subrange(s, start, len, len - start);
        assert(text::byte_len(s.subrange(start, len)) <= text::byte_len(s));
        assert(pieces(s, c, start, i) =~= seq![s.subrange(start, len)]);
    }
}

/// No line takes more bytes than the text it is cut from, and no line holds
/// a line feed.
pub proof fn lemma_lines(s: Seq<char>)
    ensures
        forall|n: int|
            0 <= n < lines(s).len() ==> text::byte_len(#[trigger] lines(s)[n]) <= text::byte_len(s)
                && !lines(s)[n].contains('\n'),
{
    let all = split(s, '\n');
    lemma_pieces(s, '\n', 0, 0);
    lemma_piece_bytes(s, '\n', 0, 0);
    assert forall|n: int| 0 <= n < lines(s).len() implies text::byte_len(#[trigger] lines(s)[n])
        <= text::byte_len(s) && !lines(s)[n].contains('\n') by {
        let piece = all[n];
        let line = lines(s)[n];
        assert(line == piece || line == piece.drop_last());
        text::lemma_offset_prefix(line, piece, line.len() as int);
        text::lemma_offset_grows(piece, line.len() as int, piece.len() as int);
        assert(forall|i: int| 0 <= i < line.len() ==> line[i] == piece[i]);
    }
}

/// The pieces of `s` between the separators `c`.
pub fn split_at_char(s: &Vec<char>, c: char) -> (r: Vec<Vec<char>>)
    ensures
        rows(r@) == split(s@, c),
        r@.len() > 0,
{
    proof {
        lemma_pieces(s@, c, 0, 0);
    }
    let mut r: Vec<Vec<char>> = Vec::new();
    let mut cur: Vec<char> = Vec::new();
    let mut i: usize = 0;
    let ghost mut start: int = 0;
    assert(rows(r@) + pieces(s@, c, 0, 0) =~= split(s@, c));
    while i < s.len()
        invariant
            0 <= start <= i <= s@.len(),
            cur@ == s@.subrange(start, i as int),
            rows(r@) + pieces(s@, c, start, i as int) == split(s@, c),
        decreases s@.len() - i,
    {
        let x = s[i];
        if x == c {
            let ghost before = rows(r@);
            let ghost piece = cur@;
            r.push(cur);
            cur = Vec::new();
            proof {
                assert(rows(r@) =~= before.push(piece));
                assert(before + (seq![piece] + pieces(s@, c, i + 1, i + 1)) =~= rows(r@) + pieces(
                    s@,
                    c,
                    i + 1,
                    i + 1,
                ));
                start = i + 1;
            }
            i += 1;
            assert(cur@ =~= s@.subrange(start, i as int));
        } else {
            cur.push(x);
            i += 1;
            assert(cur@ =~= s@.subrange(start, i as int));
        }
    }
    let ghost before = rows(r@);
    let ghost piece = cur@;
    r.push(cur);
    assert(rows(r@) =~= before.push(piece));
    assert(before.push(piece) =~= before + seq![piece]);
    r
}

/// The lines of a text.
pub fn lines_of(s: &str) -> (r: Vec<Vec<char>>)
    ensures
        rows(r@) == lines(s@),
{
    let mut all = split_at_char(&text::chars_of(s), '\n');
    let ghost pieces = split(s@, '\n');
    let mut r: Vec<Vec<char>> = Vec::new();
    let last: usize = all.len() - 1;
    let mut i: usize = 0;
    while i < last
        invariant
            rows(all@) == pieces,
            last == all@.len() - 1,
            i <= last,
            rows(r@) == Seq::new(i as nat, |k: int| strip_cr(pieces[k])),
        decreases last - i,
    {
        let ghost before = rows(r@);
        let n: usize = all[i].len();
        let mut line = all[i].clone();
        assert(line@ =~= rows(all@)[i as int]);
        if n > 0 && line[n - 1] == '\r' {
            line.pop();
        }
        assert(line@ =~= strip_cr(pieces[i as int]));
        let ghost piece = line@;
        r.push(line);
        assert(rows(r@) =~= before.push(piece));
        i += 1;
        assert(rows(r@) =~= Seq::new(i as nat, |k: int| strip_cr(pieces[k])));
    }
    let tail = all.pop();
    if let Some(line) = tail {
        let ghost before = rows(r@);
        let ghost piece = line@;
        assert(piece == pieces[last as int]);
        if line.len() > 0 {
            r.push(line);
            assert(rows(r@) =~= before.push(piece));
        }
    }
    r
}

// ── Joining ────────────────────────────────────────────────────────────────

/// The first `n` parts with `sep` between them.
pub open spec fn join_to(parts: Seq<Seq<char>>, sep: Seq<char>, n: int) -> Seq<char>
    decreases n,
{
    if n <= 0 {
        Seq::empty()
    } else if n == 1 {
        parts[0]
    } else {
        join_to(parts, sep, n - 1) + sep + parts[n - 1]
    }
}

/// The parts with `sep` between them.
pub open spec fn join(parts: Seq<Seq<char>>, sep: Seq<char>) -> Seq<char> {
    join_to(parts, sep, parts.len() as int)
}

/// Joining depends on the joined parts only.
pub proof fn lemma_join_prefix(a: Seq<Seq<char>>, b: Seq<Seq<char>>, sep: Seq<char>, n: int)
    requires
        n <= a.len(),
        n <= b.len(),
        forall|i: int| 0 <= i < n ==> a[i] == b[i],
    ensures
        join_to(a, sep, n) == join_to(b, sep, n),
    decreases n,
{
    if n > 1 {
        lemma_join_prefix(a, b, sep, n - 1);
    }
}

/// The parts with `sep` between them.
pub fn join_strings(parts: &Vec<String>, sep: &str) -> (r: String)
    ensures
        r@ == join(texts(parts@), sep@),
{
    let mut r = String::new();
    let mut i: usize = 0;
    while i < parts.len()
        invariant
            i <= parts@.len(),
            r@ == join_to(texts(parts@), sep@, i as int),
        decreases parts@.len() - i,
    {
        if i > 0 {
            r.append(sep);
        }
        r.append(parts[i].as_str());
        i += 1;
        assert(texts(parts@)[i - 1] == parts@[i - 1]@);
        assert(i == 1 ==> r@ =~= parts@[0]@);
    }
    r
}

// ── Splitting what was joined ──────────────────────────────────────────────

proof fn lemma_last_piece(s: Seq<char>, c: char, start: int, i: int)
    requires
        0 <= start <= i <= s.len(),
        forall|k: int| i <= k < s.len() ==> s[k] != c,
    ensures
        pieces(s, c, start, i) == seq![s.subrange(start, s.len() as int)],
    decreases s.len() - i,
{
    if i < s.len() {
        lemma_last_piece(s, c, start, i + 1);
    }
}

proof fn lemma_one_more_piece(s: Seq<char>, c: char, t: Seq<char>, start: int, i: int)
    requires
        0 <= start <= i <= s.len(),
        !t.contains(c),
    ensures
        pieces(s + seq![c] + t, c, start, i) == pieces(s, c, start, i).push(t),
    decreases s.len() - i,
{
    let u = s + seq![c] + t;
    if i == s.len() {
        assert(u[i] == c);
        assert forall|k: int| i + 1 <= k < u.len() implies u[k] != c by {
            assert(u[k] == t[k - i - 1]);
        }
        lemma_last_piece(u, c, i + 1, i + 1);
        assert(u.subrange(i + 1, u.len() as int) =~= t);
        assert(u.subrange(start, i) =~= s.subrange(start, i));
        assert(pieces(u, c, start, i) =~= seq![s.subrange(start, i)].push(t));
    } else {
        assert(u[i] == s[i]);
        if s[i] == c {
            lemma_one_more_piece(s, c, t, i + 1, i + 1);
            assert(u.subrange(start, i) =~= s.subrange(start, i));
            assert(pieces(u, c, start, i) =~= pieces(s, c, start, i).push(t));
        } else {
            lemma_one_more_piece(s, c, t, start, i + 1);
        }
    }
}

proof fn lemma_split_join_to(parts: Seq<Seq<char>>, c: char, n: int)
    requires
        0 < n <= parts.len(),
        forall|k: int| 0 <= k < parts.len() ==> !(#[trigger] parts[k]).contains(c),
    ensures
        split(join_to(parts, seq![c], n), c) == parts.take(n),
    decreases n,
{
    let last = parts[n - 1];
    assert(!last.contains(c));
    if n == 1 {
        assert(forall|k: int| 0 <= k < last.len() ==> last[k] != c);
        lemma_last_piece(last, c, 0, 0);
        assert(last.subrange(0, last.len() as int) =~= last);
        assert(parts.take(1) =~= seq![last]);
    } else {
        lemma_split_join_to(parts, c, n - 1);
        lemma_one_more_piece(join_to(parts, seq![c], n - 1), c, last, 0, 0);
        assert(parts.take(n) =~= parts.take(n - 1).push(last));
    }
}

/// Splitting gives back what joining put together, when no part holds the
/// separator.
pub proof fn law_split_undoes_join(parts: Seq<Seq<char>>, c: char)
    requires
        parts.len() > 0,
        forall|k: int| 0 <= k < parts.len() ==> !(#[trigger] parts[k]).contains(c),
    ensures
        split(join(parts, seq![c]), c) == parts,
{
    lemma_split_join_to(parts, c, parts.len() as int);
    assert(parts.take(parts.len() as int) =~= parts);
}

/// The pieces of a text that stands further back in another one are the same.
proof fn lemma_pieces_shift(s: Seq<char>, b: Seq<char>, c: char, off: int, start: int, i: int)
    requires
        0 <= start <= i <= b.len(),
        0 <= off,
        s.len() == off + b.len(),
        forall|k: int| 0 <= k < b.len() ==> s[off + k] == b[k],
    ensures
        pieces(s, c, off + start, off + i) == pieces(b, c, start, i),
    decreases b.len() - i,
{
    if i < b.len() {
        assert(s[off + i] == b[i]);
        if b[i] == c {
            lemma_pieces_shift(s, b, c, off, i + 1, i + 1);
            assert(s.subrange(off + start, off + i) =~= b.subrange(start, i));
        } else {
            lemma_pieces_shift(s, b, c, off, start, i + 1);
        }
    } else {
        assert(s.subrange(off + start, s.len() as int) =~= b.subrange(start, b.len() as int));
    }
}

proof fn lemma_pieces_concat(a: Seq<char>, b: Seq<char>, c: char, start: int, i: int)
    requires
        0 <= start <= i <= a.len(),
    ensures
        pieces(a + seq![c] + b, c, start, i) == pieces(a, c, start, i) + split(b, c),
    decreases a.len() - i,
{
    let s = a + seq![c] + b;
    let n = a.len() as int;
    if i < n {
        assert(s[i] == a[i]);
        if a[i] == c {
            lemma_pieces_concat(a, b, c, i + 1, i + 1);
            assert(s.subrange(start, i) =~= a.subrange(start, i));
            let one = seq![a.subrange(start, i)];
            assert(one + (pieces(a, c, i + 1, i + 1) + split(b, c)) =~= one + pieces(
                a,
                c,
                i + 1,
                i + 1,
            ) + split(b, c));
        } else {
            lemma_pieces_concat(a, b, c, start, i + 1);
        }
    } else {
        assert(s[n] == c);
        lemma_pieces_shift(s, b, c, n + 1, 0, 0);
        assert(s.subrange(start, n) =~= a.subrange(start, n));
    }
}

/// The pieces of two texts with a separator between them are the pieces of
/// the first, followed by those of the second.
pub proof fn law_split_of_two(a: Seq<char>, b: Seq<char>, c: char)
    ensures
        split(a + seq![c] + b, c) == split(a, c) + split(b, c),
{
    lemma_pieces_concat(a, b, c, 0, 0);
}

/// A joined text holds no character that neither its parts nor the separator
/// hold.
pub proof fn lemma_join_holds_not(parts: Seq<Seq<char>>, sep: Seq<char>, c: char, n: int)
    requires
        0 <= n <= parts.len(),
        !sep.contains(c),
        forall|k: int| 0 <= k < parts.len() ==> !(#[trigger] parts[k]).contains(c),
    ensures
        !join_to(parts, sep, n).contains(c),
    decreases n,
{
    if n > 0 {
        lemma_join_holds_not(parts, sep, c, n - 1);
        let before = join_to(parts, sep, n - 1);
        let last = parts[n - 1];
        let all = join_to(parts, sep, n);
        assert(!last.contains(c));
        assert forall|i: int| 0 <= i < all.len() implies all[i] != c by {
            if i < before.len() {
                assert(all[i] == before[i]);
            } else if n > 1 && i < before.len() + sep.len() {
                assert(all[i] == sep[i - before.len()]);
            } else {
                assert(all[i] == last[i - (all.len() - last.len())]);
            }
        }
    }
}

} // verus!

//! Laws of the comments of source code.

use vstd::prelude::*;

use crate::lines;
use crate::lists;
use crate::prose;
use crate::text;
use crate::types::LintKind;
use crate::words;

verus! {

// ── Line comments ──────────────────────────────────────────────────────────

/// `//` stands at `k`.
pub open spec fn is_marker(s: Seq<char>, k: int) -> bool {
    0 <= k && k + 1 < s.len() && s[k] == '/' && s[k + 1] == '/'
}

/// From `i` to `j` stands code without quotes, in which no comment starts.
pub open spec fn is_plain_code(s: Seq<char>, i: int, j: int) -> bool {
    &&& 0 <= i <= j <= s.len()
    &&& forall|k: int|
        i <= k < j ==> #[trigger] s[k] != '"' && s[k] != '\'' && !is_marker(s, k)
}

proof fn lemma_plain_code(s: Seq<char>, i: int, j: int)
    requires
        is_plain_code(s, i, j),
    ensures
        prose::comment_start(s, i, false) == prose::comment_start(s, j, false),
    decreases j - i,
{
    if i < j {
        assert(s[i] != '"' && s[i] != '\'' && !is_marker(s, i));
        lemma_plain_code(s, i + 1, j);
    }
}

/// Outside strings, the first `//` starts the comment.
pub proof fn law_comment_starts_at_its_marker(s: Seq<char>, i: int, j: int)
    requires
        is_plain_code(s, i, j),
    ensures
        is_marker(s, j) ==> prose::comment_start(s, i, false) == Some(j),
        j == s.len() ==> prose::comment_start(s, i, false) is None,
{
    lemma_plain_code(s, i, j);
}

/// A string starts at a double quote and ends at the next one. No comment
/// starts in it.
pub proof fn law_strings_hold_no_comment(s: Seq<char>, i: int, j: int, k: int)
    requires
        is_plain_code(s, i, j),
        j < k < s.len(),
        s[j] == '"',
        s[k] == '"',
        forall|m: int| j < m < k ==> #[trigger] s[m] != '"' && s[m] != '\\',
    ensures
        prose::comment_start(s, i, false) == prose::comment_start(s, k + 1, false),
{
    lemma_plain_code(s, i, j);
    lemma_string(s, j + 1, k);
}

proof fn lemma_string(s: Seq<char>, i: int, k: int)
    requires
        0 <= i <= k < s.len(),
        s[k] == '"',
        forall|m: int| i <= m < k ==> #[trigger] s[m] != '"' && s[m] != '\\',
    ensures
        prose::comment_start(s, i, true) == prose::comment_start(s, k + 1, false),
    decreases k - i,
{
    if i < k {
        assert(s[i] != '"' && s[i] != '\\');
        lemma_string(s, i + 1, k);
    }
}

/// In a string, a backslash takes the character after it with it. So an
/// escaped quote does not end the string.
pub proof fn law_escapes_in_strings(s: Seq<char>, i: int)
    requires
        0 <= i < s.len(),
        s[i] == '\\',
    ensures
        prose::comment_start(s, i, true) == prose::comment_start(s, i + 2, true),
{
}

/// A string that does not end on its line holds no comment.
pub proof fn law_open_strings_hold_no_comment(s: Seq<char>, i: int)
    requires
        0 <= i <= s.len(),
        forall|m: int| i <= m < s.len() ==> #[trigger] s[m] != '"' && s[m] != '\\',
    ensures
        prose::comment_start(s, i, true) is None,
    decreases s.len() - i,
{
    if i < s.len() {
        assert(s[i] != '"' && s[i] != '\\');
        law_open_strings_hold_no_comment(s, i + 1);
    }
}

/// A character between single quotes is a char literal, whatever it is. A
/// double quote there opens no string.
pub proof fn law_char_literals_are_skipped(s: Seq<char>, i: int)
    requires
        0 <= i,
        i + 2 < s.len(),
        s[i] == '\'',
        s[i + 1] != '\'',
        s[i + 1] != '\\',
        s[i + 2] == '\'',
    ensures
        prose::comment_start(s, i, false) == prose::comment_start(s, i + 3, false),
{
}

/// An escape between single quotes is a char literal. It ends at the first
/// single quote after the escaped character.
pub proof fn law_escaped_char_literals_are_skipped(s: Seq<char>, i: int, k: int)
    requires
        0 <= i,
        i + 2 < k < s.len(),
        s[i] == '\'',
        s[i + 1] == '\\',
        s[k] == '\'',
        forall|m: int| i + 2 < m < k ==> #[trigger] s[m] != '\'',
    ensures
        prose::comment_start(s, i, false) == prose::comment_start(s, k + 1, false),
{
    lemma_quote(s, i + 3, k);
}

proof fn lemma_quote(s: Seq<char>, i: int, k: int)
    requires
        0 <= i <= k < s.len(),
        s[k] == '\'',
        forall|m: int| i <= m < k ==> #[trigger] s[m] != '\'',
    ensures
        prose::quote_end(s, i) == Some(k + 1),
    decreases k - i,
{
    if i < k {
        assert(s[i] != '\'');
        lemma_quote(s, i + 1, k);
    }
}

/// A single quote that opens no char literal, as in a lifetime, is code.
pub proof fn law_lone_quotes_are_code(s: Seq<char>, i: int)
    requires
        0 <= i < s.len(),
        s[i] == '\'',
        i + 2 >= s.len() || s[i + 1] == '\'' || (s[i + 1] != '\\' && s[i + 2] != '\''),
    ensures
        prose::comment_start(s, i, false) == prose::comment_start(s, i + 1, false),
{
}

// ── Block comments ─────────────────────────────────────────────────────────

/// Line `i` starts a block comment that no line before `k` ends.
pub open spec fn stays_open(rows: Seq<Seq<char>>, i: int, k: int) -> bool {
    &&& text::starts_with(text::trim_start(rows[i]), "/*"@)
    &&& forall|j: int|
        i <= j < k ==> !text::contains(text::trim_start(#[trigger] rows[j]), "*/"@)
}

/// A block comment is open before line `k` exactly when an earlier line
/// started one, and no line from that one up to `k - 1` ended it.
pub proof fn law_open_block_comment(rows: Seq<Seq<char>>, k: int)
    requires
        0 <= k <= rows.len(),
    ensures
        prose::slash_state(rows, k) <==> exists|i: int|
            0 <= i < k && #[trigger] stays_open(rows, i, k),
    decreases k,
{
    if k > 0 {
        law_open_block_comment(rows, k - 1);
        if prose::slash_state(rows, k) {
            if prose::slash_state(rows, k - 1) {
                let i = choose|i: int| 0 <= i < k - 1 && #[trigger] stays_open(rows, i, k - 1);
                assert(stays_open(rows, i, k));
            } else {
                assert(stays_open(rows, k - 1, k));
            }
        }
        if exists|i: int| 0 <= i < k && #[trigger] stays_open(rows, i, k) {
            let i = choose|i: int| 0 <= i < k && #[trigger] stays_open(rows, i, k);
            assert(!text::contains(text::trim_start(rows[k - 1]), "*/"@));
            if i < k - 1 {
                assert(stays_open(rows, i, k - 1));
            }
        }
    }
}

/// A comment text: without its outer white space, and dropped when nothing
/// is left.
pub open spec fn comment_text(s: Seq<char>) -> Seq<Seq<char>> {
    if text::trim(s).len() == 0 {
        Seq::empty()
    } else {
        seq![text::trim(s)]
    }
}

proof fn lemma_kept(s: Seq<char>)
    ensures
        prose::kept(s) == comment_text(s),
{
    text::lemma_trim(s);
}

proof fn lemma_first(a: Seq<char>, b: Seq<char>)
    requires
        !text::contains(a + "*"@, "*/"@),
    ensures
        text::find_from(a + "*/"@ + b, "*/"@, 0) == Some(a.len() as int),
        text::contains(a + "*/"@ + b, "*/"@),
{
    reveal_strlit("*");
    reveal_strlit("*/");
    let s = a + "*/"@ + b;
    let n = a.len() as int;
    text::lemma_find_from(s, "*/"@, 0);
    assert(s.subrange(n, n + 2) =~= "*/"@);
    assert(text::occurs_at(s, "*/"@, n));
    let k = text::find_from(s, "*/"@, 0)->0;
    if k < n {
        let t = a + "*"@;
        assert(t.subrange(k, k + 2) =~= s.subrange(k, k + 2));
        assert(text::occurs_at(t, "*/"@, k));
    }
}

/// Inside a block comment a line that does not end it is comment text as a
/// whole, without its leading white space.
pub proof fn law_line_inside_a_block_comment(s: Seq<char>)
    requires
        !text::contains(text::trim_start(s), "*/"@),
    ensures
        prose::slash_prose(true, s) == seq![text::trim_start(s)],
{
    text::lemma_find_from(text::trim_start(s), "*/"@, 0);
}

/// The line that ends a block comment is comment text up to its end.
pub proof fn law_line_that_ends_a_block_comment(s: Seq<char>, a: Seq<char>, b: Seq<char>)
    requires
        text::trim_start(s) == a + "*/"@ + b,
        !text::contains(a + "*"@, "*/"@),
    ensures
        prose::slash_prose(true, s) == comment_text(a + "*/"@),
{
    lemma_first(a, b);
    reveal_strlit("*/");
    let t = text::trim_start(s);
    assert(t.take(a.len() as int + 2) =~= a + "*/"@);
    lemma_kept(a + "*/"@);
}

/// The comment text after the `//` of a line.
pub open spec fn line_comment(t: Seq<char>) -> Seq<Seq<char>> {
    match prose::comment_start(t, 0, false) {
        Some(p) => comment_text(t.skip(p + 2)),
        None => Seq::empty(),
    }
}

/// Outside block comments, a line that starts none gives what stands after
/// its `//`.
pub proof fn law_line_comment(s: Seq<char>)
    requires
        !text::starts_with(text::trim_start(s), "/*"@),
    ensures
        prose::slash_prose(false, s) == line_comment(text::trim_start(s)),
{
    let t = text::trim_start(s);
    if let Some(p) = prose::comment_start(t, 0, false) {
        lemma_kept(t.skip(p + 2));
    }
    assert(line_comment(t) + Seq::<Seq<char>>::empty() =~= line_comment(t));
}

/// A block comment on one line gives its content.
pub proof fn law_block_comment_on_one_line(s: Seq<char>, a: Seq<char>, b: Seq<char>)
    requires
        text::trim_start(s) == "/*"@ + a + "*/"@ + b,
        !text::contains(a + "*"@, "*/"@),
    ensures
        prose::slash_prose(false, s) == line_comment(text::trim_start(s)) + comment_text(a),
{
    let t = text::trim_start(s);
    let rest = a + "*/"@ + b;
    reveal_strlit("/*");
    reveal_strlit("*/");
    assert(t =~= "/*"@ + rest);
    assert(t.skip(2) =~= rest);
    words::law_starts_with(t, "/*"@);
    lemma_first(a, b);
    words::law_contains(t, "*/"@);
    assert(t == ("/*"@ + a) + "*/"@ + b);
    assert(rest.take(a.len() as int) =~= a);
    lemma_kept(a);
    if let Some(p) = prose::comment_start(t, 0, false) {
        lemma_kept(t.skip(p + 2));
    }
}

/// The first line of a longer block comment gives what stands after `/*`.
pub proof fn law_line_that_starts_a_block_comment(s: Seq<char>, a: Seq<char>)
    requires
        text::trim_start(s) == "/*"@ + a,
        !text::contains(text::trim_start(s), "*/"@),
    ensures
        prose::slash_prose(false, s) == line_comment(text::trim_start(s)) + comment_text(a),
{
    let t = text::trim_start(s);
    reveal_strlit("/*");
    words::law_starts_with(t, "/*"@);
    assert(t.skip(2) =~= a);
    lemma_kept(a);
    if let Some(p) = prose::comment_start(t, 0, false) {
        lemma_kept(t.skip(p + 2));
    }
}

proof fn lemma_slash(rows: Seq<Seq<char>>, n: int)
    requires
        0 <= n <= rows.len(),
    ensures
        prose::slash_to(rows, n) == lists::collected(
            n as nat,
            |k: int| prose::slash_prose(prose::slash_state(rows, k), rows[k]),
        ),
    decreases n,
{
    let f = |k: int| prose::slash_prose(prose::slash_state(rows, k), rows[k]);
    lists::lemma_collected(n as nat, f);
    if n > 0 {
        lemma_slash(rows, n - 1);
    }
}

// ── Hash comments ──────────────────────────────────────────────────────────

/// A line whose first character that is not white is `#` gives the text
/// after it, unless it is a shebang line. No other line gives any.
pub proof fn law_hash_comment(pad: Seq<char>, rest: Seq<char>)
    requires
        text::is_blank(pad),
        words::is_flush(rest),
    ensures
        rest.len() == 0 || rest[0] != '#' ==> prose::hash_prose(pad + rest).len() == 0,
        rest.len() > 1 && rest[0] == '#' && rest[1] == '!' ==> prose::hash_prose(pad + rest).len()
            == 0,
        rest.len() > 0 && rest[0] == '#' && !(rest.len() > 1 && rest[1] == '!')
            ==> prose::hash_prose(pad + rest) == comment_text(rest.drop_first()),
{
    words::law_indent(pad, rest);
    if rest.len() > 0 {
        assert(rest.skip(1) =~= rest.drop_first());
        lemma_kept(rest.skip(1));
    }
}

proof fn lemma_hash(rows: Seq<Seq<char>>, n: int)
    requires
        0 <= n <= rows.len(),
    ensures
        prose::hash_to(rows, n) == lists::collected(
            n as nat,
            |k: int| prose::hash_prose(rows[k]),
        ),
    decreases n,
{
    let f = |k: int| prose::hash_prose(rows[k]);
    lists::lemma_collected(n as nat, f);
    if n > 0 {
        lemma_hash(rows, n - 1);
    }
}

// ── Source files ───────────────────────────────────────────────────────────

/// The prose of a source file is the comment text of its lines, line after
/// line.
pub proof fn law_prose_of_source(text: Seq<char>)
    ensures
        ({
            let rows = lines::lines(text);
            &&& prose::prose(LintKind::SlashSource, text) == lists::collected(
                rows.len(),
                |k: int| prose::slash_prose(prose::slash_state(rows, k), rows[k]),
            )
            &&& prose::prose(LintKind::HashSource, text) == lists::collected(
                rows.len(),
                |k: int| prose::hash_prose(rows[k]),
            )
        }),
{
    let rows = lines::lines(text);
    lemma_slash(rows, rows.len() as int);
    lemma_hash(rows, rows.len() as int);
}

} // verus!

//! Extraction of prose from a source text.
//!
//! Prose and commit-message kinds blank out fenced code blocks, HTML
//! comments, indented code, inline code spans and markdown table rows, so
//! the prose rules skip non-prose structure. Blanked lines keep the line
//! count and byte layout, so a violation still names its source line. The
//! source kinds keep the text of comments only.

use vstd::prelude::*;
use vstd::string::StringExecFns;

use crate::lines;
use crate::text;
use crate::types::LintKind;

verus! {

/// A line of spaces that takes as many bytes as `s`.
pub open spec fn blanked(s: Seq<char>) -> Seq<char> {
    text::spaces(text::byte_len(s))
}

/// A line of spaces that takes as many bytes as `s`.
fn blank_of(s: &Vec<char>) -> (r: String)
    requires
        text::byte_len(s@) <= usize::MAX,
    ensures
        r@ == blanked(s@),
{
    text::spaces_of(text::offset_at(s, s.len()))
}

// ── Fences ─────────────────────────────────────────────────────────────────

/// The leading run of a fence line: its character, and where it ends. The
/// line has at most three bytes of leading white space, then three or more
/// backticks or tildes. A line with a backtick after a run of backticks is no
/// fence line.
pub open spec fn fence(s: Seq<char>) -> Option<(char, int)> {
    let w = text::white_end(s, 0);
    if text::indent(s) > 3 || w >= s.len() || (s[w] != '`' && s[w] != '~') {
        None
    } else {
        let e = text::run_end(s, s[w], w);
        if e - w < 3 || (s[w] == '`' && s.skip(e).contains('`')) {
            None
        } else {
            Some((s[w], e))
        }
    }
}

/// The length of the leading run that ends at `e`.
pub open spec fn fence_len(s: Seq<char>, e: int) -> int {
    e - text::white_end(s, 0)
}

/// The leading backtick or tilde run when the line is a fence line: its
/// character, where it starts and where it ends.
fn fence_run(s: &Vec<char>) -> (r: Option<(char, usize, usize)>)
    requires
        text::byte_len(s@) <= usize::MAX,
    ensures
        match r {
            Some((c, w, e)) => fence(s@) == Some((c, e as int)) && w == text::white_end(s@, 0) && w
                <= e <= s@.len(),
            None => fence(s@) is None,
        },
{
    let w = text::skip_white(s, 0);
    if w == s.len() || text::offset_at(s, w) > 3 || (s[w] != '`' && s[w] != '~') {
        return None;
    }
    let e = text::skip_run(s, s[w], w);
    if e - w < 3 || (s[w] == '`' && text::has_char(s, '`', e)) {
        None
    } else {
        Some((s[w], w, e))
    }
}

// ── Inline code spans ──────────────────────────────────────────────────────

/// The end of the first backtick run at or after `j` that has length `run`
/// and does not follow a backslash.
pub open spec fn span_end(s: Seq<char>, j: int, run: int) -> Option<int>
    decreases s.len() - j,
    via span_end_decreases
{
    if j < 0 || j >= s.len() {
        None
    } else if s[j] != '`' {
        span_end(s, j + 1, run)
    } else {
        let e = text::run_end(s, '`', j);
        if e - j == run && !(j > 0 && s[j - 1] == '\\') {
            Some(e)
        } else {
            span_end(s, e, run)
        }
    }
}

#[via_fn]
proof fn span_end_decreases(s: Seq<char>, j: int, run: int) {
    if 0 <= j < s.len() {
        text::lemma_run_end(s, '`', j);
    }
}

proof fn lemma_span_end(s: Seq<char>, j: int, run: int)
    requires
        0 <= j <= s.len(),
    ensures
        span_end(s, j, run) matches Some(e) ==> j < e <= s.len(),
    decreases s.len() - j,
{
    if j < s.len() {
        if s[j] != '`' {
            lemma_span_end(s, j + 1, run);
        } else {
            text::lemma_run_end(s, '`', j);
            lemma_span_end(s, text::run_end(s, '`', j), run);
        }
    }
}

/// Where the code span that opens at `i` ends. A span starts at a backtick
/// run and ends at the next run of the same length. An escaped backtick
/// opens no span.
pub open spec fn span_at(s: Seq<char>, i: int) -> Option<int> {
    if !is_tick(s, i) {
        None
    } else {
        let e = text::run_end(s, '`', i);
        span_end(s, e, e - i)
    }
}

/// A backtick that no backslash escapes stands at `i`.
pub open spec fn is_tick(s: Seq<char>, i: int) -> bool {
    s[i] == '`' && !(i > 0 && s[i - 1] == '\\')
}

/// Where the text that stays as it is ends, when no span opens at `i`: after
/// a whole backtick run, or after one character.
pub open spec fn literal_end(s: Seq<char>, i: int) -> int {
    if is_tick(s, i) {
        text::run_end(s, '`', i)
    } else {
        i + 1
    }
}

/// The line from `i` on, with each code span replaced by spaces. A backtick
/// run that opens no span stays as it is.
pub open spec fn without_spans(s: Seq<char>, i: int) -> Seq<char>
    decreases s.len() - i,
    via without_spans_decreases
{
    if i < 0 || i >= s.len() {
        Seq::empty()
    } else {
        match span_at(s, i) {
            Some(e) => blanked(s.subrange(i, e)) + without_spans(s, e),
            None => {
                let e = literal_end(s, i);
                s.subrange(i, e) + without_spans(s, e)
            },
        }
    }
}

#[via_fn]
proof fn without_spans_decreases(s: Seq<char>, i: int) {
    if 0 <= i < s.len() {
        lemma_span_at(s, i);
    }
}

proof fn lemma_span_at(s: Seq<char>, i: int)
    requires
        0 <= i < s.len(),
    ensures
        span_at(s, i) matches Some(e) ==> i < e <= s.len(),
        i < literal_end(s, i) <= s.len(),
{
    text::lemma_run_end(s, '`', i);
    lemma_span_end(s, text::run_end(s, '`', i), text::run_end(s, '`', i) - i);
}

fn find_span_end(s: &Vec<char>, from: usize, run: usize) -> (r: Option<usize>)
    requires
        from <= s@.len(),
    ensures
        match r {
            Some(e) => span_end(s@, from as int, run as int) == Some(e as int) && e <= s@.len(),
            None => span_end(s@, from as int, run as int) is None,
        },
{
    let mut j: usize = from;
    while j < s.len()
        invariant
            from <= j <= s@.len(),
            span_end(s@, from as int, run as int) == span_end(s@, j as int, run as int),
        decreases s@.len() - j,
    {
        if s[j] != '`' {
            j += 1;
            continue;
        }
        let e = text::skip_run(s, '`', j);
        if e - j == run && !(j > 0 && s[j - 1] == '\\') {
            return Some(e);
        }
        j = e;
    }
    None
}

/// Where the code span that opens at `i` ends.
fn find_span(s: &Vec<char>, i: usize) -> (r: Option<usize>)
    requires
        i < s@.len(),
    ensures
        match r {
            Some(e) => span_at(s@, i as int) == Some(e as int) && i < e <= s@.len(),
            None => span_at(s@, i as int) is None,
        },
{
    proof {
        lemma_span_at(s@, i as int);
    }
    if s[i] != '`' || (i > 0 && s[i - 1] == '\\') {
        return None;
    }
    let e = text::skip_run(s, '`', i);
    find_span_end(s, e, e - i)
}

/// Replace single-line backtick code spans with spaces.
///
/// A span starts at a backtick run and ends at the next run of the
/// same length. An escaped backtick never opens or closes a span.
/// An open span does not cross a line break, so its backticks stay
/// literal. Each span keeps its byte length, so rule column offsets
/// stay aligned with the source line.
fn blank_out_inline_spans(s: &Vec<char>) -> (r: String)
    requires
        text::byte_len(s@) <= usize::MAX,
    ensures
        r@ == without_spans(s@, 0),
{
    let mut r = String::new();
    let mut i: usize = 0;
    assert(r@ + without_spans(s@, 0) =~= without_spans(s@, 0));
    while i < s.len()
        invariant
            text::byte_len(s@) <= usize::MAX,
            i <= s@.len(),
            r@ + without_spans(s@, i as int) == without_spans(s@, 0),
        decreases s@.len() - i,
    {
        let ghost before = r@;
        match find_span(s, i) {
            Some(e) => {
                proof {
                    text::lemma_offset_subrange(s@, i as int, e as int, e - i);
                    text::lemma_offset_grows(s@, e as int, s@.len() as int);
                }
                let blank = text::spaces_of(text::offset_at(s, e) - text::offset_at(s, i));
                r.append(blank.as_str());
                assert(before + (blank@ + without_spans(s@, e as int)) =~= r@ + without_spans(
                    s@,
                    e as int,
                ));
                i = e;
            },
            None => {
                proof {
                    lemma_span_at(s@, i as int);
                }
                let e = if s[i] == '`' && !(i > 0 && s[i - 1] == '\\') {
                    text::skip_run(s, '`', i)
                } else {
                    i + 1
                };
                let piece = text::string_of(s, i, e);
                r.append(piece.as_str());
                assert(before + (piece@ + without_spans(s@, e as int)) =~= r@ + without_spans(
                    s@,
                    e as int,
                ));
                i = e;
            },
        }
    }
    assert(r@ + without_spans(s@, i as int) =~= r@);
    r
}

// ── Blocks that hold no prose ──────────────────────────────────────────────

/// What stays open from one line to the next: a fence with its character
/// and the length of its opening run, and an HTML comment.
pub struct BlockState {
    pub fence: Option<(char, int)>,
    pub comment: bool,
}

/// What is open after a line.
pub open spec fn block_next(st: BlockState, s: Seq<char>) -> BlockState {
    match (fence(s), st.fence) {
        (Some((c, e)), None) => BlockState {
            fence: Some((c, fence_len(s, e))),
            comment: st.comment,
        },
        (Some((c, e)), Some((opener, run))) => if c == opener && fence_len(s, e) >= run
            && text::is_blank(s.skip(e)) {
            BlockState { fence: None, comment: st.comment }
        } else {
            st
        },
        (None, Some(_)) => st,
        (None, None) => if st.comment || text::starts_with(text::trim_start(s), "<!--"@) {
            BlockState { fence: None, comment: !text::contains(s, "-->"@) }
        } else {
            st
        },
    }
}

/// The prose of a line, when `st` is open before it.
///
/// Fence lines, and the lines inside a fence, hold no prose. Outside a fence,
/// the lines of an HTML comment and lines with four or more bytes of leading
/// white space hold none either. Every other line loses its code spans.
pub open spec fn block_prose(st: BlockState, s: Seq<char>) -> Seq<char> {
    match (fence(s), st.fence) {
        (Some(_), _) => blanked(s),
        (None, Some(_)) => blanked(s),
        (None, None) => if st.comment || text::starts_with(text::trim_start(s), "<!--"@)
            || text::indent(s) >= 4 {
            blanked(s)
        } else {
            without_spans(s, 0)
        },
    }
}

/// What is open after the first `n` lines.
pub open spec fn block_state(rows: Seq<Seq<char>>, n: int) -> BlockState
    decreases n,
{
    if n <= 0 {
        BlockState { fence: None, comment: false }
    } else {
        block_next(block_state(rows, n - 1), rows[n - 1])
    }
}

/// The lines with everything but prose blanked out.
pub open spec fn without_code(rows: Seq<Seq<char>>) -> Seq<Seq<char>> {
    Seq::new(rows.len(), |k: int| block_prose(block_state(rows, k), rows[k]))
}

/// The prose of a line and the block that is open after it.
fn read_block(fence: Option<(char, usize)>, comment: bool, s: &Vec<char>) -> (r: (
    Option<(char, usize)>,
    bool,
    String,
))
    requires
        text::byte_len(s@) <= usize::MAX,
    ensures
        ({
            let st = BlockState { fence: fence_model(fence), comment };
            &&& block_next(st, s@) == (BlockState { fence: fence_model(r.0), comment: r.1 })
            &&& block_prose(st, s@) == r.2@
        }),
{
    match fence_run(s) {
        Some((c, w, e)) => {
            match fence {
                None => (Some((c, e - w)), comment, blank_of(s)),
                Some((opener, run)) => {
                    let rest = text::part_of(s, e, s.len());
                    assert(rest@ =~= s@.skip(e as int));
                    if c == opener && e - w >= run && text::blank(&rest) {
                        (None, comment, blank_of(s))
                    } else {
                        (fence, comment, blank_of(s))
                    }
                },
            }
        },
        None => {
            if fence.is_some() {
                return (fence, comment, blank_of(s));
            }
            let w = text::skip_white(s, 0);
            let opens = text::at_str(s, "<!--", w);
            proof {
                text::lemma_white_end(s@, 0);
                let t = text::trim_start(s@);
                let p = "<!--"@;
                assert(w + p.len() <= s@.len() ==> t.subrange(0, p.len() as int) =~= s@.subrange(
                    w as int,
                    w + p.len(),
                ));
            }
            if comment || opens {
                return (None, !text::holds(s, "-->"), blank_of(s));
            }
            if text::offset_at(s, w) >= 4 {
                return (None, false, blank_of(s));
            }
            (None, false, blank_out_inline_spans(s))
        },
    }
}

/// An open fence with its run length as an integer.
spec fn fence_model(fence: Option<(char, usize)>) -> Option<(char, int)> {
    match fence {
        Some((c, n)) => Some((c, n as int)),
        None => None,
    }
}

/// Blank out the lines that hold no prose.
///
/// Each blanked line keeps its byte length, so rule line and column
/// offsets stay aligned with the source text.
fn blank_out_non_prose(rows: &Vec<Vec<char>>) -> (r: Vec<String>)
    requires
        forall|k: int| 0 <= k < rows@.len() ==> text::byte_len(#[trigger] rows@[k]@) <= usize::MAX,
    ensures
        lines::texts(r@) == without_code(lines::rows(rows@)),
{
    let ghost all = lines::rows(rows@);
    let mut r: Vec<String> = Vec::new();
    let mut fence: Option<(char, usize)> = None;
    let mut comment = false;
    let mut i: usize = 0;
    while i < rows.len()
        invariant
            forall|k: int|
                0 <= k < rows@.len() ==> text::byte_len(#[trigger] rows@[k]@) <= usize::MAX,
            all == lines::rows(rows@),
            i <= rows@.len(),
            r@.len() == i,
            block_state(all, i as int) == (BlockState { fence: fence_model(fence), comment }),
            forall|k: int| 0 <= k < i ==> #[trigger] r@[k]@ == without_code(all)[k],
        decreases rows@.len() - i,
    {
        assert(all[i as int] == rows@[i as int]@);
        let (next_fence, next_comment, line) = read_block(fence, comment, &rows[i]);
        fence = next_fence;
        comment = next_comment;
        r.push(line);
        i += 1;
    }
    assert(lines::texts(r@) =~= without_code(all));
    r
}

// ── Tables ─────────────────────────────────────────────────────────────────

/// A table row: at most three bytes of leading white space, and a pipe
/// anywhere in the row.
pub open spec fn is_row(s: Seq<char>) -> bool {
    text::indent(s) <= 3 && s.contains('|')
}

/// A character of a table delimiter row.
pub open spec fn is_delimiter_char(c: char) -> bool {
    c == '|' || c == ':' || c == '-' || c == ' '
}

/// A table delimiter row, like `| --- | :---: |`: only pipes, dashes,
/// colons, and spaces, with at least one dash.
pub open spec fn is_delimiter(s: Seq<char>) -> bool {
    let t = text::trim(s);
    t.contains('-') && forall|i: int| 0 <= i < t.len() ==> is_delimiter_char(#[trigger] t[i])
}

/// A table starts with the header row before line `k`, its delimiter row.
pub open spec fn table_at(rows: Seq<Seq<char>>, k: int) -> bool {
    0 < k < rows.len() && is_delimiter(rows[k]) && is_row(rows[k - 1])
}

/// Line `k` is a data row: it follows the delimiter row or another data row.
pub open spec fn is_data(rows: Seq<Seq<char>>, k: int) -> bool
    decreases k,
{
    0 < k < rows.len() && is_row(rows[k]) && !is_delimiter(rows[k]) && (table_at(rows, k - 1)
        || is_data(rows, k - 1))
}

/// Line `k` belongs to a table.
pub open spec fn in_table(rows: Seq<Seq<char>>, k: int) -> bool {
    table_at(rows, k + 1) || table_at(rows, k) || is_data(rows, k)
}

/// The lines with tables blanked out.
pub open spec fn without_tables(rows: Seq<Seq<char>>) -> Seq<Seq<char>> {
    Seq::new(
        rows.len(),
        |k: int|
            if in_table(rows, k) {
                blanked(rows[k])
            } else {
                rows[k]
            },
    )
}

/// A GFM table row: up to three bytes of leading white space, then a pipe
/// anywhere in the row.
fn is_table_row(line: &String) -> (r: bool)
    ensures
        r == is_row(line@),
{
    let n = text::byte_length(line.as_str());
    let s = text::chars_of(line.as_str());
    let w = text::skip_white(&s, 0);
    assert(s@.skip(0) =~= s@);
    text::offset_at(&s, w) <= 3 && text::has_char(&s, '|', 0)
}

/// A GFM table delimiter row, like `| --- | :---: |`.
fn is_table_delimiter_row(line: &String) -> (r: bool)
    ensures
        r == is_delimiter(line@),
{
    let s = text::chars_of(line.as_str());
    assert(s@.subrange(0, s@.len() as int) =~= s@);
    let (a, b) = text::trim_bounds(&s, 0, s.len());
    let ghost t = text::trim(s@);
    let mut dash = false;
    let mut i: usize = a;
    while i < b
        invariant
            a <= i <= b <= s@.len(),
            t == text::trim(line@),
            t == s@.subrange(a as int, b as int),
            dash <==> exists|k: int| 0 <= k < i - a && #[trigger] t[k] == '-',
            forall|k: int| 0 <= k < i - a ==> is_delimiter_char(#[trigger] t[k]),
        decreases b - i,
    {
        let c = s[i];
        assert(t[i - a] == c);
        if c == '-' {
            dash = true;
        } else if c != '|' && c != ':' && c != ' ' {
            return false;
        }
        i += 1;
    }
    dash
}

/// Blank out markdown table lines (header, delimiter, and data rows).
///
/// Table rows hold no prose, and a long row of cells can exceed the
/// sentence-length limit even though every cell is short, so tables are
/// excluded from prose linting the way fenced code is. Each blanked line
/// keeps its byte length, so rule column offsets stay aligned with the
/// source line.
fn blank_out_markdown_tables(rows: &Vec<String>) -> (r: Vec<String>)
    ensures
        lines::texts(r@) == without_tables(lines::texts(rows@)),
{
    let ghost all = lines::texts(rows@);
    let n: usize = rows.len();
    let mut r: Vec<String> = Vec::new();
    // Whether the previous line is a row, a delimiter row of a table, or a
    // data row.
    let mut row = false;
    let mut delimiter = false;
    let mut data = false;
    let mut i: usize = 0;
    while i < n
        invariant
            all == lines::texts(rows@),
            n == rows@.len(),
            i <= n,
            r@.len() == i,
            i > 0 ==> row == is_row(all[i - 1]),
            i == 0 ==> !row,
            delimiter == table_at(all, i - 1),
            data == is_data(all, i - 1),
            forall|k: int| 0 <= k < i ==> #[trigger] r@[k]@ == without_tables(all)[k],
        decreases n - i,
    {
        assert(all[i as int] == rows@[i as int]@);
        let is_row = is_table_row(&rows[i]);
        let is_delimiter = is_table_delimiter_row(&rows[i]);
        let is_table = is_delimiter && row;
        let is_data = is_row && !is_delimiter && (delimiter || data);
        let mut opens = false;
        if is_row && i + 1 < n {
            assert(all[i + 1] == rows@[i + 1]@);
            opens = is_table_delimiter_row(&rows[i + 1]);
        }
        if is_table || is_data || opens {
            r.push(text::spaces_of(text::byte_length(rows[i].as_str())));
        } else {
            r.push(rows[i].clone());
        }
        row = is_row;
        delimiter = is_table;
        data = is_data;
        i += 1;
    }
    assert(lines::texts(r@) =~= without_tables(all));
    r
}

// ── Source comments ────────────────────────────────────────────────────────

/// A comment text without its outer white space. A blank one is dropped.
pub open spec fn kept(s: Seq<char>) -> Seq<Seq<char>> {
    if text::is_blank(s) {
        Seq::empty()
    } else {
        seq![text::trim(s)]
    }
}

/// The end of the first single quote at or after `j`.
pub open spec fn quote_end(s: Seq<char>, j: int) -> Option<int>
    decreases s.len() - j,
{
    if j < 0 || j >= s.len() {
        None
    } else if s[j] == '\'' {
        Some(j + 1)
    } else {
        quote_end(s, j + 1)
    }
}

/// The end of the char literal that starts at `i`: one character, or an
/// escape that starts with a backslash, between single quotes.
pub open spec fn char_end(s: Seq<char>, i: int) -> Option<int> {
    if s[i] != '\'' || i + 2 >= s.len() || s[i + 1] == '\'' {
        None
    } else if s[i + 1] == '\\' {
        quote_end(s, i + 3)
    } else if s[i + 2] == '\'' {
        Some(i + 3)
    } else {
        None
    }
}

proof fn lemma_quote_end(s: Seq<char>, j: int)
    ensures
        quote_end(s, j) matches Some(e) ==> j < e <= s.len(),
    decreases s.len() - j,
{
    if 0 <= j < s.len() {
        lemma_quote_end(s, j + 1);
    }
}

/// Where the `//` comment of a line starts, at or after `i`. A `//` inside a
/// string literal opens no comment. A quote inside a char literal opens no
/// string.
pub open spec fn comment_start(s: Seq<char>, i: int, in_string: bool) -> Option<int>
    decreases s.len() - i,
    via comment_start_decreases
{
    if i < 0 || i + 1 >= s.len() {
        None
    } else if !in_string && char_end(s, i) is Some {
        comment_start(s, char_end(s, i)->0, false)
    } else if in_string {
        if s[i] == '\\' {
            comment_start(s, i + 2, true)
        } else {
            comment_start(s, i + 1, s[i] != '"')
        }
    } else if s[i] == '"' {
        comment_start(s, i + 1, true)
    } else if s[i] == '/' && s[i + 1] == '/' {
        Some(i)
    } else {
        comment_start(s, i + 1, false)
    }
}

#[via_fn]
proof fn comment_start_decreases(s: Seq<char>, i: int, in_string: bool) {
    lemma_quote_end(s, i + 3);
}

/// True when a block comment is open after a line.
pub open spec fn slash_next(in_block: bool, s: Seq<char>) -> bool {
    let t = text::trim_start(s);
    (in_block || text::starts_with(t, "/*"@)) && !text::contains(t, "*/"@)
}

/// The comment texts of a line.
pub open spec fn slash_prose(in_block: bool, s: Seq<char>) -> Seq<Seq<char>> {
    let t = text::trim_start(s);
    if in_block {
        match text::find_from(t, "*/"@, 0) {
            Some(e) => kept(t.take(e + 2)),
            None => seq![t],
        }
    } else {
        let line = match comment_start(t, 0, false) {
            Some(p) => kept(t.skip(p + 2)),
            None => Seq::empty(),
        };
        let body = if !text::starts_with(t, "/*"@) {
            Seq::empty()
        } else if !text::contains(t, "*/"@) {
            kept(t.skip(2))
        } else {
            match text::find_from(t.skip(2), "*/"@, 0) {
                Some(e) => kept(t.skip(2).take(e)),
                None => Seq::empty(),
            }
        };
        line + body
    }
}

/// True when a block comment is open after the first `n` lines.
pub open spec fn slash_state(rows: Seq<Seq<char>>, n: int) -> bool
    decreases n,
{
    n > 0 && slash_next(slash_state(rows, n - 1), rows[n - 1])
}

/// The comment texts of the first `n` lines.
pub open spec fn slash_to(rows: Seq<Seq<char>>, n: int) -> Seq<Seq<char>>
    decreases n,
{
    if n <= 0 {
        Seq::empty()
    } else {
        slash_to(rows, n - 1) + slash_prose(slash_state(rows, n - 1), rows[n - 1])
    }
}

/// The comment text of a line. A shebang line is code, not prose.
pub open spec fn hash_prose(s: Seq<char>) -> Seq<Seq<char>> {
    let t = text::trim_start(s);
    if t.len() == 0 || t[0] != '#' || (t.len() > 1 && t[1] == '!') {
        Seq::empty()
    } else {
        kept(t.skip(1))
    }
}

/// The comment texts of the first `n` lines.
pub open spec fn hash_to(rows: Seq<Seq<char>>, n: int) -> Seq<Seq<char>>
    decreases n,
{
    if n <= 0 {
        Seq::empty()
    } else {
        hash_to(rows, n - 1) + hash_prose(rows[n - 1])
    }
}

/// Adds the comment text `s[from..to]`.
fn keep(out: &mut Vec<String>, s: &Vec<char>, from: usize, to: usize)
    requires
        from <= to <= s@.len(),
    ensures
        lines::texts(final(out)@) == lines::texts(old(out)@) + kept(
            s@.subrange(from as int, to as int),
        ),
{
    let (a, b) = text::trim_bounds(s, from, to);
    let ghost before = lines::texts(out@);
    if a < b {
        let line = text::string_of(s, a, b);
        let ghost l = line@;
        out.push(line);
        assert(lines::texts(out@) =~= before + seq![l]);
    } else {
        assert(before + Seq::<Seq<char>>::empty() =~= before);
    }
}

/// The end of the char literal that starts at `i`.
fn find_char_end(s: &Vec<char>, i: usize) -> (r: Option<usize>)
    requires
        i < s@.len(),
    ensures
        match r {
            Some(e) => char_end(s@, i as int) == Some(e as int) && i < e <= s@.len(),
            None => char_end(s@, i as int) is None,
        },
{
    let n: usize = s.len();
    if s[i] != '\'' || n - i <= 2 || s[i + 1] == '\'' {
        return None;
    }
    if s[i + 1] != '\\' {
        return if s[i + 2] == '\'' {
            Some(i + 3)
        } else {
            None
        };
    }
    let mut j: usize = i + 3;
    while j < n
        invariant
            n == s@.len(),
            i + 3 <= j <= n,
            char_end(s@, i as int) == quote_end(s@, j as int),
        decreases n - j,
    {
        if s[j] == '\'' {
            return Some(j + 1);
        }
        j += 1;
    }
    None
}

/// Find the `//` comment start on a source line.
///
/// A `//` inside a string literal is not a comment. The scan tracks
/// string state, so `http://x` in a string does not open a comment. Char
/// literals are skipped, so `'"'` does not open a string.
fn find_comment_start(s: &Vec<char>) -> (r: Option<usize>)
    ensures
        match r {
            Some(p) => comment_start(s@, 0, false) == Some(p as int) && p + 2 <= s@.len(),
            None => comment_start(s@, 0, false) is None,
        },
{
    let mut in_string = false;
    let mut i: usize = 0;
    while i < s.len() && s.len() - i > 1
        invariant
            i <= s@.len(),
            comment_start(s@, 0, false) == comment_start(s@, i as int, in_string),
        decreases s@.len() - i,
    {
        let c = s[i];
        if in_string {
            if c == '\\' {
                i += 2;
            } else {
                in_string = c != '"';
                i += 1;
            }
        } else if let Some(e) = find_char_end(s, i) {
            i = e;
        } else if c == '"' {
            in_string = true;
            i += 1;
        } else if c == '/' && s[i + 1] == '/' {
            return Some(i);
        } else {
            i += 1;
        }
    }
    None
}

/// Adds the comment texts of a line, and tells whether a block comment is
/// open after it.
fn read_slash(out: &mut Vec<String>, in_block: bool, line: &Vec<char>) -> (r: bool)
    ensures
        r == slash_next(in_block, line@),
        lines::texts(final(out)@) == lines::texts(old(out)@) + slash_prose(in_block, line@),
{
    proof {
        text::lemma_white_end(line@, 0);
    }
    let w = text::skip_white(line, 0);
    let t = text::part_of(line, w, line.len());
    let n: usize = t.len();
    let ghost before = lines::texts(out@);
    proof {
        assert(t@ =~= text::trim_start(line@));
        reveal_strlit("*/");
        reveal_strlit("/*");
        text::lemma_find_from(t@, "*/"@, 0);
    }
    let close = text::chars_of("*/");
    let end = text::find(&t, &close, 0);
    if in_block {
        match end {
            Some(e) => {
                keep(out, &t, 0, e + 2);
                assert(t@.subrange(0, e + 2) =~= t@.take(e + 2));
                return false;
            },
            None => {
                let s = text::string_of(&t, 0, n);
                let ghost l = s@;
                out.push(s);
                assert(l =~= t@);
                assert(lines::texts(out@) =~= before + seq![l]);
                return true;
            },
        }
    }
    let ghost mut comment: Seq<Seq<char>> = Seq::empty();
    assert(before + comment =~= before);
    if let Some(p) = find_comment_start(&t) {
        keep(out, &t, p + 2, n);
        proof {
            assert(t@.subrange(p + 2, n as int) =~= t@.skip(p + 2));
            comment = kept(t@.skip(p + 2));
        }
    }
    let ghost middle = lines::texts(out@);
    assert(middle == before + comment);
    let opens = text::at_str(&t, "/*", 0);
    if !opens {
        assert(before + (comment + Seq::<Seq<char>>::empty()) =~= middle);
        return false;
    }
    let ghost rest = t@.skip(2);
    match end {
        None => {
            keep(out, &t, 2, n);
            assert(t@.subrange(2, n as int) =~= rest);
            assert(before + (comment + kept(rest)) =~= middle + kept(rest));
            true
        },
        Some(_) => {
            let content = text::part_of(&t, 2, n);
            assert(content@ =~= rest);
            match text::find(&content, &close, 0) {
                Some(e) => {
                    keep(out, &content, 0, e);
                    assert(content@.subrange(0, e as int) =~= rest.take(e as int));
                    assert(before + (comment + kept(rest.take(e as int))) =~= middle + kept(
                        rest.take(e as int),
                    ));
                },
                None => {
                    assert(before + (comment + Seq::<Seq<char>>::empty()) =~= middle);
                },
            }
            false
        },
    }
}

/// Extract `//` and `/* */` comment text from source code.
///
/// A `//` inside a string literal does not open a comment. The scan
/// tracks string state, so `http://x` in a string stays code.
fn extract_slash_comments(rows: &Vec<Vec<char>>) -> (r: Vec<String>)
    ensures
        lines::texts(r@) == slash_to(lines::rows(rows@), rows@.len() as int),
{
    let ghost all = lines::rows(rows@);
    let mut r: Vec<String> = Vec::new();
    let mut in_block = false;
    let mut i: usize = 0;
    assert(lines::texts(r@) =~= Seq::<Seq<char>>::empty());
    while i < rows.len()
        invariant
            all == lines::rows(rows@),
            i <= rows@.len(),
            in_block == slash_state(all, i as int),
            lines::texts(r@) == slash_to(all, i as int),
        decreases rows@.len() - i,
    {
        assert(all[i as int] == rows@[i as int]@);
        in_block = read_slash(&mut r, in_block, &rows[i]);
        i += 1;
    }
    r
}

/// Extract `#` comment lines from source code.
///
/// A shebang line (`#!`) is code, not prose. It is skipped, so its
/// `!` never acts as a sentence terminator.
fn extract_hash_comments(rows: &Vec<Vec<char>>) -> (r: Vec<String>)
    ensures
        lines::texts(r@) == hash_to(lines::rows(rows@), rows@.len() as int),
{
    let ghost all = lines::rows(rows@);
    let mut r: Vec<String> = Vec::new();
    let mut i: usize = 0;
    assert(lines::texts(r@) =~= Seq::<Seq<char>>::empty());
    while i < rows.len()
        invariant
            all == lines::rows(rows@),
            i <= rows@.len(),
            lines::texts(r@) == hash_to(all, i as int),
        decreases rows@.len() - i,
    {
        let ghost before = lines::texts(r@);
        assert(all[i as int] == rows@[i as int]@);
        let s = &rows[i];
        let n: usize = s.len();
        let w = text::skip_white(s, 0);
        let ghost t = text::trim_start(s@);
        proof {
            text::lemma_white_end(s@, 0);
            assert(t =~= s@.subrange(w as int, n as int));
        }
        if w < n && s[w] == '#' && !(n - w > 1 && s[w + 1] == '!') {
            keep(&mut r, s, w + 1, n);
            assert(s@.subrange(w + 1, n as int) =~= t.skip(1));
        } else {
            assert(before + Seq::<Seq<char>>::empty() =~= before);
        }
        i += 1;
    }
    r
}

// ── Extraction ─────────────────────────────────────────────────────────────

/// The prose lines of a text.
pub open spec fn prose(kind: LintKind, text: Seq<char>) -> Seq<Seq<char>> {
    let rows = lines::lines(text);
    match kind {
        LintKind::ProseFile => without_tables(without_code(rows)),
        LintKind::CommitMessage => without_tables(without_code(rows)),
        LintKind::SlashSource => slash_to(rows, rows.len() as int),
        LintKind::HashSource => hash_to(rows, rows.len() as int),
    }
}

/// Extract prose lines from the source text based on the content kind.
pub fn extract_prose_lines(kind: LintKind, text: &str) -> (r: Vec<String>)
    ensures
        lines::texts(r@) == prose(kind, text@),
{
    let rows = lines::lines_of(text);
    match kind {
        LintKind::SlashSource => extract_slash_comments(&rows),
        LintKind::HashSource => extract_hash_comments(&rows),
        _ => {
            let n = text::byte_length(text);
            proof {
                lines::lemma_lines(text@);
                assert forall|k: int| 0 <= k < rows@.len() implies text::byte_len(
                    #[trigger] rows@[k]@,
                ) <= usize::MAX by {
                    assert(lines::lines(text@)[k] == rows@[k]@);
                }
            }
            blank_out_markdown_tables(&blank_out_non_prose(&rows))
        },
    }
}

// ── Laws ───────────────────────────────────────────────────────────────────

proof fn lemma_without_spans(s: Seq<char>, i: int)
    requires
        0 <= i <= s.len(),
    ensures
        text::byte_len(without_spans(s, i)) == text::byte_len(s) - text::byte_offset(s, i),
        !s.contains('\n') ==> !without_spans(s, i).contains('\n'),
    decreases s.len() - i,
{
    if i < s.len() {
        lemma_span_at(s, i);
        let all = without_spans(s, i);
        match span_at(s, i) {
            Some(e) => {
                let piece = s.subrange(i, e);
                lemma_without_spans(s, e);
                text::lemma_byte_len_concat(blanked(piece), without_spans(s, e));
                text::lemma_byte_len_spaces(text::byte_len(piece));
                text::lemma_offset_subrange(s, i, e, e - i);
                let k = blanked(piece).len() as int;
                assert(forall|j: int| k <= j < all.len() ==> all[j] == without_spans(s, e)[j - k]);
            },
            None => {
                let e = literal_end(s, i);
                let piece = s.subrange(i, e);
                lemma_without_spans(s, e);
                text::lemma_byte_len_concat(piece, without_spans(s, e));
                text::lemma_offset_subrange(s, i, e, e - i);
                let k = e - i;
                assert(forall|j: int| 0 <= j < k ==> all[j] == s[i + j]);
                assert(forall|j: int| k <= j < all.len() ==> all[j] == without_spans(s, e)[j - k]);
            },
        }
    }
}

proof fn lemma_block_prose(st: BlockState, s: Seq<char>)
    ensures
        text::byte_len(block_prose(st, s)) == text::byte_len(s),
        !s.contains('\n') ==> !block_prose(st, s).contains('\n'),
{
    lemma_without_spans(s, 0);
    text::lemma_byte_len_spaces(text::byte_len(s));
}

/// The prose of a prose file or a commit message has as many lines as its
/// source, and each line takes as many bytes as its source line. So a line
/// and column of the prose name the same place in the source.
pub proof fn law_prose_keeps_layout(kind: LintKind, text: Seq<char>)
    requires
        !kind.is_source(),
    ensures
        prose(kind, text).len() == lines::lines(text).len(),
        forall|k: int|
            0 <= k < prose(kind, text).len() ==> text::byte_len(#[trigger] prose(kind, text)[k])
                == text::byte_len(lines::lines(text)[k]),
{
    let rows = lines::lines(text);
    let mid = without_code(rows);
    assert forall|k: int| 0 <= k < prose(kind, text).len() implies text::byte_len(
        #[trigger] prose(kind, text)[k],
    ) == text::byte_len(rows[k]) by {
        lemma_block_prose(block_state(rows, k), rows[k]);
        text::lemma_byte_len_spaces(text::byte_len(mid[k]));
    }
}

/// Line `k` is part of a fenced code block, an HTML comment, an indented
/// code block or a table.
pub open spec fn holds_no_prose(rows: Seq<Seq<char>>, k: int) -> bool {
    let st = block_state(rows, k);
    let s = rows[k];
    ||| st.fence is Some
    ||| fence(s) is Some
    ||| st.comment
    ||| text::starts_with(text::trim_start(s), "<!--"@)
    ||| text::indent(s) >= 4
    ||| in_table(without_code(rows), k)
}

/// The lines of fenced code blocks, HTML comments, indented code blocks and
/// tables are blanked out.
pub proof fn law_code_lines_are_blank(kind: LintKind, text: Seq<char>, k: int)
    requires
        !kind.is_source(),
        0 <= k < lines::lines(text).len(),
        holds_no_prose(lines::lines(text), k),
    ensures
        prose(kind, text)[k] == blanked(lines::lines(text)[k]),
{
    let rows = lines::lines(text);
    lemma_block_prose(block_state(rows, k), rows[k]);
    text::lemma_byte_len_spaces(text::byte_len(rows[k]));
}

/// A code span that opens where prose is read is replaced by spaces.
pub proof fn law_code_spans_are_blank(s: Seq<char>, i: int)
    requires
        0 <= i < s.len(),
        span_at(s, i) is Some,
    ensures
        without_spans(s, i) == blanked(s.subrange(i, span_at(s, i)->0)) + without_spans(
            s,
            span_at(s, i)->0,
        ),
{
}

proof fn lemma_kept(s: Seq<char>, line: Seq<char>)
    requires
        forall|i: int| 0 <= i < s.len() ==> line.contains(#[trigger] s[i]),
        !line.contains('\n'),
    ensures
        forall|k: int| 0 <= k < kept(s).len() ==> !(#[trigger] kept(s)[k]).contains('\n'),
{
    text::lemma_trim(s);
    let w = text::white_end(s, 0);
    let u = text::trim_start(s);
    text::lemma_white_start(u, u.len() as int);
    let t = text::trim(s);
    assert forall|j: int| 0 <= j < t.len() implies t[j] != '\n' by {
        assert(t[j] == s[w + j]);
    }
}

proof fn lemma_comment_start(s: Seq<char>, i: int, in_string: bool)
    requires
        0 <= i,
    ensures
        comment_start(s, i, in_string) matches Some(p) ==> 0 <= p && p + 2 <= s.len(),
    decreases s.len() - i,
{
    if i + 1 < s.len() {
        lemma_quote_end(s, i + 3);
        if let Some(e) = char_end(s, i) {
            lemma_comment_start(s, e, false);
        }
        lemma_comment_start(s, i + 1, true);
        lemma_comment_start(s, i + 1, false);
        if i + 2 <= s.len() {
            lemma_comment_start(s, i + 2, true);
        }
    }
}

proof fn lemma_slash_prose(in_block: bool, s: Seq<char>)
    requires
        !s.contains('\n'),
    ensures
        forall|k: int|
            0 <= k < slash_prose(in_block, s).len() ==> !(#[trigger] slash_prose(
                in_block,
                s,
            )[k]).contains('\n'),
{
    text::lemma_white_end(s, 0);
    let t = text::trim_start(s);
    reveal_strlit("*/");
    reveal_strlit("/*");
    assert forall|i: int| 0 <= i < t.len() implies s.contains(#[trigger] t[i]) by {
        assert(t[i] == s[text::white_end(s, 0) + i]);
    }
    text::lemma_find_from(t, "*/"@, 0);
    lemma_comment_start(t, 0, false);
    if in_block {
        if let Some(e) = text::find_from(t, "*/"@, 0) {
            assert(forall|i: int| 0 <= i < e + 2 ==> t.take(e + 2)[i] == t[i]);
            lemma_kept(t.take(e + 2), s);
        }
    } else {
        let line = match comment_start(t, 0, false) {
            Some(p) => kept(t.skip(p + 2)),
            None => Seq::empty(),
        };
        if let Some(p) = comment_start(t, 0, false) {
            assert(forall|i: int|
                0 <= i < t.len() - p - 2 ==> (#[trigger] t.skip(p + 2)[i]) == t[i + p + 2]);
            lemma_kept(t.skip(p + 2), s);
        }
        if text::starts_with(t, "/*"@) {
            let rest = t.skip(2);
            assert(forall|i: int| 0 <= i < rest.len() ==> (#[trigger] rest[i]) == t[i + 2]);
            lemma_kept(rest, s);
            text::lemma_find_from(rest, "*/"@, 0);
            if let Some(e) = text::find_from(rest, "*/"@, 0) {
                assert(forall|i: int| 0 <= i < e ==> rest.take(e)[i] == rest[i]);
                lemma_kept(rest.take(e), s);
            }
        }
        let all = slash_prose(in_block, s);
        let n = line.len() as int;
        let body = all.skip(n);
        assert forall|k: int| 0 <= k < all.len() implies !(#[trigger] all[k]).contains('\n') by {
            if k < n {
                assert(all[k] == line[k]);
            }
        }
    }
}

proof fn lemma_hash_prose(s: Seq<char>)
    requires
        !s.contains('\n'),
    ensures
        forall|k: int|
            0 <= k < hash_prose(s).len() ==> !(#[trigger] hash_prose(s)[k]).contains('\n'),
{
    text::lemma_white_end(s, 0);
    let t = text::trim_start(s);
    if t.len() > 0 {
        assert forall|i: int| 0 <= i < t.skip(1).len() implies s.contains(
            #[trigger] t.skip(1)[i],
        ) by {
            assert(t.skip(1)[i] == s[text::white_end(s, 0) + i + 1]);
        }
        lemma_kept(t.skip(1), s);
    }
}

proof fn lemma_comments(rows: Seq<Seq<char>>, n: int)
    requires
        0 <= n <= rows.len(),
        forall|k: int| 0 <= k < rows.len() ==> !(#[trigger] rows[k]).contains('\n'),
    ensures
        forall|k: int| 0 <= k < slash_to(rows, n).len() ==> !(#[trigger] slash_to(rows, n)[k]).contains('\n'),
        forall|k: int| 0 <= k < hash_to(rows, n).len() ==> !(#[trigger] hash_to(rows, n)[k]).contains('\n'),
    decreases n,
{
    if n > 0 {
        lemma_comments(rows, n - 1);
        assert(!rows[n - 1].contains('\n'));
        lemma_slash_prose(slash_state(rows, n - 1), rows[n - 1]);
        lemma_hash_prose(rows[n - 1]);
        let a = slash_to(rows, n - 1);
        let b = slash_prose(slash_state(rows, n - 1), rows[n - 1]);
        let all = slash_to(rows, n);
        assert forall|k: int| 0 <= k < all.len() implies !(#[trigger] all[k]).contains('\n') by {
            if k < a.len() {
                assert(all[k] == a[k]);
            } else {
                assert(all[k] == b[k - a.len()]);
            }
        }
        let a = hash_to(rows, n - 1);
        let b = hash_prose(rows[n - 1]);
        let all = hash_to(rows, n);
        assert forall|k: int| 0 <= k < all.len() implies !(#[trigger] all[k]).contains('\n') by {
            if k < a.len() {
                assert(all[k] == a[k]);
            } else {
                assert(all[k] == b[k - a.len()]);
            }
        }
    }
}

/// No prose line holds a line feed.
pub proof fn law_prose_lines_are_single_lines(kind: LintKind, text: Seq<char>)
    ensures
        forall|k: int|
            0 <= k < prose(kind, text).len() ==> !(#[trigger] prose(kind, text)[k]).contains('\n'),
{
    let rows = lines::lines(text);
    lines::lemma_lines(text);
    lemma_comments(rows, rows.len() as int);
    if !kind.is_source() {
        assert forall|k: int| 0 <= k < prose(kind, text).len() implies !(#[trigger] prose(
            kind,
            text,
        )[k]).contains('\n') by {
            lemma_block_prose(block_state(rows, k), rows[k]);
        }
    }
}

} // verus!

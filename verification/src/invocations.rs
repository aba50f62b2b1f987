//! Laws of commit messages in shell commands.

use vstd::prelude::*;

use crate::commit;
use crate::commit::CommitModel;
use crate::lists;
use crate::rules;
use crate::text;

verus! {

// ── Tokens ─────────────────────────────────────────────────────────────────

/// A character between the words of a command: white space, `;` or `&`.
pub open spec fn is_gap(c: char) -> bool {
    text::is_white(c) || c == ';' || c == '&'
}

/// A single or a double quote.
pub open spec fn is_quote_mark(c: char) -> bool {
    c == '\'' || c == '"'
}

/// A text without quotes.
pub open spec fn is_unquoted(s: Seq<char>) -> bool {
    forall|i: int| 0 <= i < s.len() ==> !is_quote_mark(#[trigger] s[i])
}

/// A word: a text that is not empty, without quotes and without gaps.
pub open spec fn is_bare_word(s: Seq<char>) -> bool {
    s.len() > 0 && is_unquoted(s) && forall|i: int|
        0 <= i < s.len() ==> !is_gap(#[trigger] s[i])
}

/// What follows a word: nothing, or a gap.
pub open spec fn is_tail(s: Seq<char>) -> bool {
    s.len() == 0 || is_gap(s[0])
}

/// A text in quotes.
pub open spec fn in_quotes(q: char, m: Seq<char>) -> Seq<char> {
    seq![q] + m + seq![q]
}

proof fn lemma_shift(
    s: Seq<char>,
    t: Seq<char>,
    off: int,
    i: int,
    cur: Seq<char>,
    in_single: bool,
    in_double: bool,
)
    requires
        0 <= off,
        0 <= i <= t.len(),
        s.len() == off + t.len(),
        forall|k: int| 0 <= k < t.len() ==> s[off + k] == t[k],
    ensures
        commit::tokens_from(s, off + i, cur, in_single, in_double) == commit::tokens_from(
            t,
            i,
            cur,
            in_single,
            in_double,
        ),
    decreases t.len() - i,
{
    if i < t.len() {
        assert(s[off + i] == t[i]);
        let c = t[i];
        if c == '\'' && !in_double {
            lemma_shift(s, t, off, i + 1, cur, !in_single, in_double);
        } else if c == '"' && !in_single {
            lemma_shift(s, t, off, i + 1, cur, in_single, !in_double);
        } else {
            lemma_shift(s, t, off, i + 1, Seq::empty(), in_single, in_double);
            lemma_shift(s, t, off, i + 1, cur.push(c), in_single, in_double);
        }
    }
}

/// Outside quotes, a stretch without quotes and gaps goes to the word.
proof fn lemma_bare(s: Seq<char>, i: int, j: int, cur: Seq<char>)
    requires
        0 <= i <= j <= s.len(),
        forall|k: int| i <= k < j ==> !is_quote_mark(#[trigger] s[k]) && !is_gap(s[k]),
    ensures
        commit::tokens_from(s, i, cur, false, false) == commit::tokens_from(
            s,
            j,
            cur + s.subrange(i, j),
            false,
            false,
        ),
    decreases j - i,
{
    if i < j {
        assert(!is_quote_mark(s[i]) && !is_gap(s[i]));
        lemma_bare(s, i + 1, j, cur.push(s[i]));
        assert(cur.push(s[i]) + s.subrange(i + 1, j) =~= cur + s.subrange(i, j));
    } else {
        assert(cur + s.subrange(i, j) =~= cur);
    }
}

/// Inside quotes, a stretch without that quote goes to the word.
proof fn lemma_quoted(s: Seq<char>, i: int, j: int, cur: Seq<char>, q: char)
    requires
        0 <= i <= j <= s.len(),
        is_quote_mark(q),
        forall|k: int| i <= k < j ==> #[trigger] s[k] != q,
    ensures
        commit::tokens_from(s, i, cur, q == '\'', q == '"') == commit::tokens_from(
            s,
            j,
            cur + s.subrange(i, j),
            q == '\'',
            q == '"',
        ),
    decreases j - i,
{
    if i < j {
        assert(s[i] != q);
        lemma_quoted(s, i + 1, j, cur.push(s[i]), q);
        assert(cur.push(s[i]) + s.subrange(i + 1, j) =~= cur + s.subrange(i, j));
    } else {
        assert(cur + s.subrange(i, j) =~= cur);
    }
}

/// A word that was read ends before a gap and at the end.
proof fn lemma_word_ends(s: Seq<char>, i: int, cur: Seq<char>, rest: Seq<char>)
    requires
        0 <= i <= s.len(),
        rest == s.skip(i),
        is_tail(rest),
        cur.len() > 0,
    ensures
        commit::tokens_from(s, i, cur, false, false) == seq![cur] + commit::tokens(rest),
{
    if i < s.len() {
        assert(rest[0] == s[i]);
        assert(!is_quote_mark(s[i]));
        let after = rest.skip(1);
        lemma_shift(s, rest, i, 1, Seq::empty(), false, false);
        assert(commit::tokens(rest) =~= rules::nonempty(Seq::<char>::empty())
            + commit::tokens_from(rest, 1, Seq::empty(), false, false));
        assert(rules::nonempty(Seq::<char>::empty()) + commit::tokens_from(
            rest,
            1,
            Seq::empty(),
            false,
            false,
        ) =~= commit::tokens_from(rest, 1, Seq::empty(), false, false));
    } else {
        assert(commit::tokens(rest) =~= Seq::<Seq<char>>::empty());
        assert(seq![cur] + commit::tokens(rest) =~= seq![cur]);
    }
}

/// A word without quotes is one token, and what follows it is read by itself.
pub proof fn law_bare_word_is_one_token(w: Seq<char>, rest: Seq<char>)
    requires
        is_bare_word(w),
        is_tail(rest),
    ensures
        commit::tokens(w + rest) == seq![w] + commit::tokens(rest),
{
    let s = w + rest;
    let n = w.len() as int;
    assert forall|k: int| 0 <= k < n implies !is_quote_mark(#[trigger] s[k]) && !is_gap(s[k]) by {
        assert(s[k] == w[k]);
    }
    lemma_bare(s, 0, n, Seq::empty());
    assert(Seq::<char>::empty() + s.subrange(0, n) =~= w);
    assert(s.skip(n) =~= rest);
    lemma_word_ends(s, n, w, rest);
}

/// A text in quotes is one token, whatever else it holds. A word right before
/// it belongs to the token.
pub proof fn law_quoted_text_is_one_token(
    w: Seq<char>,
    q: char,
    m: Seq<char>,
    rest: Seq<char>,
)
    requires
        w.len() == 0 || is_bare_word(w),
        is_quote_mark(q),
        !m.contains(q),
        w.len() + m.len() > 0,
        is_tail(rest),
    ensures
        commit::tokens(w + in_quotes(q, m) + rest) == seq![w + m] + commit::tokens(rest),
{
    let s = w + in_quotes(q, m) + rest;
    let n = w.len() as int;
    let e = n + 1 + m.len();
    assert forall|k: int| 0 <= k < n implies !is_quote_mark(#[trigger] s[k]) && !is_gap(s[k]) by {
        assert(s[k] == w[k]);
    }
    lemma_bare(s, 0, n, Seq::empty());
    assert(Seq::<char>::empty() + s.subrange(0, n) =~= w);
    assert(s[n] == q);
    assert forall|k: int| n + 1 <= k < e implies #[trigger] s[k] != q by {
        assert(s[k] == m[k - n - 1]);
    }
    lemma_quoted(s, n + 1, e, w, q);
    assert(s.subrange(n + 1, e) =~= m);
    assert(s[e] == q);
    assert(s.skip(e + 1) =~= rest);
    lemma_word_ends(s, e + 1, w + m, rest);
}

/// Gaps are no part of a token.
pub proof fn law_gap_is_dropped(c: char, rest: Seq<char>)
    requires
        is_gap(c),
    ensures
        commit::tokens(seq![c] + rest) == commit::tokens(rest),
{
    let s = seq![c] + rest;
    assert(s[0] == c);
    lemma_shift(s, rest, 1, 0, Seq::empty(), false, false);
    let more = commit::tokens_from(s, 1, Seq::empty(), false, false);
    assert(rules::nonempty(Seq::<char>::empty()) + more =~= more);
}

/// An empty command has no tokens.
pub proof fn law_no_tokens()
    ensures
        commit::tokens(Seq::empty()).len() == 0,
{
}

proof fn lemma_tokens_concat(p: Seq<char>, rest: Seq<char>, i: int, cur: Seq<char>)
    requires
        0 <= i <= p.len(),
        is_unquoted(p),
        p.len() > 0 ==> is_gap(p.last()),
        i == p.len() ==> cur.len() == 0,
    ensures
        commit::tokens_from(p + rest, i, cur, false, false) == commit::tokens_from(
            p,
            i,
            cur,
            false,
            false,
        ) + commit::tokens(rest),
    decreases p.len() - i,
{
    let s = p + rest;
    if i < p.len() {
        assert(s[i] == p[i]);
        assert(!is_quote_mark(p[i]));
        if is_gap(p[i]) {
            lemma_tokens_concat(p, rest, i + 1, Seq::empty());
            let head = rules::nonempty(cur);
            let more = commit::tokens_from(p, i + 1, Seq::empty(), false, false);
            assert(head + (more + commit::tokens(rest)) =~= head + more + commit::tokens(rest));
        } else {
            lemma_tokens_concat(p, rest, i + 1, cur.push(p[i]));
        }
    } else {
        assert(cur =~= Seq::<char>::empty());
        lemma_shift(s, rest, p.len() as int, 0, cur, false, false);
        assert(commit::tokens_from(p, i, cur, false, false) =~= Seq::<Seq<char>>::empty());
        assert(Seq::<Seq<char>>::empty() + commit::tokens(rest) =~= commit::tokens(rest));
    }
}

/// What stands after a gap is read by itself, when no quote is open there.
pub proof fn law_tokens_concatenate(p: Seq<char>, rest: Seq<char>)
    requires
        is_unquoted(p),
        p.len() > 0 ==> is_gap(p.last()),
    ensures
        commit::tokens(p + rest) == commit::tokens(p) + commit::tokens(rest),
{
    lemma_tokens_concat(p, rest, 0, Seq::empty());
}

// ── Commits ────────────────────────────────────────────────────────────────

/// A flag of a commit that gives no message.
pub open spec fn is_other_flag(t: Seq<char>) -> bool {
    &&& text::starts_with(t, "-"@)
    &&& t != "-"@
    &&& t != "-m"@
    &&& t != "--message"@
    &&& !text::starts_with(t, "--message="@)
}

/// All of a list are flags that give no message.
pub open spec fn are_other_flags(v: Seq<Seq<char>>) -> bool {
    forall|k: int| 0 <= k < v.len() ==> is_other_flag(#[trigger] v[k])
}

/// No token of a list is `git`.
pub open spec fn is_without_git(v: Seq<Seq<char>>) -> bool {
    forall|k: int| 0 <= k < v.len() ==> #[trigger] v[k] != "git"@
}

/// A message that holds a `$` or a backtick has to be given explicitly.
pub open spec fn message_of(m: Seq<char>) -> CommitModel {
    CommitModel { message: m, requires_explicit_message: m.contains('$') || m.contains('`') }
}

proof fn lemma_commits_shift(v: Seq<Seq<char>>, w: Seq<Seq<char>>, off: int, i: int)
    requires
        0 <= off,
        0 <= i,
        v.len() == off + w.len(),
        forall|k: int| 0 <= k < w.len() ==> v[off + k] == w[k],
    ensures
        commit::commits_from(v, off + i) == commit::commits_from(w, i),
    decreases w.len() + 1 - i,
{
    if i < w.len() {
        assert(v[off + i] == w[i]);
        if i + 1 < w.len() {
            assert(v[off + (i + 1)] == w[i + 1]);
            lemma_flags_shift(v, w, off, i + 2);
            commit::lemma_read_flags(w, i + 2);
            let stop = commit::read_flags(w, i + 2).1;
            if w[i] == "git"@ && w[i + 1] == "commit"@ {
                if commit::read_flags(w, i + 2).0 is Some {
                    lemma_commits_shift(v, w, off, stop + 1);
                } else {
                    lemma_commits_shift(v, w, off, stop);
                }
            }
        }
        lemma_commits_shift(v, w, off, i + 1);
    }
}

proof fn lemma_flags_shift(v: Seq<Seq<char>>, w: Seq<Seq<char>>, off: int, i: int)
    requires
        0 <= off,
        0 <= i <= w.len(),
        v.len() == off + w.len(),
        forall|k: int| 0 <= k < w.len() ==> v[off + k] == w[k],
    ensures
        commit::read_flags(v, off + i).0 == commit::read_flags(w, i).0,
        commit::read_flags(v, off + i).1 == off + commit::read_flags(w, i).1,
    decreases w.len() - i,
{
    if i < w.len() {
        assert(v[off + i] == w[i]);
        if i + 1 < w.len() {
            assert(v[off + (i + 1)] == w[i + 1]);
        }
        lemma_flags_shift(v, w, off, i + 1);
    }
}

proof fn lemma_skip_flags(v: Seq<Seq<char>>, i: int, j: int)
    requires
        0 <= i <= j <= v.len(),
        forall|k: int| i <= k < j ==> is_other_flag(#[trigger] v[k]),
    ensures
        commit::read_flags(v, i) == commit::read_flags(v, j),
    decreases j - i,
{
    if i < j {
        assert(is_other_flag(v[i]));
        lemma_skip_flags(v, i + 1, j);
    }
}

proof fn lemma_skip_tokens(v: Seq<Seq<char>>, i: int, j: int)
    requires
        0 <= i <= j <= v.len(),
        forall|k: int| i <= k < j ==> #[trigger] v[k] != "git"@,
    ensures
        commit::commits_from(v, i) == commit::commits_from(v, j),
    decreases j - i,
{
    if i < j {
        assert(v[i] != "git"@);
        lemma_skip_tokens(v, i + 1, j);
    }
}

/// Tokens without `git` hold no commit.
pub proof fn law_no_git_no_commit(v: Seq<Seq<char>>)
    requires
        is_without_git(v),
    ensures
        commit::commits_from(v, 0).len() == 0,
{
    lemma_skip_tokens(v, 0, v.len() as int);
}

/// The tokens of a commit: what stands before it, its flags, and what
/// follows them.
pub open spec fn commit_tokens(
    before: Seq<Seq<char>>,
    flags: Seq<Seq<char>>,
    after: Seq<Seq<char>>,
) -> Seq<Seq<char>> {
    before + seq!["git"@, "commit"@] + flags + after
}

/// Reading comes to the commit and past its flags.
proof fn lemma_commit_tokens(
    before: Seq<Seq<char>>,
    flags: Seq<Seq<char>>,
    after: Seq<Seq<char>>,
)
    requires
        is_without_git(before),
        are_other_flags(flags),
    ensures
        ({
            let v = commit_tokens(before, flags, after);
            let g = before.len() as int;
            let a = g + 2 + flags.len();
            &&& commit::commits_from(v, 0) == commit::commits_from(v, g)
            &&& v[g] == "git"@
            &&& v[g + 1] == "commit"@
            &&& commit::read_flags(v, g + 2) == commit::read_flags(v, a)
            &&& v.len() == a + after.len()
            &&& forall|k: int| 0 <= k < after.len() ==> v[a + k] == after[k]
        }),
{
    let v = commit_tokens(before, flags, after);
    let g = before.len() as int;
    let a = g + 2 + flags.len();
    assert forall|k: int| 0 <= k < g implies #[trigger] v[k] != "git"@ by {
        assert(v[k] == before[k]);
    }
    assert forall|k: int| g + 2 <= k < a implies is_other_flag(#[trigger] v[k]) by {
        assert(v[k] == flags[k - g - 2]);
    }
    lemma_skip_tokens(v, 0, g);
    lemma_skip_flags(v, g + 2, a);
}

/// The token after `-m` or `--message` is the message of the commit. What
/// follows it is read by itself.
pub proof fn law_message_follows_its_flag(
    before: Seq<Seq<char>>,
    flags: Seq<Seq<char>>,
    flag: Seq<char>,
    m: Seq<char>,
    after: Seq<Seq<char>>,
)
    requires
        is_without_git(before),
        are_other_flags(flags),
        flag == "-m"@ || flag == "--message"@,
    ensures
        commit::commits_from(commit_tokens(before, flags, seq![flag, m] + after), 0) == seq![
            message_of(m),
        ] + commit::commits_from(after, 0),
{
    let tail = seq![flag, m] + after;
    let v = commit_tokens(before, flags, tail);
    lemma_commit_tokens(before, flags, tail);
    let g = before.len() as int;
    let a = g + 2 + flags.len();
    assert(v[a + 0] == tail[0] && v[a + 1] == tail[1]);
    assert forall|k: int| 0 <= k < after.len() implies v[a + 2 + k] == after[k] by {
        assert(v[a + (2 + k)] == tail[2 + k]);
    }
    lemma_commits_shift(v, after, a + 2, 0);
}

/// What follows `--message=` is the message of the commit.
pub proof fn law_message_is_part_of_its_flag(
    before: Seq<Seq<char>>,
    flags: Seq<Seq<char>>,
    m: Seq<char>,
    after: Seq<Seq<char>>,
)
    requires
        is_without_git(before),
        are_other_flags(flags),
    ensures
        commit::commits_from(
            commit_tokens(before, flags, seq!["--message="@ + m] + after),
            0,
        ) == seq![message_of(m)] + commit::commits_from(after, 0),
{
    let flag = "--message="@ + m;
    let tail = seq![flag] + after;
    let v = commit_tokens(before, flags, tail);
    lemma_commit_tokens(before, flags, tail);
    let g = before.len() as int;
    let a = g + 2 + flags.len();
    reveal_strlit("-m");
    reveal_strlit("--message");
    reveal_strlit("--message=");
    assert("--message="@.len() == 10 && "--message="@[9] == '=');
    assert("-m"@.len() == 2);
    assert("--message"@.len() == 9);
    assert(v[a + 0] == tail[0]);
    assert(flag.len() >= 10);
    assert(flag.subrange(0, 10) =~= "--message="@);
    assert(flag.skip(10) =~= m);
    assert forall|k: int| 0 <= k < after.len() implies v[a + 1 + k] == after[k] by {
        assert(v[a + (1 + k)] == tail[1 + k]);
    }
    lemma_commits_shift(v, after, a + 1, 0);
}

/// A commit without a message gives none. What follows its flags is read by
/// itself.
pub proof fn law_commit_without_a_message(
    before: Seq<Seq<char>>,
    flags: Seq<Seq<char>>,
    after: Seq<Seq<char>>,
)
    requires
        is_without_git(before),
        are_other_flags(flags),
        after.len() > 0 ==> after[0] == "-"@ || !text::starts_with(after[0], "-"@),
    ensures
        commit::commits_from(commit_tokens(before, flags, after), 0) == commit::commits_from(
            after,
            0,
        ),
{
    let v = commit_tokens(before, flags, after);
    lemma_commit_tokens(before, flags, after);
    let g = before.len() as int;
    let a = g + 2 + flags.len();
    if after.len() > 0 {
        let t = after[0];
        assert(v[a + 0] == t);
        reveal_strlit("-");
        reveal_strlit("-m");
        reveal_strlit("--message");
        reveal_strlit("--message=");
        assert("-"@.len() == 1 && "-m"@.len() == 2 && "--message"@.len() == 9);
        assert("-m"@.subrange(0, 1) =~= "-"@);
        assert("--message"@.subrange(0, 1) =~= "-"@);
        if text::starts_with(t, "--message="@) {
            assert(t.subrange(0, 10)[0] == '-');
            assert(t.subrange(0, 1) =~= "-"@);
            assert(t.len() >= 10);
        }
    }
    lemma_commits_shift(v, after, a, 0);
}

proof fn lemma_words_of_a_commit()
    ensures
        is_bare_word("git"@),
        is_bare_word("commit"@),
        is_bare_word("-m"@),
        "git commit -m "@ == "git"@ + seq![' '] + "commit"@ + seq![' '] + "-m"@ + seq![' '],
{
    reveal_strlit("git");
    reveal_strlit("commit");
    reveal_strlit("-m");
    reveal_strlit("git commit -m ");
    assert("git commit -m "@ =~= "git"@ + seq![' '] + "commit"@ + seq![' '] + "-m"@ + seq![' ']);
}

/// The command `git commit -m "m"`, after other commands without quotes and
/// without `git`, has one commit. Its message is `m`, whatever `m` holds but
/// the quote.
pub proof fn law_quoted_message_is_found(p: Seq<char>, q: char, m: Seq<char>)
    requires
        is_unquoted(p),
        p.len() > 0 ==> is_gap(p.last()),
        is_without_git(commit::tokens(p)),
        is_quote_mark(q),
        m.len() > 0,
        !m.contains(q),
    ensures
        commit::commits(p + "git commit -m "@ + in_quotes(q, m)) == seq![message_of(m)],
{
    lemma_words_of_a_commit();
    let none = Seq::<char>::empty();
    let e = in_quotes(q, m);
    let d = seq![' '] + e;
    let c = "-m"@ + d;
    let b = seq![' '] + c;
    let a = "commit"@ + b;
    let z = seq![' '] + a;
    let all = "git"@ + z;
    assert(p + "git commit -m "@ + e =~= p + all);
    law_tokens_concatenate(p, all);
    law_bare_word_is_one_token("git"@, z);
    law_gap_is_dropped(' ', a);
    law_bare_word_is_one_token("commit"@, b);
    law_gap_is_dropped(' ', c);
    law_bare_word_is_one_token("-m"@, d);
    law_gap_is_dropped(' ', e);
    law_quoted_text_is_one_token(none, q, m, none);
    assert(none + e + none =~= e);
    assert(none + m =~= m);
    let tokens = commit::tokens(p + all);
    let pre = commit::tokens(p);
    let no_flags = Seq::<Seq<char>>::empty();
    assert(commit::tokens(none) =~= no_flags);
    assert(tokens =~= commit_tokens(pre, no_flags, seq!["-m"@, m] + no_flags));
    law_message_follows_its_flag(pre, no_flags, "-m"@, m, no_flags);
    assert(commit::commits_from(no_flags, 0) =~= Seq::<CommitModel>::empty());
    assert(seq![message_of(m)] + commit::commits_from(no_flags, 0) =~= seq![message_of(m)]);
}

// ── Words made of parts ────────────────────────────────────────────────────

/// A part of a word: a text in quotes, or a text without quotes and gaps.
pub open spec fn is_part(part: (Option<char>, Seq<char>)) -> bool {
    match part.0 {
        Some(q) => is_quote_mark(q) && !part.1.contains(q),
        None => is_bare_word(part.1),
    }
}

/// All of a list are parts of a word.
pub open spec fn are_parts(v: Seq<(Option<char>, Seq<char>)>) -> bool {
    forall|k: int| 0 <= k < v.len() ==> is_part(#[trigger] v[k])
}

/// How a part is written.
pub open spec fn written(part: (Option<char>, Seq<char>)) -> Seq<char> {
    match part.0 {
        Some(q) => in_quotes(q, part.1),
        None => part.1,
    }
}

/// How a word is written: its parts one after the other.
pub open spec fn written_word(v: Seq<(Option<char>, Seq<char>)>) -> Seq<char> {
    lists::collected(v.len(), |k: int| written(v[k]))
}

/// What a word says: its parts one after the other, without their quotes.
pub open spec fn word_value(v: Seq<(Option<char>, Seq<char>)>) -> Seq<char> {
    lists::collected(v.len(), |k: int| v[k].1)
}

/// Reading a part adds what it says to the word.
proof fn lemma_part(s: Seq<char>, i: int, part: (Option<char>, Seq<char>), cur: Seq<char>)
    requires
        is_part(part),
        0 <= i,
        i + written(part).len() <= s.len(),
        s.subrange(i, i + written(part).len()) == written(part),
    ensures
        commit::tokens_from(s, i, cur, false, false) == commit::tokens_from(
            s,
            i + written(part).len(),
            cur + part.1,
            false,
            false,
        ),
{
    let t = written(part);
    let e = i + t.len();
    let m = part.1;
    assert(forall|k: int| 0 <= k < t.len() ==> t[k] == s[i + k]) by {
        let u = s.subrange(i, e);
        assert(forall|k: int| 0 <= k < t.len() ==> u[k] == s[i + k]);
    }
    match part.0 {
        Some(q) => {
            assert(t[0] == q && t[t.len() - 1] == q);
            assert(s[i] == q && s[e - 1] == q);
            assert forall|k: int| i + 1 <= k < e - 1 implies #[trigger] s[k] != q by {
                assert(t[k - i] == m[k - i - 1]);
                assert(m.contains(m[k - i - 1]));
            }
            lemma_quoted(s, i + 1, e - 1, cur, q);
            assert(s.subrange(i + 1, e - 1) =~= m) by {
                assert forall|k: int| 0 <= k < m.len() implies s.subrange(i + 1, e - 1)[k] == m[k] by {
                    assert(t[k + 1] == m[k]);
                }
            }
        },
        None => {
            assert forall|k: int| i <= k < e implies !is_quote_mark(#[trigger] s[k]) && !is_gap(
                s[k],
            ) by {
                assert(t[k - i] == s[k]);
            }
            lemma_bare(s, i, e, cur);
        },
    }
}

proof fn lemma_word(s: Seq<char>, v: Seq<(Option<char>, Seq<char>)>)
    requires
        are_parts(v),
        written_word(v).len() <= s.len(),
        s.subrange(0, written_word(v).len() as int) == written_word(v),
    ensures
        commit::tokens(s) == commit::tokens_from(
            s,
            written_word(v).len() as int,
            word_value(v),
            false,
            false,
        ),
    decreases v.len(),
{
    let f = |k: int| written(v[k]);
    let g = |k: int| v[k].1;
    lists::lemma_collected(v.len(), f);
    lists::lemma_collected(v.len(), g);
    if v.len() > 0 {
        let w = v.drop_last();
        let last = v.last();
        let n = (v.len() - 1) as nat;
        assert(Seq::new(n, |k: int| written(w[k])) =~= Seq::new(n, f));
        assert(Seq::new(n, |k: int| w[k].1) =~= Seq::new(n, g));
        assert(written_word(v) == written_word(w) + written(last));
        assert(word_value(v) == word_value(w) + last.1);
        let a = written_word(w).len() as int;
        let b = written_word(v).len() as int;
        assert forall|k: int| 0 <= k < w.len() implies is_part(#[trigger] w[k]) by {
            assert(w[k] == v[k]);
        }
        let all = s.subrange(0, b);
        assert(s.subrange(0, a) =~= written_word(w)) by {
            assert forall|k: int| 0 <= k < a implies s.subrange(0, a)[k] == written_word(w)[k] by {
                assert(all[k] == written_word(v)[k]);
            }
        }
        lemma_word(s, w);
        assert(s.subrange(a, b) =~= written(last)) by {
            assert forall|k: int| 0 <= k < b - a implies s.subrange(a, b)[k] == written(last)[k] by {
                assert(all[a + k] == written_word(v)[a + k]);
            }
        }
        assert(is_part(v[v.len() - 1]));
        lemma_part(s, a, last, word_value(w));
    } else {
        assert(word_value(v) =~= Seq::<char>::empty());
    }
}

/// A word of any number of parts is one token: what its parts say, one after
/// the other. A word that says nothing is no token.
pub proof fn law_word_is_one_token(v: Seq<(Option<char>, Seq<char>)>, rest: Seq<char>)
    requires
        are_parts(v),
        is_tail(rest),
    ensures
        word_value(v).len() > 0 ==> commit::tokens(written_word(v) + rest) == seq![word_value(v)]
            + commit::tokens(rest),
        word_value(v).len() == 0 ==> commit::tokens(written_word(v) + rest) == commit::tokens(
            rest,
        ),
{
    let s = written_word(v) + rest;
    let n = written_word(v).len() as int;
    assert(s.subrange(0, n) =~= written_word(v));
    lemma_word(s, v);
    assert(s.skip(n) =~= rest);
    if word_value(v).len() > 0 {
        lemma_word_ends(s, n, word_value(v), rest);
    } else {
        assert(word_value(v) =~= Seq::<char>::empty());
        lemma_shift(s, rest, n, 0, Seq::empty(), false, false);
    }
}

/// A quote that does not close takes the rest of the command into its token.
pub proof fn law_open_quote_takes_the_rest(w: Seq<char>, q: char, m: Seq<char>)
    requires
        w.len() == 0 || is_bare_word(w),
        is_quote_mark(q),
        !m.contains(q),
        w.len() + m.len() > 0,
    ensures
        commit::tokens(w + seq![q] + m) == seq![w + m],
{
    let s = w + seq![q] + m;
    let n = w.len() as int;
    assert forall|k: int| 0 <= k < n implies !is_quote_mark(#[trigger] s[k]) && !is_gap(s[k]) by {
        assert(s[k] == w[k]);
    }
    lemma_bare(s, 0, n, Seq::empty());
    assert(Seq::<char>::empty() + s.subrange(0, n) =~= w);
    assert(s[n] == q);
    assert forall|k: int| n + 1 <= k < s.len() implies #[trigger] s[k] != q by {
        assert(s[k] == m[k - n - 1]);
        assert(m.contains(m[k - n - 1]));
    }
    lemma_quoted(s, n + 1, s.len() as int, w, q);
    assert(s.subrange(n + 1, s.len() as int) =~= m);
}

// ── Commands that are no commit ────────────────────────────────────────────

/// A `git` that is not followed by `commit` is passed over.
pub proof fn law_other_git_commands(before: Seq<Seq<char>>, after: Seq<Seq<char>>)
    requires
        is_without_git(before),
        after.len() > 0 ==> after[0] != "commit"@,
    ensures
        commit::commits_from(before + seq!["git"@] + after, 0) == commit::commits_from(after, 0),
{
    let v = before + seq!["git"@] + after;
    let g = before.len() as int;
    assert forall|k: int| 0 <= k < g implies #[trigger] v[k] != "git"@ by {
        assert(v[k] == before[k]);
    }
    lemma_skip_tokens(v, 0, g);
    assert(v[g] == "git"@);
    if after.len() > 0 {
        assert(v[g + 1] == after[0]);
    }
    lemma_commits_shift(v, after, g + 1, 0);
}

/// A flag that ends the command before its message gives no commit.
pub proof fn law_flag_without_a_message(
    before: Seq<Seq<char>>,
    flags: Seq<Seq<char>>,
    flag: Seq<char>,
)
    requires
        is_without_git(before),
        are_other_flags(flags),
        flag == "-m"@ || flag == "--message"@,
    ensures
        commit::commits_from(commit_tokens(before, flags, seq![flag]), 0).len() == 0,
{
    let tail = seq![flag];
    let v = commit_tokens(before, flags, tail);
    lemma_commit_tokens(before, flags, tail);
    let g = before.len() as int;
    let a = g + 2 + flags.len();
    assert(v[a + 0] == tail[0]);
    assert(commit::read_flags(v, g + 2) == (None::<Seq<char>>, a + 1));
    assert(commit::commits_from(v, a + 1).len() == 0);
    assert(commit::commits_from(v, g) == commit::commits_from(v, a + 1));
}

} // verus!

//! Git commit-message extraction from bash commands.
//!
//! Detects `git commit` invocations, extracts the `-m` / `--message`
//! argument, and flags dynamic messages (containing `$` or backticks) that
//! cannot be statically checked.

use vstd::prelude::*;

use crate::lines;
use crate::rules;
use crate::text;

verus! {

/// A single extracted commit-message fragment.
#[derive(Debug)]
pub struct CommitMessage {
    /// The static message text.
    pub message: String,
    /// `true` when the message contains shell interpolation (`$VAR` or
    /// backticks) that cannot be statically linted.
    pub requires_explicit_message: bool,
}

/// What a commit message says.
pub struct CommitModel {
    pub message: Seq<char>,
    pub requires_explicit_message: bool,
}

impl View for CommitMessage {
    type V = CommitModel;

    open spec fn view(&self) -> CommitModel {
        CommitModel {
            message: self.message@,
            requires_explicit_message: self.requires_explicit_message,
        }
    }
}

impl Clone for CommitMessage {
    fn clone(&self) -> (r: Self)
        ensures
            r@ == self@,
    {
        CommitMessage {
            message: self.message.clone(),
            requires_explicit_message: self.requires_explicit_message,
        }
    }
}

/// What a list of commit messages says.
pub open spec fn commit_models(v: Seq<CommitMessage>) -> Seq<CommitModel> {
    Seq::new(v.len(), |i: int| v[i]@)
}

// ── Tokens ─────────────────────────────────────────────────────────────────

/// A character that ends a token outside quotes.
pub open spec fn ends_token(c: char) -> bool {
    text::is_white(c) || c == ';' || c == '&'
}

/// The tokens of `s[i..]`, when `cur` was read of the first one and the
/// quotes given are open. Quotes group characters and are dropped.
pub open spec fn tokens_from(
    s: Seq<char>,
    i: int,
    cur: Seq<char>,
    in_single: bool,
    in_double: bool,
) -> Seq<Seq<char>>
    decreases s.len() - i,
{
    if i < 0 || i >= s.len() {
        rules::nonempty(cur)
    } else if s[i] == '\'' && !in_double {
        tokens_from(s, i + 1, cur, !in_single, in_double)
    } else if s[i] == '"' && !in_single {
        tokens_from(s, i + 1, cur, in_single, !in_double)
    } else if !in_single && !in_double && ends_token(s[i]) {
        rules::nonempty(cur) + tokens_from(s, i + 1, Seq::empty(), in_single, in_double)
    } else {
        tokens_from(s, i + 1, cur.push(s[i]), in_single, in_double)
    }
}

/// The tokens of a command.
pub open spec fn tokens(s: Seq<char>) -> Seq<Seq<char>> {
    tokens_from(s, 0, Seq::empty(), false, false)
}

/// Very small shell-tokeniser: splits on whitespace, `;` and `&`, preserves
/// quoted strings as single tokens, does not expand variables.
fn tokenize_shell(cmd: &str) -> (r: Vec<String>)
    ensures
        lines::texts(r@) == tokens(cmd@),
{
    let s = text::chars_of(cmd);
    let mut r: Vec<String> = Vec::new();
    let mut cur = String::new();
    let mut in_single = false;
    let mut in_double = false;
    let mut i: usize = 0;
    proof {
        assert(lines::texts(r@) + tokens(s@) =~= tokens(s@));
        assert(cur@ =~= Seq::<char>::empty());
    }
    while i < s.len()
        invariant
            i <= s@.len(),
            lines::texts(r@) + tokens_from(s@, i as int, cur@, in_single, in_double) == tokens(s@),
        decreases s@.len() - i,
    {
        let c = s[i];
        if c == '\'' && !in_double {
            in_single = !in_single;
        } else if c == '"' && !in_single {
            in_double = !in_double;
        } else if !in_single && !in_double && (text::white(c) || c == ';' || c == '&') {
            let ghost before = lines::texts(r@);
            let ghost piece = cur@;
            let ghost rest = tokens_from(s@, i + 1, Seq::empty(), in_single, in_double);
            if !cur.as_str().is_empty() {
                r.push(cur);
                assert(lines::texts(r@) =~= before.push(piece));
            }
            cur = String::new();
            proof {
                assert(cur@ =~= Seq::<char>::empty());
                assert(before + (rules::nonempty(piece) + rest) =~= lines::texts(r@) + rest);
            }
        } else {
            cur.push(c);
        }
        i += 1;
    }
    let ghost before = lines::texts(r@);
    let ghost piece = cur@;
    if !cur.as_str().is_empty() {
        r.push(cur);
        assert(lines::texts(r@) =~= before.push(piece));
    }
    assert(before + rules::nonempty(piece) =~= lines::texts(r@));
    r
}

// ── Invocations ────────────────────────────────────────────────────────────

/// A message that the shell would change before git sees it.
pub open spec fn is_dynamic(message: Seq<char>) -> bool {
    message.contains('$') || message.contains('`')
}

/// The commit message of an invocation.
pub open spec fn commit_of(message: Seq<char>) -> CommitModel {
    CommitModel { message, requires_explicit_message: is_dynamic(message) }
}

/// Reads the flags of a commit from token `i` on, up to its message or to
/// the first argument that is no flag. Gives the message, if any, and the
/// token at which reading stopped.
pub open spec fn read_flags(tokens: Seq<Seq<char>>, i: int) -> (Option<Seq<char>>, int)
    decreases tokens.len() - i,
{
    if i < 0 || i >= tokens.len() {
        (None, i)
    } else if tokens[i] == "-m"@ || tokens[i] == "--message"@ {
        if i + 1 < tokens.len() {
            (Some(tokens[i + 1]), i + 1)
        } else {
            (None, i + 1)
        }
    } else if text::starts_with(tokens[i], "--message="@) {
        (Some(tokens[i].skip("--message="@.len() as int)), i)
    } else if text::starts_with(tokens[i], "-"@) && tokens[i] != "-"@ {
        read_flags(tokens, i + 1)
    } else {
        (None, i)
    }
}

/// The commits among the tokens from `i` on.
pub open spec fn commits_from(tokens: Seq<Seq<char>>, i: int) -> Seq<CommitModel>
    decreases tokens.len() + 1 - i,
    via commits_from_decreases
{
    if i < 0 || i >= tokens.len() {
        Seq::empty()
    } else if tokens[i] == "git"@ && i + 1 < tokens.len() && tokens[i + 1] == "commit"@ {
        let (message, stop) = read_flags(tokens, i + 2);
        match message {
            Some(m) => seq![commit_of(m)] + commits_from(tokens, stop + 1),
            None => commits_from(tokens, stop),
        }
    } else {
        commits_from(tokens, i + 1)
    }
}

#[via_fn]
proof fn commits_from_decreases(tokens: Seq<Seq<char>>, i: int) {
    if 0 <= i && i + 1 < tokens.len() {
        lemma_read_flags(tokens, i + 2);
    }
}

/// Reading stops within the tokens.
pub proof fn lemma_read_flags(tokens: Seq<Seq<char>>, i: int)
    requires
        0 <= i <= tokens.len(),
    ensures
        i <= read_flags(tokens, i).1 <= tokens.len(),
    decreases tokens.len() - i,
{
    if i < tokens.len() {
        lemma_read_flags(tokens, i + 1);
    }
}

/// The commits of a command.
pub open spec fn commits(command: Seq<char>) -> Seq<CommitModel> {
    commits_from(tokens(command), 0)
}

/// Reads the flags of a commit.
fn scan_flags(tokens: &Vec<String>, from: usize) -> (r: (Option<String>, usize))
    requires
        from <= tokens@.len(),
    ensures
        r.1 <= tokens@.len(),
        from <= r.1,
        read_flags(lines::texts(tokens@), from as int).1 == r.1,
        match r.0 {
            Some(m) => read_flags(lines::texts(tokens@), from as int).0 == Some(m@),
            None => read_flags(lines::texts(tokens@), from as int).0 is None,
        },
{
    let ghost all = lines::texts(tokens@);
    let n: usize = tokens.len();
    let mut i: usize = from;
    while i < n
        invariant
            all == lines::texts(tokens@),
            from <= i <= n == tokens@.len(),
            read_flags(all, from as int) == read_flags(all, i as int),
        decreases n - i,
    {
        let flag = tokens[i].as_str();
        let s = text::chars_of(flag);
        assert(all[i as int] == flag@);
        if text::same(flag, "-m") || text::same(flag, "--message") {
            if i + 1 < n {
                assert(all[i + 1] == tokens@[i + 1]@);
                return (Some(tokens[i + 1].clone()), i + 1);
            }
            return (None, i + 1);
        }
        if text::at_str(&s, "--message=", 0) {
            let k = text::chars_of("--message=").len();
            let message = text::string_of(&s, k, s.len());
            assert(message@ =~= flag@.skip("--message="@.len() as int));
            return (Some(message), i);
        }
        if text::at_str(&s, "-", 0) && !text::same(flag, "-") {
            i += 1;
        } else {
            return (None, i);
        }
    }
    (None, i)
}

/// Scan a bash command for `git commit` invocations and extract their
/// messages.
///
/// Returns an empty list when no `git commit` is present (the caller
/// should then skip linting).
pub fn find_commit_invocations(command: &str) -> (r: Vec<CommitMessage>)
    ensures
        commit_models(r@) == commits(command@),
{
    let mut r: Vec<CommitMessage> = Vec::new();
    assert(commit_models(r@) =~= Seq::<CommitModel>::empty());
    let tokens = tokenize_shell(command);
    let ghost all = lines::texts(tokens@);
    let n: usize = tokens.len();
    let mut i: usize = 0;
    assert(commit_models(r@) + commits_from(all, 0) =~= commits_from(all, 0));
    while i < n
        invariant
            all == self::tokens(command@),
            all == lines::texts(tokens@),
            n == tokens@.len(),
            i <= n + 1,
            commit_models(r@) + commits_from(all, i as int) == commits_from(all, 0),
        decreases n + 1 - i,
    {
        assert(all[i as int] == tokens@[i as int]@);
        let mut found = false;
        if text::same(tokens[i].as_str(), "git") && i + 1 < n {
            assert(all[i + 1] == tokens@[i + 1]@);
            found = text::same(tokens[i + 1].as_str(), "commit");
        }
        if found {
            let (message, stop) = scan_flags(&tokens, i + 2);
            i = stop;
            if let Some(m) = message {
                let s = text::chars_of(m.as_str());
                assert(s@.skip(0) =~= s@);
                let dynamic = text::has_char(&s, '$', 0) || text::has_char(&s, '`', 0);
                let c = CommitMessage { message: m, requires_explicit_message: dynamic };
                let ghost model = c@;
                let ghost before = commit_models(r@);
                r.push(c);
                proof {
                    assert(commit_models(r@) =~= before.push(model));
                    let rest = commits_from(all, stop + 1);
                    assert(before + (seq![model] + rest) =~= commit_models(r@) + rest);
                }
                if stop == n {
                    assert(commit_models(r@) + commits_from(all, stop + 1) =~= commit_models(r@));
                    return r;
                }
                i = stop + 1;
            }
        } else {
            i += 1;
        }
    }
    assert(commit_models(r@) + commits_from(all, i as int) =~= commit_models(r@));
    r
}

proof fn lemma_commits(tokens: Seq<Seq<char>>, i: int, k: int)
    requires
        0 <= i,
        0 <= k < commits_from(tokens, i).len(),
    ensures
        commits_from(tokens, i)[k] == commit_of(commits_from(tokens, i)[k].message),
    decreases tokens.len() + 1 - i,
{
    if i < tokens.len() {
        if tokens[i] == "git"@ && i + 1 < tokens.len() && tokens[i + 1] == "commit"@ {
            lemma_read_flags(tokens, i + 2);
            let (message, stop) = read_flags(tokens, i + 2);
            let rest = commits_from(tokens, stop + 1);
            match message {
                Some(m) => {
                    if k > 0 {
                        assert(commits_from(tokens, i)[k] == rest[k - 1]);
                        lemma_commits(tokens, stop + 1, k - 1);
                    }
                },
                None => {
                    lemma_commits(tokens, stop, k);
                },
            }
        } else {
            lemma_commits(tokens, i + 1, k);
        }
    }
}

/// A message needs to be given explicitly exactly when it holds a `$` or a
/// backtick.
pub proof fn law_dynamic_messages_are_flagged(command: Seq<char>, k: int)
    requires
        0 <= k < commits(command).len(),
    ensures
        commits(command)[k].requires_explicit_message <==> is_dynamic(
            commits(command)[k].message,
        ),
{
    lemma_commits(tokens(command), 0, k);
}

} // verus!

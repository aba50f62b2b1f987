//! Reply-gate state and last-assistant-message extraction.
//!
//! The harness appends the full session transcript to an event log, one
//! JSON object per line. The last `assistant_message` event with non-empty
//! `content` is the model's user-facing reply. This module finds that
//! reply, and tracks which replies have already been gated so the loop
//! cannot oscillate.

use vstd::prelude::*;

use crate::foreign;
use crate::lines;
use crate::text;

verus! {

// ── State ──────────────────────────────────────────────────────────────────

/// State persisted per session.
#[derive(Debug)]
pub struct ReplyState {
    pub version: u32,
    /// Hard violation count for the most recent linted reply.
    pub hard: usize,
    /// Soft violation count for the most recent linted reply.
    pub soft: usize,
    /// Identity of the most recently gated reply.
    pub last_identity: Option<String>,
    /// Consecutive gate count (resets on a clean reply).
    pub gate_count: usize,
    /// Identities of replies that have already been gated (dedup).
    pub gated_replies: Vec<String>,
}

/// What a state says.
pub struct StateModel {
    pub version: u32,
    pub hard: int,
    pub soft: int,
    pub last_identity: Option<Seq<char>>,
    pub gate_count: int,
    pub gated_replies: Seq<Seq<char>>,
}

impl View for ReplyState {
    type V = StateModel;

    open spec fn view(&self) -> StateModel {
        StateModel {
            version: self.version,
            hard: self.hard as int,
            soft: self.soft as int,
            last_identity: match self.last_identity {
                Some(s) => Some(s@),
                None => None,
            },
            gate_count: self.gate_count as int,
            gated_replies: lines::texts(self.gated_replies@),
        }
    }
}

/// The name of the state file in a session directory.
pub const STATE_FILE: &'static str = "simple-english-state.json";

/// Maximum consecutive gates for one logical reply chain. Prevents
/// infinite loops when the model keeps producing the same bad reply.
pub const MAX_GATE_COUNT: usize = 3;

/// How many gated replies a state remembers.
pub const MAX_GATED_REPLIES: usize = 16;

impl Default for ReplyState {
    fn default() -> (r: Self)
        ensures
            r@ == (StateModel {
                version: 0,
                hard: 0,
                soft: 0,
                last_identity: None,
                gate_count: 0,
                gated_replies: Seq::empty(),
            }),
    {
        let r = ReplyState {
            version: 0,
            hard: 0,
            soft: 0,
            last_identity: None,
            gate_count: 0,
            gated_replies: Vec::new(),
        };
        assert(lines::texts(r.gated_replies@) =~= Seq::<Seq<char>>::empty());
        r
    }
}

impl Clone for ReplyState {
    fn clone(&self) -> (r: Self)
        ensures
            r@ == self@,
    {
        let last_identity = match &self.last_identity {
            Some(s) => Some(s.clone()),
            None => None,
        };
        ReplyState {
            version: self.version,
            hard: self.hard,
            soft: self.soft,
            last_identity,
            gate_count: self.gate_count,
            gated_replies: crate::types::copy_strings(&self.gated_replies),
        }
    }
}

/// The last entries of a list, at most as many as a state remembers.
pub open spec fn capped(v: Seq<Seq<char>>) -> Seq<Seq<char>> {
    if v.len() > MAX_GATED_REPLIES {
        v.skip(v.len() - MAX_GATED_REPLIES)
    } else {
        v
    }
}

/// The gated replies after one more was gated. A reply is listed once, and
/// only the last ones stay.
pub open spec fn recorded(v: Seq<Seq<char>>, identity: Seq<char>) -> Seq<Seq<char>> {
    if v.contains(identity) {
        capped(v)
    } else {
        capped(v.push(identity))
    }
}

impl ReplyState {
    /// True when this identity has already been gated.
    pub fn has_gated(&self, identity: &str) -> (r: bool)
        ensures
            r == self@.gated_replies.contains(identity@),
    {
        let ghost all = self@.gated_replies;
        let mut i: usize = 0;
        while i < self.gated_replies.len()
            invariant
                all == lines::texts(self.gated_replies@),
                i <= self.gated_replies@.len(),
                forall|k: int| 0 <= k < i ==> #[trigger] all[k] != identity@,
            decreases self.gated_replies@.len() - i,
        {
            if text::same(self.gated_replies[i].as_str(), identity) {
                assert(all[i as int] == identity@);
                return true;
            }
            i += 1;
        }
        false
    }

    /// Record that this identity was gated (deduped, capped at 16).
    pub fn record_gated(&mut self, identity: &str)
        ensures
            final(self)@ == (StateModel {
                gated_replies: recorded(old(self)@.gated_replies, identity@),
                ..old(self)@
            }),
    {
        let ghost before = self@.gated_replies;
        if !self.has_gated(identity) {
            self.gated_replies.push(identity.to_owned());
            assert(self@.gated_replies =~= before.push(identity@));
        }
        let ghost mid = self@.gated_replies;
        let n: usize = self.gated_replies.len();
        if n > MAX_GATED_REPLIES {
            let tail = self.gated_replies.split_off(n - MAX_GATED_REPLIES);
            self.gated_replies = tail;
            assert(self@.gated_replies =~= mid.skip(n - MAX_GATED_REPLIES));
        }
    }
}

/// A state remembers a bounded number of replies, and none twice.
pub proof fn law_gated_replies_are_bounded(v: Seq<Seq<char>>, identity: Seq<char>)
    ensures
        recorded(v, identity).len() <= MAX_GATED_REPLIES,
        v.no_duplicates() ==> recorded(v, identity).no_duplicates(),
{
}

/// A reply that was gated is remembered. A state that remembered more replies
/// than it may, and this one among the first of them, forgets it.
pub proof fn law_recorded_reply_is_remembered(v: Seq<Seq<char>>, identity: Seq<char>)
    requires
        v.len() <= MAX_GATED_REPLIES || !v.contains(identity),
    ensures
        recorded(v, identity).contains(identity),
{
    if !v.contains(identity) {
        let r = recorded(v, identity);
        assert(r[r.len() - 1] == identity);
    }
}

// ── Identity ───────────────────────────────────────────────────────────────

/// The identity of a reply text: its 64-bit FNV-1a hash in sixteen
/// hexadecimal digits.
pub open spec fn identity_of(content: Seq<char>) -> Seq<char> {
    let bytes = vstd::utf8::encode_utf8(content);
    text::hexadecimal(foreign::fnv_to(bytes, bytes.len() as int) as nat, 16)
}

/// Stable FNV-1a 64-bit identity for a reply text. Deterministic across
/// process runs.
pub fn reply_identity(content: &str) -> (r: String)
    ensures
        r@ == identity_of(content@),
{
    text::hexadecimal_of(foreign::fnv_hash(content.as_bytes()), 16)
}

/// An identity has sixteen digits.
pub proof fn law_identities_have_sixteen_digits(content: Seq<char>)
    ensures
        identity_of(content).len() == 16,
{
    let bytes = vstd::utf8::encode_utf8(content);
    text::lemma_hexadecimal_len(foreign::fnv_to(bytes, bytes.len() as int) as nat, 16);
}

// ── The last reply ─────────────────────────────────────────────────────────

/// The reply that an event holds, given its `type` and its `content`. Only
/// an assistant message that is not blank holds one.
pub open spec fn reply_in(kind: Option<Seq<char>>, content: Option<Seq<char>>) -> Option<
    Seq<char>,
> {
    match (kind, content) {
        (Some(k), Some(c)) => if k == "assistant_message"@ && !text::is_blank(c) {
            Some(c)
        } else {
            None
        },
        _ => None,
    }
}

/// A field that is missing, of a document that may be malformed.
pub open spec fn flat(field: Option<Option<Seq<char>>>) -> Option<Seq<char>> {
    match field {
        Some(f) => f,
        None => None,
    }
}

/// The reply that a line of the event log holds.
pub open spec fn reply_on(line: Seq<char>) -> Option<Seq<char>> {
    let t = text::trim(line);
    if t.len() == 0 {
        None
    } else {
        reply_in(
            flat(foreign::json_field_of(t, "type"@)),
            flat(foreign::json_field_of(t, "content"@)),
        )
    }
}

/// The last reply on the first `n` lines.
pub open spec fn last_reply_to(rows: Seq<Seq<char>>, n: int) -> Option<Seq<char>>
    decreases n,
{
    if n <= 0 {
        None
    } else {
        match reply_on(rows[n - 1]) {
            Some(c) => Some(c),
            None => last_reply_to(rows, n - 1),
        }
    }
}

/// The last reply of an event log.
pub open spec fn last_reply(log: Seq<char>) -> Option<Seq<char>> {
    let rows = lines::lines(log);
    last_reply_to(rows, rows.len() as int)
}

/// A string that may be missing, as a text.
pub open spec fn text_of(s: Option<String>) -> Option<Seq<char>> {
    match s {
        Some(s) => Some(s@),
        None => None,
    }
}

/// The reply that an event holds, given its `type` and its `content`.
pub fn event_reply(kind: Option<String>, content: Option<String>) -> (r: Option<String>)
    ensures
        text_of(r) == reply_in(text_of(kind), text_of(content)),
{
    match (kind, content) {
        (Some(k), Some(c)) => if text::same(k.as_str(), "assistant_message") && !text::blank(
            &text::chars_of(c.as_str()),
        ) {
            Some(c)
        } else {
            None
        },
        _ => None,
    }
}

pub(crate) fn flatten(field: Option<Option<String>>) -> (r: Option<String>)
    ensures
        text_of(r) == flat(foreign::field_of(field)),
{
    match field {
        Some(f) => f,
        None => None,
    }
}

fn line_reply(line: &Vec<char>) -> (r: Option<String>)
    ensures
        text_of(r) == reply_on(line@),
{
    assert(line@.subrange(0, line@.len() as int) =~= line@);
    let (a, b) = text::trim_bounds(line, 0, line.len());
    if a == b {
        proof {
            text::lemma_trim(line@);
        }
        return None;
    }
    let t = text::string_of(line, a, b);
    let kind = flatten(foreign::json_field(t.as_str(), "type"));
    let content = flatten(foreign::json_field(t.as_str(), "content"));
    event_reply(kind, content)
}

/// The last `assistant_message` with non-empty `content` of an event log.
/// Scans from the tail for efficiency.
pub fn last_assistant_message(log: &str) -> (r: Option<String>)
    ensures
        text_of(r) == last_reply(log@),
{
    let rows = lines::lines_of(log);
    let ghost all = lines::lines(log@);
    let mut n: usize = rows.len();
    while n > 0
        invariant
            all == lines::lines(log@),
            lines::rows(rows@) == all,
            n <= rows@.len(),
            last_reply_to(all, n as int) == last_reply_to(all, all.len() as int),
        decreases n,
    {
        assert(all[n - 1] == rows@[n - 1]@);
        if let Some(c) = line_reply(&rows[n - 1]) {
            return Some(c);
        }
        n -= 1;
    }
    None
}

/// A line of an event log holds the reply `c`: without its outer white space
/// it is an event of type `assistant_message`, and `c` is its content, which
/// is not blank.
pub open spec fn holds_reply(line: Seq<char>, c: Seq<char>) -> bool {
    let t = text::trim(line);
    &&& t.len() > 0
    &&& foreign::json_field_of(t, "type"@) == Some(Some("assistant_message"@))
    &&& foreign::json_field_of(t, "content"@) == Some(Some(c))
    &&& !text::is_blank(c)
}

proof fn lemma_last_reply(rows: Seq<Seq<char>>, n: int)
    requires
        0 <= n <= rows.len(),
    ensures
        match last_reply_to(rows, n) {
            Some(c) => exists|k: int|
                0 <= k < n && #[trigger] holds_reply(rows[k], c) && forall|j: int, d: Seq<char>|
                    k < j < n ==> !#[trigger] holds_reply(rows[j], d),
            None => forall|j: int, d: Seq<char>|
                0 <= j < n ==> !#[trigger] holds_reply(rows[j], d),
        },
    decreases n,
{
    if n > 0 {
        lemma_last_reply(rows, n - 1);
        if let Some(c) = reply_on(rows[n - 1]) {
            assert(holds_reply(rows[n - 1], c));
        } else {
            assert forall|d: Seq<char>| !#[trigger] holds_reply(rows[n - 1], d) by {}
            if let Some(c) = last_reply_to(rows, n - 1) {
                let k = choose|k: int|
                    0 <= k < n - 1 && #[trigger] holds_reply(rows[k], c) && forall|
                        j: int,
                        d: Seq<char>,
                    |
                        k < j < n - 1 ==> !#[trigger] holds_reply(rows[j], d);
                assert(holds_reply(rows[k], c));
            }
        }
    }
}

/// The last reply of an event log is the reply on a line of the log after
/// which no line holds one. There is none exactly when no line holds one.
pub proof fn law_last_reply_is_the_last(log: Seq<char>)
    ensures
        ({
            let rows = lines::lines(log);
            match last_reply(log) {
                Some(c) => exists|k: int|
                    0 <= k < rows.len() && #[trigger] holds_reply(rows[k], c) && forall|
                        j: int,
                        d: Seq<char>,
                    |
                        k < j < rows.len() ==> !#[trigger] holds_reply(rows[j], d),
                None => forall|j: int, d: Seq<char>|
                    0 <= j < rows.len() ==> !#[trigger] holds_reply(rows[j], d),
            }
        }),
{
    let rows = lines::lines(log);
    lemma_last_reply(rows, rows.len() as int);
}

/// Recording a reply keeps the last sixteen of the replies gated so far and
/// this one, in their order. A reply that is listed is not listed again.
pub proof fn law_last_sixteen_replies_stay(v: Seq<Seq<char>>, identity: Seq<char>)
    ensures
        ({
            let all = if v.contains(identity) {
                v
            } else {
                v.push(identity)
            };
            let r = recorded(v, identity);
            &&& r.len() == if all.len() < 16 {
                all.len()
            } else {
                16
            }
            &&& forall|i: int| 0 <= i < r.len() ==> #[trigger] r[i] == all[all.len() - r.len() + i]
        }),
{
}

/// Of a long list the last sixteen stay. A shorter one stays as it is.
pub proof fn law_capped_lists(v: Seq<Seq<char>>, w: Seq<Seq<char>>)
    ensures
        v.len() <= 16 ==> capped(v) == v,
        w.len() == 16 ==> capped(v + w) == w,
{
    if w.len() == 16 {
        assert(capped(v + w) =~= w);
    }
}

} // verus!

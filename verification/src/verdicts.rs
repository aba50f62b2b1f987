//! Laws of what the hook does about calls and replies.

use vstd::prelude::*;

use crate::commit;
use crate::commit::CommitModel;
use crate::diff;
use crate::edits;
use crate::engine;
use crate::feedback;
use crate::foreign;
use crate::hook;
use crate::hook::{CallModel, FieldModel, OutcomeModel, PendingModel};
use crate::lists;
use crate::reply;
use crate::reply::StateModel;
use crate::text;
use crate::types::{ConfigModel, LintKind, ReportModel, Severity, ViolationModel};

verus! {

// ── Severities ─────────────────────────────────────────────────────────────

proof fn lemma_of_severity(v: Seq<ViolationModel>, severity: Severity, n: int)
    requires
        0 <= n <= v.len(),
    ensures
        hook::of_severity(v, severity, n) == v.take(n).filter(
            |x: ViolationModel| x.severity == severity,
        ),
    decreases n,
{
    reveal(Seq::filter);
    if n > 0 {
        lemma_of_severity(v, severity, n - 1);
        assert(v.take(n).drop_last() =~= v.take(n - 1));
    }
}

/// The hard violations of a list and the soft ones, in their order.
pub proof fn law_severities(v: Seq<ViolationModel>)
    ensures
        hook::hard_of(v) == v.filter(|x: ViolationModel| x.severity is Hard),
        hook::soft_of(v) == v.filter(|x: ViolationModel| x.severity is Soft),
{
    lemma_of_severity(v, Severity::Hard, v.len() as int);
    lemma_of_severity(v, Severity::Soft, v.len() as int);
    assert(v.take(v.len() as int) =~= v);
    let a = |x: ViolationModel| x.severity is Hard;
    let b = |x: ViolationModel| x.severity == Severity::Hard;
    assert(a =~= b);
    let c = |x: ViolationModel| x.severity is Soft;
    let d = |x: ViolationModel| x.severity == Severity::Soft;
    assert(c =~= d);
}

/// One of the violations is hard.
pub open spec fn has_hard(v: Seq<ViolationModel>) -> bool {
    exists|k: int| 0 <= k < v.len() && (#[trigger] v[k]).severity is Hard
}

/// One of the violations is soft.
pub open spec fn has_soft(v: Seq<ViolationModel>) -> bool {
    exists|k: int| 0 <= k < v.len() && (#[trigger] v[k]).severity is Soft
}

proof fn lemma_some(v: Seq<ViolationModel>, severity: Severity, n: int)
    requires
        0 <= n <= v.len(),
    ensures
        hook::of_severity(v, severity, n).len() > 0 <==> exists|k: int|
            0 <= k < n && (#[trigger] v[k]).severity == severity,
    decreases n,
{
    if n > 0 {
        lemma_some(v, severity, n - 1);
        if v[n - 1].severity != severity && hook::of_severity(v, severity, n).len() > 0 {
            let k = choose|k: int| 0 <= k < n - 1 && (#[trigger] v[k]).severity == severity;
            assert(v[k].severity == severity);
        }
    }
}

/// A list has a hard violation exactly when its hard violations are some.
pub proof fn lemma_has(v: Seq<ViolationModel>)
    ensures
        hook::hard_of(v).len() > 0 <==> has_hard(v),
        hook::soft_of(v).len() > 0 <==> has_soft(v),
{
    let n = v.len() as int;
    lemma_some(v, Severity::Hard, n);
    lemma_some(v, Severity::Soft, n);
    if hook::hard_of(v).len() > 0 {
        let k = choose|k: int| 0 <= k < n && (#[trigger] v[k]).severity == Severity::Hard;
        assert(v[k].severity is Hard);
    }
    if hook::soft_of(v).len() > 0 {
        let k = choose|k: int| 0 <= k < n && (#[trigger] v[k]).severity == Severity::Soft;
        assert(v[k].severity is Soft);
    }
}

/// A report is blocked exactly when it has a hard violation. Without one, it
/// gives a note exactly when it has a soft one.
pub proof fn law_verdict(label: Seq<char>, r: ReportModel)
    ensures
        hook::judged(label, r) is Block <==> has_hard(r.violations),
        hook::judged(label, r) is Note <==> !has_hard(r.violations) && has_soft(r.violations),
{
    lemma_has(r.violations);
}

/// What is said about a report. A block lists the hard violations, and counts
/// them when there is more than one violation. A note lists the soft ones.
pub proof fn law_verdict_text(label: Seq<char>, r: ReportModel)
    ensures
        hook::judged(label, r) matches OutcomeModel::Block(s) ==> s == "Writing rules blocked"@
            + (if r.total <= 1 {
            Seq::empty()
        } else {
            " ("@ + text::decimal(r.total as nat) + " total, "@ + text::decimal(r.hard as nat)
                + " hard)"@
        }) + "\n"@ + feedback::feedback(
            label,
            ""@,
            r.violations.filter(|x: ViolationModel| x.severity is Hard),
        ),
        hook::judged(label, r) matches OutcomeModel::Note(s) ==> s == feedback::feedback(
            label,
            "Writing-rule warnings for"@,
            r.violations.filter(|x: ViolationModel| x.severity is Soft),
        ),
{
    law_severities(r.violations);
}

// ── Writes and edits ───────────────────────────────────────────────────────

/// Linting the new content gives a hard violation on a changed line.
pub open spec fn has_hard_change(
    kind: LintKind,
    old_content: Seq<char>,
    new_content: Seq<char>,
    config: ConfigModel,
) -> bool {
    let v = engine::report(kind, new_content, config).violations;
    exists|k: int|
        #![trigger v[k]]
        0 <= k < v.len() && v[k].severity is Hard && edits::is_on(
            v[k],
            diff::changed(kind, old_content, new_content),
        )
}

proof fn lemma_filter_hard(v: Seq<ViolationModel>, keeps: spec_fn(ViolationModel) -> bool)
    ensures
        has_hard(v.filter(keeps)) <==> exists|k: int|
            0 <= k < v.len() && (#[trigger] v[k]).severity is Hard && keeps(v[k]),
    decreases v.len(),
{
    reveal(Seq::filter);
    if v.len() > 0 {
        let w = v.drop_last();
        lemma_filter_hard(w, keeps);
        let kept = w.filter(keeps);
        let all = v.filter(keeps);
        let x = v.last();
        if has_hard(all) {
            let k = choose|k: int| 0 <= k < all.len() && (#[trigger] all[k]).severity is Hard;
            if k < kept.len() {
                assert(kept[k] == all[k]);
                assert(has_hard(kept));
                let j = choose|j: int|
                    0 <= j < w.len() && (#[trigger] w[j]).severity is Hard && keeps(w[j]);
                assert(v[j] == w[j]);
            } else {
                assert(v[v.len() - 1] == x);
            }
        }
        if exists|k: int| 0 <= k < v.len() && (#[trigger] v[k]).severity is Hard && keeps(v[k]) {
            let k = choose|k: int|
                0 <= k < v.len() && (#[trigger] v[k]).severity is Hard && keeps(v[k]);
            if k < w.len() {
                assert(w[k] == v[k]);
                assert(has_hard(kept));
                let j = choose|j: int| 0 <= j < kept.len() && (#[trigger] kept[j]).severity is Hard;
                assert(all[j] == kept[j]);
            } else {
                assert(all[all.len() - 1] == x);
            }
        }
    }
}

/// A write is blocked exactly when linting its content gives a hard violation
/// on a line that it changes.
pub proof fn law_write_is_blocked(
    file_path: FieldModel,
    path: FieldModel,
    content: Seq<char>,
    previous: Option<Seq<char>>,
    config: ConfigModel,
)
    ensures
        hook::outcome(CallModel::Write { file_path, path, content, previous }, config) is Block
            <==> has_hard_change(
            hook::call_kind(file_path),
            hook::or_empty(previous),
            content,
            config,
        ),
{
    let kind = hook::call_kind(file_path);
    let old_content = hook::or_empty(previous);
    let r = diff::write_report(kind, content, old_content, config);
    let v = engine::report(kind, content, config).violations;
    let changed = diff::changed(kind, old_content, content);
    let keeps = |x: ViolationModel| edits::is_on(x, changed);
    edits::law_report_on_changed_lines(engine::report(kind, content, config), changed);
    law_verdict(hook::display_path("write"@, file_path, path), r);
    lemma_filter_hard(v, keeps);
    assert(r.violations == v.filter(keeps));
    if has_hard(r.violations) {
        let k = choose|k: int| 0 <= k < v.len() && (#[trigger] v[k]).severity is Hard && keeps(v[k]);
        assert(edits::is_on(v[k], changed));
    }
    if has_hard_change(kind, old_content, content, config) {
        let k = choose|k: int|
            #![trigger v[k]]
            0 <= k < v.len() && v[k].severity is Hard && edits::is_on(v[k], changed);
        assert(keeps(v[k]));
    }
}

/// An edit of an existing file that can be applied is answered like a write of
/// the edited content over the previous content. So it is blocked exactly when
/// linting the edited content gives a hard violation on a line that the edit
/// changes.
pub proof fn law_edit_is_a_write(
    file_path: FieldModel,
    path: FieldModel,
    old_string: Seq<char>,
    new_string: Seq<char>,
    replace_all: bool,
    content: Seq<char>,
    config: ConfigModel,
)
    requires
        diff::edit_fault(content, old_string, replace_all) is None,
    ensures
        ({
            let edit = CallModel::Edit {
                file_path,
                path,
                old_string,
                new_string,
                replace_all,
                previous: Some(content),
            };
            let edited = diff::edited(content, old_string, new_string, replace_all);
            let write = CallModel::Write {
                file_path,
                path,
                content: edited,
                previous: Some(content),
            };
            &&& hook::outcome(edit, config) == hook::outcome(write, config)
            &&& hook::outcome(edit, config) is Block <==> has_hard_change(
                hook::call_kind(file_path),
                content,
                edited,
                config,
            )
        }),
{
    let edited = diff::edited(content, old_string, new_string, replace_all);
    law_write_is_blocked(file_path, path, edited, Some(content), config);
    assert(hook::display_path("edit"@, file_path, path) == hook::display_path(
        "write"@,
        file_path,
        path,
    ));
}

/// An edit that cannot be applied is never blocked. The user is told why it
/// was not linted.
pub proof fn law_edit_is_skipped(
    file_path: FieldModel,
    path: FieldModel,
    old_string: Seq<char>,
    new_string: Seq<char>,
    replace_all: bool,
    content: Seq<char>,
    config: ConfigModel,
)
    requires
        diff::edit_fault(content, old_string, replace_all) is Some,
    ensures
        hook::outcome(
            CallModel::Edit {
                file_path,
                path,
                old_string,
                new_string,
                replace_all,
                previous: Some(content),
            },
            config,
        ) == OutcomeModel::Note(
            "[simple-english] edit lint skipped ("@ + (match file_path {
                FieldModel::Text(s) => s,
                _ => ""@,
            }) + "): "@ + diff::edit_fault(content, old_string, replace_all)->0,
        ),
{
}

/// An edit of a missing file is blocked exactly when its new string by itself
/// has a hard violation.
pub proof fn law_edit_of_a_missing_file(
    file_path: FieldModel,
    path: FieldModel,
    old_string: Seq<char>,
    new_string: Seq<char>,
    replace_all: bool,
    config: ConfigModel,
)
    ensures
        hook::outcome(
            CallModel::Edit {
                file_path,
                path,
                old_string,
                new_string,
                replace_all,
                previous: None,
            },
            config,
        ) is Block <==> has_hard(
            engine::report(hook::call_kind(file_path), new_string, config).violations,
        ),
{
    law_verdict(
        hook::display_path("edit"@, file_path, path),
        engine::report(hook::call_kind(file_path), new_string, config),
    );
}

// ── Commits ────────────────────────────────────────────────────────────────

proof fn lemma_commit_violations(messages: Seq<CommitModel>, config: ConfigModel, n: int)
    requires
        0 <= n <= messages.len(),
    ensures
        hook::commit_violations(messages, config, n) == lists::collected(
            n as nat,
            |k: int|
                engine::report(LintKind::CommitMessage, messages[k].message, config).violations,
        ),
    decreases n,
{
    let f = |k: int|
        engine::report(LintKind::CommitMessage, messages[k].message, config).violations;
    lists::lemma_collected(n as nat, f);
    if n > 0 {
        lemma_commit_violations(messages, config, n - 1);
    }
}

/// The message of commit `k` has a hard violation.
pub open spec fn is_hard_message(messages: Seq<CommitModel>, k: int, config: ConfigModel) -> bool {
    has_hard(engine::report(LintKind::CommitMessage, messages[k].message, config).violations)
}

/// A command is blocked exactly when the message of one of its commits needs
/// the shell to be known, or has a hard violation. Other tools never are.
pub proof fn law_command_is_blocked(command: Seq<char>, config: ConfigModel)
    ensures
        ({
            let messages = commit::commits(command);
            hook::outcome(CallModel::Bash { command }, config) is Block <==> {
                ||| exists|k: int|
                    0 <= k < messages.len() && (
                    #[trigger] messages[k]).requires_explicit_message
                ||| exists|k: int|
                    0 <= k < messages.len() && #[trigger] is_hard_message(messages, k, config)
            }
        }),
        hook::outcome(CallModel::Other, config) is Pass,
{
    let messages = commit::commits(command);
    let n = messages.len() as int;
    let f = |k: int|
        engine::report(LintKind::CommitMessage, messages[k].message, config).violations;
    let v = hook::commit_violations(messages, config, n);
    lemma_commit_violations(messages, config, n);
    law_verdict("commit message"@, engine::report_of(v));
    if has_hard(v) {
        let i = choose|i: int| 0 <= i < v.len() && (#[trigger] v[i]).severity is Hard;
        lists::lemma_collected_contains(messages.len(), f, v[i]);
        assert(v.contains(v[i]));
        let k = choose|k: int| 0 <= k < n && #[trigger] f(k).contains(v[i]);
        let w = f(k);
        let j = choose|j: int| 0 <= j < w.len() && w[j] == v[i];
        assert(w[j].severity is Hard);
        assert(is_hard_message(messages, k, config));
    }
    if exists|k: int| 0 <= k < n && #[trigger] is_hard_message(messages, k, config) {
        let k = choose|k: int| 0 <= k < n && #[trigger] is_hard_message(messages, k, config);
        let w = f(k);
        let j = choose|j: int| 0 <= j < w.len() && (#[trigger] w[j]).severity is Hard;
        assert(f(k).contains(w[j]));
        lists::lemma_collected_contains(messages.len(), f, w[j]);
        let i = choose|i: int| 0 <= i < v.len() && v[i] == w[j];
        assert(v[i].severity is Hard);
    }
}

// ── Lists of calls ─────────────────────────────────────────────────────────

/// What a call adds to the ids of the blocked calls.
pub open spec fn blocked_id(call: PendingModel, config: ConfigModel) -> Seq<Seq<char>> {
    if hook::outcome(call.call, config) is Block {
        seq![call.id]
    } else {
        Seq::empty()
    }
}

/// What a call adds to the reasons.
pub open spec fn block_reason(call: PendingModel, config: ConfigModel) -> Seq<Seq<char>> {
    match hook::outcome(call.call, config) {
        OutcomeModel::Block(s) => seq![s],
        _ => Seq::empty(),
    }
}

/// What a call adds to the notes.
pub open spec fn call_note(call: PendingModel, config: ConfigModel) -> Seq<Seq<char>> {
    match hook::outcome(call.call, config) {
        OutcomeModel::Note(s) => seq![s],
        _ => Seq::empty(),
    }
}

proof fn lemma_lists(calls: Seq<PendingModel>, config: ConfigModel, n: int)
    requires
        0 <= n <= calls.len(),
    ensures
        hook::blocked_to(calls, config, n) == lists::collected(
            n as nat,
            |k: int| blocked_id(calls[k], config),
        ),
        hook::reasons_to(calls, config, n) == lists::collected(
            n as nat,
            |k: int| block_reason(calls[k], config),
        ),
        hook::notes_to(calls, config, n) == lists::collected(
            n as nat,
            |k: int| call_note(calls[k], config),
        ),
    decreases n,
{
    let f = |k: int| blocked_id(calls[k], config);
    let g = |k: int| block_reason(calls[k], config);
    let h = |k: int| call_note(calls[k], config);
    lists::lemma_collected(n as nat, f);
    lists::lemma_collected(n as nat, g);
    lists::lemma_collected(n as nat, h);
    if n > 0 {
        lemma_lists(calls, config, n - 1);
        let call = calls[n - 1];
        assert(f(n - 1) == blocked_id(call, config));
        assert(g(n - 1) == block_reason(call, config));
        assert(h(n - 1) == call_note(call, config));
        assert(hook::blocked_to(calls, config, n) =~= hook::blocked_to(calls, config, n - 1) + f(
            n - 1,
        ));
        assert(hook::reasons_to(calls, config, n) =~= hook::reasons_to(calls, config, n - 1) + g(
            n - 1,
        ));
        assert(hook::notes_to(calls, config, n) =~= hook::notes_to(calls, config, n - 1) + h(
            n - 1,
        ));
    }
}

/// Each call is judged by itself: the blocked ids, the reasons and the notes
/// are those of the single calls, in their order.
pub proof fn law_calls_are_judged_one_by_one(calls: Seq<PendingModel>, config: ConfigModel)
    ensures
        hook::blocked_to(calls, config, calls.len() as int) == lists::collected(
            calls.len(),
            |k: int| blocked_id(calls[k], config),
        ),
        hook::reasons_to(calls, config, calls.len() as int) == lists::collected(
            calls.len(),
            |k: int| block_reason(calls[k], config),
        ),
        hook::notes_to(calls, config, calls.len() as int) == lists::collected(
            calls.len(),
            |k: int| call_note(calls[k], config),
        ),
{
    lemma_lists(calls, config, calls.len() as int);
}

// ── Paths ──────────────────────────────────────────────────────────────────

proof fn lemma_extension(s: Seq<char>, m: int, n: int)
    requires
        0 <= m <= n <= s.len(),
        forall|k: int| m <= k < n ==> s[k] != '.',
        m > 0 ==> s[m - 1] == '.',
    ensures
        hook::extension(s, n) == s.skip(m),
    decreases n - m,
{
    if m < n {
        assert(s[n - 1] != '.');
        lemma_extension(s, m, n - 1);
    } else if m == 0 {
        assert(s.skip(0) =~= s);
    }
}

/// The kind of a file depends on what stands after the last dot of its path
/// alone. Without a dot the whole path counts.
pub proof fn law_kind_of_a_path(stem: Seq<char>, e: Seq<char>)
    requires
        !e.contains('.'),
    ensures
        hook::kind_of(stem + seq!['.'] + e) == hook::kind_of(e),
        hook::kind_of(e) is SlashSource <==> {
            ||| e == "rs"@ || e == "go"@ || e == "java"@ || e == "c"@ || e == "h"@
            ||| e == "cpp"@ || e == "hpp"@ || e == "cc"@ || e == "cs"@ || e == "swift"@
            ||| e == "kt"@ || e == "scala"@ || e == "ts"@ || e == "tsx"@ || e == "js"@
            ||| e == "jsx"@ || e == "mjs"@ || e == "cjs"@
        },
        hook::kind_of(e) is HashSource ==> {
            ||| e == "sh"@ || e == "bash"@ || e == "zsh"@ || e == "py"@ || e == "rb"@
            ||| e == "yaml"@ || e == "yml"@ || e == "toml"@ || e == "pl"@
        },
        e == "sh"@ || e == "bash"@ || e == "zsh"@ || e == "py"@ || e == "rb"@ || e == "yaml"@ || e
            == "yml"@ || e == "toml"@ || e == "pl"@ ==> !(hook::kind_of(e) is ProseFile),
        !(hook::kind_of(e) is CommitMessage),
{
    let s = stem + seq!['.'] + e;
    let m = stem.len() as int + 1;
    assert(s[m - 1] == '.');
    assert forall|k: int| m <= k < s.len() implies s[k] != '.' by {
        assert(s[k] == e[k - m]);
        assert(e.contains(e[k - m]));
    }
    lemma_extension(s, m, s.len() as int);
    assert(s.skip(m) =~= e);
    assert forall|k: int| 0 <= k < e.len() implies e[k] != '.' by {
        assert(e.contains(e[k]));
    }
    lemma_extension(e, 0, e.len() as int);
    assert(e.skip(0) =~= e);
}

/// A write or an edit is named by its file path. Where that is missing, by its
/// path. A name that is no string is shown as `file`.
pub proof fn law_display_path(file_path: FieldModel, path: FieldModel)
    ensures
        file_path matches FieldModel::Text(s) ==> hook::display_path("write"@, file_path, path)
            == s && hook::display_path("edit"@, file_path, path) == s,
        file_path is Absent && path is Text ==> hook::display_path("write"@, file_path, path)
            == path->0 && hook::display_path("edit"@, file_path, path) == path->0,
        file_path is Other || (file_path is Absent && !(path is Text)) ==> hook::display_path(
            "write"@,
            file_path,
            path,
        ) == "file"@ && hook::display_path("edit"@, file_path, path) == "file"@,
{
}

/// The windows that the hook answers.
pub proof fn law_windows(name: Seq<char>)
    ensures
        hook::window_of(name) is ToolBefore <==> name == "tool.before"@,
        hook::window_of(name) is ModelBefore <==> name == "model.before"@,
        hook::window_of(name) is RunIdle <==> name == "run.idle"@,
{
    reveal_strlit("tool.before");
    reveal_strlit("model.before");
    reveal_strlit("run.idle");
    assert("tool.before"@.len() == 11);
    assert("model.before"@.len() == 12);
    assert("run.idle"@.len() == 8);
}

// ── Prompt fragments ───────────────────────────────────────────────────────

proof fn lemma_others(fragments: Seq<Seq<char>>, n: int)
    requires
        0 <= n <= fragments.len(),
    ensures
        ({
            let kept = hook::others_to(hook::ids_in(fragments), n);
            Seq::new(kept.len(), |k: int| fragments[kept[k]])
        }) == fragments.take(n).filter(
            |f: Seq<char>| foreign::json_first_of(f) != Some("simple-english"@),
        ),
    decreases n,
{
    reveal(Seq::filter);
    let kept = hook::others_to(hook::ids_in(fragments), n);
    let got = Seq::new(kept.len(), |k: int| fragments[kept[k]]);
    let want = fragments.take(n).filter(
        |f: Seq<char>| foreign::json_first_of(f) != Some("simple-english"@),
    );
    if n > 0 {
        lemma_others(fragments, n - 1);
        let before = hook::others_to(hook::ids_in(fragments), n - 1);
        let w = Seq::new(before.len(), |k: int| fragments[before[k]]);
        assert(fragments.take(n).drop_last() =~= fragments.take(n - 1));
        if hook::is_own(hook::ids_in(fragments)[n - 1]) {
            assert(got =~= want);
        } else {
            assert(got =~= w.push(fragments[n - 1]));
        }
    } else {
        assert(got =~= want);
    }
}

/// The fragments of others stay in their order. The own one comes last, and
/// takes the place of an earlier own one.
pub proof fn law_fragments_of_others_stay(fragments: Seq<Seq<char>>, own: Seq<char>)
    ensures
        hook::with_fragment(fragments, own) == fragments.filter(
            |f: Seq<char>| foreign::json_first_of(f) != Some("simple-english"@),
        ).push(own),
{
    lemma_others(fragments, fragments.len() as int);
    assert(fragments.take(fragments.len() as int) =~= fragments);
}

// ── Replies ────────────────────────────────────────────────────────────────

/// A reply is sent back exactly when it has a hard violation, was not sent
/// back before, and fewer than three replies in a row were. The state then
/// counts one more, and remembers the reply. A reply without hard violations
/// sets the count to zero.
pub proof fn law_reply_gate(v: Seq<ViolationModel>, identity: Seq<char>, state: StateModel)
    ensures
        ({
            let gated = has_hard(v) && !state.gated_replies.contains(identity) && state.gate_count
                <= 2;
            let next = hook::idle_state(v, identity, state);
            &&& hook::idle_message(v, identity, state) is Some <==> gated
            &&& next.version == state.version
            &&& next.hard == v.filter(|x: ViolationModel| x.severity is Hard).len()
            &&& next.soft == v.filter(|x: ViolationModel| x.severity is Soft).len()
            &&& gated ==> next.gate_count == state.gate_count + 1 && next.last_identity == Some(
                identity,
            ) && next.gated_replies.contains(identity)
            &&& !gated ==> next.last_identity == state.last_identity && next.gated_replies
                == state.gated_replies
            &&& !has_hard(v) ==> next.gate_count == 0
            &&& has_hard(v) && !gated ==> next.gate_count == state.gate_count
        }),
{
    lemma_has(v);
    law_severities(v);
    if !state.gated_replies.contains(identity) {
        reply::law_recorded_reply_is_remembered(state.gated_replies, identity);
    }
}

/// The kind of a file is found from its path in lower case. Without a path it
/// is prose.
pub proof fn law_kind_of_a_call(file_path: FieldModel)
    ensures
        file_path matches FieldModel::Text(s) ==> hook::call_kind(file_path) == hook::kind_of(
            text::lowered(s),
        ),
        !(file_path is Text) ==> hook::call_kind(file_path) is ProseFile,
{
    if !(file_path is Text) {
        reveal_strlit("");
        let s = text::lowered(""@);
        assert(foreign::is_ascii(""@));
        assert(s.len() == 0);
        lemma_extension(s, 0, 0);
        lemma_no_extension(s);
    }
}

proof fn lemma_no_extension(s: Seq<char>)
    requires
        s.len() == 0,
    ensures
        hook::kind_of(s) is ProseFile,
{
    reveal_strlit("rs");
    reveal_strlit("go");
    reveal_strlit("java");
    reveal_strlit("c");
    reveal_strlit("h");
    reveal_strlit("cpp");
    reveal_strlit("hpp");
    reveal_strlit("cc");
    reveal_strlit("cs");
    reveal_strlit("swift");
    reveal_strlit("kt");
    reveal_strlit("scala");
    reveal_strlit("ts");
    reveal_strlit("tsx");
    reveal_strlit("js");
    reveal_strlit("jsx");
    reveal_strlit("mjs");
    reveal_strlit("cjs");
    reveal_strlit("sh");
    reveal_strlit("bash");
    reveal_strlit("zsh");
    reveal_strlit("py");
    reveal_strlit("rb");
    reveal_strlit("yaml");
    reveal_strlit("yml");
    reveal_strlit("toml");
    reveal_strlit("pl");
    let e = hook::extension(s, 0);
    assert(e == s);
}

/// A reply that is sent back is told of its hard and its soft violations, and
/// is added to the replies that were sent back.
pub proof fn law_reply_is_told(v: Seq<ViolationModel>, identity: Seq<char>, state: StateModel)
    ensures
        hook::idle_message(v, identity, state) matches Some(s) ==> s == hook::gate_message(
            v.filter(|x: ViolationModel| x.severity is Hard),
            v.filter(|x: ViolationModel| x.severity is Soft),
        ) && hook::idle_state(v, identity, state).gated_replies == reply::recorded(
            state.gated_replies,
            identity,
        ),
{
    law_severities(v);
}

/// What is said about a write: the verdict on the violations of its content
/// that stand on changed lines, under its path.
pub proof fn law_write_outcome(
    file_path: FieldModel,
    path: FieldModel,
    content: Seq<char>,
    previous: Option<Seq<char>>,
    config: ConfigModel,
)
    ensures
        ({
            let kind = hook::call_kind(file_path);
            let changed = diff::changed(kind, hook::or_empty(previous), content);
            hook::outcome(CallModel::Write { file_path, path, content, previous }, config)
                == hook::judged(
                hook::display_path("write"@, file_path, path),
                engine::report_of(
                    engine::report(kind, content, config).violations.filter(
                        |x: ViolationModel| edits::is_on(x, changed),
                    ),
                ),
            )
        }),
{
    let kind = hook::call_kind(file_path);
    let old_content = hook::or_empty(previous);
    let changed = diff::changed(kind, old_content, content);
    edits::law_report_on_changed_lines(engine::report(kind, content, config), changed);
}

/// What is said about an edit of a missing file: the verdict on its new
/// string, under its path.
pub proof fn law_missing_file_outcome(
    file_path: FieldModel,
    path: FieldModel,
    old_string: Seq<char>,
    new_string: Seq<char>,
    replace_all: bool,
    config: ConfigModel,
)
    ensures
        hook::outcome(
            CallModel::Edit {
                file_path,
                path,
                old_string,
                new_string,
                replace_all,
                previous: None,
            },
            config,
        ) == hook::judged(
            hook::display_path("edit"@, file_path, path),
            engine::report(hook::call_kind(file_path), new_string, config),
        ),
{
}

/// What is said about a command: nothing without a commit, that the message
/// could not be checked when it needs the shell, and otherwise the verdict on
/// all its messages together.
pub proof fn law_command_outcome(command: Seq<char>, config: ConfigModel)
    ensures
        ({
            let messages = commit::commits(command);
            let dynamic = exists|k: int|
                0 <= k < messages.len() && (#[trigger] messages[k]).requires_explicit_message;
            let got = hook::outcome(CallModel::Bash { command }, config);
            &&& messages.len() == 0 ==> got is Pass
            &&& dynamic ==> got == OutcomeModel::Block(
                "Writing rules could not check the git commit message. Use git commit with a static -m or --message argument."@,
            )
            &&& messages.len() > 0 && !dynamic ==> got == hook::judged(
                "commit message"@,
                engine::report_of(
                    lists::collected(
                        messages.len(),
                        |k: int|
                            engine::report(
                                LintKind::CommitMessage,
                                messages[k].message,
                                config,
                            ).violations,
                    ),
                ),
            )
        }),
{
    let messages = commit::commits(command);
    lemma_commit_violations(messages, config, messages.len() as int);
}

} // verus!

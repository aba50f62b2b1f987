//! Laws of settings, and of what is shown to the user.

use vstd::prelude::*;

use crate::engine;
use crate::feedback;
use crate::feedback::RuleRow;
use crate::findings;
use crate::foreign;
use crate::hook;
use crate::hook::{CallModel, FieldModel};
use crate::lines;
use crate::lists;
use crate::reply;
use crate::status;
use crate::status::RowColor;
use crate::text;
use crate::types;
use crate::types::{ConfigModel, LintKind, Severity, ViolationModel};
use crate::words;

verus! {

// ── Settings ───────────────────────────────────────────────────────────────

/// A configured value decides about a rule: `hard` and `soft` turn it on with
/// that severity, and every other value turns it off.
pub proof fn law_configured_rule(rules: Map<Seq<char>, Seq<char>>, rule_id: Seq<char>)
    requires
        rules.dom().contains(rule_id),
    ensures
        types::resolved(rules, rule_id) == Some(Severity::Hard) <==> rules[rule_id] == "hard"@,
        types::resolved(rules, rule_id) == Some(Severity::Soft) <==> rules[rule_id] == "soft"@,
{
    reveal_strlit("hard");
    reveal_strlit("soft");
    assert("hard"@[0] == 'h');
    assert("soft"@[0] == 's');
}

/// Without a configured value the three rules on hedging, marketing and the
/// passive are soft. Every other registered rule is hard, and a name that is
/// not registered is off.
pub proof fn law_default_rule(rules: Map<Seq<char>, Seq<char>>, rule_id: Seq<char>)
    requires
        !rules.dom().contains(rule_id),
    ensures
        types::resolved(rules, rule_id) is Some <==> findings::is_registered(rule_id),
        types::resolved(rules, rule_id) == Some(Severity::Soft) <==> {
            rule_id == "hedging"@ || rule_id == "marketing"@ || rule_id == "verb-passive"@
        },
{
    reveal_strlit("hedging");
    reveal_strlit("marketing");
    reveal_strlit("verb-passive");
    reveal_strlit("contraction");
    reveal_strlit("dictionary-not-approved-word");
    reveal_strlit("invalid-suppression");
    reveal_strlit("paragraph-length");
    reveal_strlit("phrasal-verb");
    reveal_strlit("semicolon");
    reveal_strlit("sentence-length");
    reveal_strlit("verb-progressive");
    reveal_strlit("verb-perfect");
    assert("hedging"@.len() == 7);
    assert("marketing"@.len() == 9 && "marketing"@[0] == 'm');
    assert("verb-passive"@.len() == 12 && "verb-passive"@[0] == 'v' && "verb-passive"@[6] == 'a');
    assert("contraction"@.len() == 11);
    assert("dictionary-not-approved-word"@.len() == 28);
    assert("invalid-suppression"@.len() == 19);
    assert("paragraph-length"@.len() == 16);
    assert("phrasal-verb"@.len() == 12 && "phrasal-verb"@[0] == 'p');
    assert("semicolon"@.len() == 9 && "semicolon"@[0] == 's');
    assert("sentence-length"@.len() == 15);
    assert("verb-progressive"@.len() == 16 && "verb-progressive"@[0] == 'v');
    assert("verb-perfect"@.len() == 12 && "verb-perfect"@[6] == 'e');
}

// ── Feedback ───────────────────────────────────────────────────────────────

/// The line about one violation: its place, its rule, its message, and the
/// first suggestion when there is one.
pub open spec fn violation_line(v: ViolationModel) -> Seq<char> {
    let start = "- line "@ + text::decimal(v.line as nat) + ", column "@ + text::decimal(
        v.column as nat,
    ) + " ["@ + v.rule_id + "]: "@ + v.message;
    match v.suggestions {
        Some(s) => if s.len() > 0 {
            start + ". Suggested fix: use \""@ + s[0] + "\"."@
        } else {
            start
        },
        None => start,
    }
}

/// Feedback starts with a heading and the path, and has one line for each
/// violation. Without violations there is none.
pub proof fn law_feedback(
    path: Seq<char>,
    heading: Seq<char>,
    v: Seq<ViolationModel>,
    x: ViolationModel,
)
    ensures
        feedback::feedback(path, heading, Seq::empty()).len() == 0,
        feedback::feedback(path, heading, seq![x]) == heading + seq![' '] + path + seq![':', '\n']
            + violation_line(x),
        v.len() > 0 ==> feedback::feedback(path, heading, v.push(x)) == feedback::feedback(
            path,
            heading,
            v,
        ) + seq!['\n'] + violation_line(x),
{
    reveal_strlit(" ");
    reveal_strlit(":\n");
    reveal_strlit("\n");
    assert(" "@ =~= seq![' ']);
    assert(":\n"@ =~= seq![':', '\n']);
    assert("\n"@ =~= seq!['\n']);
    assert(feedback::detail(x) =~= violation_line(x));
    assert(feedback::details(seq![x]) =~= seq![feedback::detail(x)]);
    assert(feedback::details(v.push(x)) =~= feedback::details(v).push(feedback::detail(x)));
    words::law_join(feedback::details(v), feedback::detail(x), "\n"@);
    let start = heading + " "@ + path + ":\n"@;
    let body = lines::join(feedback::details(v), "\n"@);
    assert(start + (body + "\n"@ + feedback::detail(x)) =~= start + body + "\n"@
        + feedback::detail(x));
}

/// The line of the summary about one rule. A rule that is off has none, and
/// neither has the paragraph rule without a cap.
pub open spec fn rule_lines(config: ConfigModel, rule: (Seq<char>, Seq<char>)) -> Seq<RuleRow> {
    if rule.0 == "paragraph-length"@ && findings::sentence_cap(LintKind::ProseFile, config) == 0 {
        Seq::empty()
    } else {
        match types::resolved(config.rules, rule.0) {
            Some(Severity::Hard) => seq![
                RuleRow { rule_id: rule.0, line: "- ["@ + "hard"@ + "] "@ + rule.1 },
            ],
            Some(Severity::Soft) => seq![
                RuleRow { rule_id: rule.0, line: "- ["@ + "soft"@ + "] "@ + rule.1 },
            ],
            None => Seq::empty(),
        }
    }
}

proof fn lemma_listed(config: ConfigModel, rules: Seq<(Seq<char>, Seq<char>)>, n: int)
    requires
        0 <= n <= rules.len(),
    ensures
        feedback::listed_to(config, rules, n) == lists::collected(
            n as nat,
            |k: int| rule_lines(config, rules[k]),
        ),
    decreases n,
{
    let f = |k: int| rule_lines(config, rules[k]);
    lists::lemma_collected(n as nat, f);
    if n > 0 {
        lemma_listed(config, rules, n - 1);
        let rule = rules[n - 1];
        assert(f(n - 1) == rule_lines(config, rule));
        assert(feedback::rule_row(config, rule.0, rule.1) == rule_lines(config, rule));
    }
}

/// A list of rules shows the rules that are on, in their order, each with its
/// severity.
pub proof fn law_listed_rules(config: ConfigModel, rules: Seq<(Seq<char>, Seq<char>)>)
    ensures
        feedback::listed(config, rules) == lists::collected(
            rules.len(),
            |k: int| rule_lines(config, rules[k]),
        ),
{
    lemma_listed(config, rules, rules.len() as int);
}

// ── Status row ─────────────────────────────────────────────────────────────

/// The status row is red when there are hard violations, yellow when there are
/// only soft ones, and green when there are none.
pub proof fn law_status_row(hard: nat, soft: nat)
    ensures
        status::row_color(hard, soft) == RowColor::Red <==> hard > 0,
        status::row_color(hard, soft) == RowColor::Yellow <==> hard == 0 && soft > 0,
        status::row_color(hard, soft) == RowColor::Green <==> hard == 0 && soft == 0,
        status::row_text(hard, soft) == " Writing-rule reply: "@ + text::decimal(hard) + " hard, "@
            + text::decimal(soft) + " soft "@,
{
}

/// The state file stands in the session directory, when one is given.
/// Otherwise it stands in the directory of the session, under the root of the
/// sessions when that is known. With neither there is none.
pub proof fn law_state_file(
    session: Option<&str>,
    session_dir: Option<&str>,
    sessions_root: Option<&str>,
)
    ensures
        ({
            let file = "simple-english-state.json"@;
            let got = status::state_parts(session, session_dir, sessions_root);
            let has_dir = (session_dir matches Some(d) && d@.len() > 0);
            let has_session = (session matches Some(s) && s@.len() > 0);
            &&& has_dir ==> got == Some(seq![session_dir->0@, file])
            &&& !has_dir && has_session && sessions_root is Some ==> got == Some(
                seq![sessions_root->0@, session->0@, file],
            )
            &&& !has_dir && has_session && sessions_root is None ==> got == Some(
                seq![session->0@, file],
            )
            &&& !has_dir && !has_session ==> got is None
        }),
{
}

/// The root of the sessions is what the settings say, or `sessions`. Settings
/// that cannot be read give none.
pub proof fn law_sessions_root(setting: Option<Option<Seq<char>>>)
    ensures
        setting is None ==> status::root_of(setting) is None,
        setting == Some(None::<Seq<char>>) ==> status::root_of(setting) == Some("sessions"@),
        setting matches Some(Some(root)) ==> status::root_of(setting) == Some(root),
{
}

// ── Replies ────────────────────────────────────────────────────────────────

/// The identity of a reply is the hash of its UTF-8 bytes, in sixteen
/// hexadecimal digits.
pub proof fn law_identity_is_the_hash(content: Seq<char>)
    ensures
        ({
            let bytes = vstd::utf8::encode_utf8(content);
            &&& reply::identity_of(content).len() == 16
            &&& words::hexadecimal_value(reply::identity_of(content)) == foreign::fnv_to(
                bytes,
                bytes.len() as int,
            )
        }),
{
    let bytes = vstd::utf8::encode_utf8(content);
    let n = foreign::fnv_to(bytes, bytes.len() as int) as nat;
    reveal_with_fuel(words::hexadecimal_range, 17);
    words::law_hexadecimal_is_the_number(n, 16);
}

/// What a reply that is sent back is told: how many violations it has, the
/// hard ones, and the soft ones when there are any.
pub proof fn law_gate_text(hard: Seq<ViolationModel>, soft: Seq<ViolationModel>)
    ensures
        ({
            let counts = "Your last reply was blocked by the writing rules ("@ + text::decimal(
                hard.len(),
            ) + " hard violation(s)"@;
            let rest =
                "). Revise only the flagged lines below. Do not post the reply again. Do not answer your own open questions as user replies.\n\nHard violations:\n"@
                + feedback::feedback("reply"@, ""@, hard);
            &&& soft.len() == 0 ==> hook::gate_message(hard, soft) == counts + rest
            &&& soft.len() > 0 ==> hook::gate_message(hard, soft) == counts + ", "@ + text::decimal(
                soft.len(),
            ) + " soft"@ + rest + "\n\nSoft violations (warnings):\n"@ + feedback::feedback(
                "reply"@,
                ""@,
                soft,
            )
        }),
{
    let counts = "Your last reply was blocked by the writing rules ("@ + text::decimal(hard.len())
        + " hard violation(s)"@;
    let mid =
        "). Revise only the flagged lines below. Do not post the reply again. Do not answer your own open questions as user replies.\n\nHard violations:\n"@;
    let list = feedback::feedback("reply"@, ""@, hard);
    let rest = mid + list;
    let got = hook::gate_message(hard, soft);
    if soft.len() == 0 {
        assert(got =~= counts + rest);
    } else {
        let note = ", "@ + text::decimal(soft.len()) + " soft"@;
        let tail = "\n\nSoft violations (warnings):\n"@ + feedback::feedback("reply"@, ""@, soft);
        assert(got == counts + note + mid + list + tail);
        assert(counts + ", "@ + text::decimal(soft.len()) + " soft"@ =~= counts + note);
        assert(got =~= counts + ", "@ + text::decimal(soft.len()) + " soft"@ + rest
            + "\n\nSoft violations (warnings):\n"@ + feedback::feedback("reply"@, ""@, soft));
    }
}

// ── Payloads ───────────────────────────────────────────────────────────────

/// The string that a JSON text holds under a key, or nothing.
pub open spec fn string_or_empty(text: Seq<char>, key: Seq<char>) -> Seq<char> {
    match foreign::json_field_of(text, key) {
        Some(Some(s)) => s,
        _ => Seq::empty(),
    }
}

/// The arguments of a call, printed. A call without arguments has no fields.
pub open spec fn printed_arguments(call: Seq<char>) -> Seq<char> {
    match foreign::json_part_of(call, "arguments"@) {
        Some(t) => t,
        None => "{}"@,
    }
}

/// A call is read by its name, from the fields of its arguments. A field that
/// is missing, or no string, is empty. All places are replaced only when
/// `replace_all` is true.
pub proof fn law_pending_call(call: Seq<char>, previous: Option<Seq<char>>)
    ensures
        ({
            let name = string_or_empty(call, "name"@);
            let a = printed_arguments(call);
            let got = hook::pending_in(call, previous);
            &&& got.id == string_or_empty(call, "id"@)
            &&& name == "write"@ ==> got.call == (CallModel::Write {
                file_path: hook::field_in(a, "file_path"@),
                path: hook::field_in(a, "path"@),
                content: string_or_empty(a, "content"@),
                previous,
            })
            &&& name == "edit"@ ==> got.call == (CallModel::Edit {
                file_path: hook::field_in(a, "file_path"@),
                path: hook::field_in(a, "path"@),
                old_string: string_or_empty(a, "old_string"@),
                new_string: string_or_empty(a, "new_string"@),
                replace_all: foreign::json_flag_of(a, "replace_all"@) == Some(true),
                previous,
            })
            &&& name == "bash"@ ==> got.call == (CallModel::Bash {
                command: string_or_empty(a, "command"@),
            })
            &&& name != "write"@ && name != "edit"@ && name != "bash"@ ==> got.call is Other
        }),
{
    reveal_strlit("write");
    reveal_strlit("edit");
    reveal_strlit("bash");
    assert("write"@.len() == 5);
    assert("edit"@.len() == 4 && "edit"@[0] == 'e');
    assert("bash"@.len() == 4 && "bash"@[0] == 'b');
}

/// A field is absent when the object does not hold its key. Otherwise it is a
/// text when it is a string.
pub proof fn law_fields(text: Seq<char>, key: Seq<char>)
    ensures
        hook::field_in(text, key) is Absent <==> foreign::json_part_of(text, key) is None,
        hook::field_in(text, key) matches FieldModel::Text(s) ==> foreign::json_field_of(text, key)
            == Some(Some(s)),
        foreign::json_field_of(text, key) matches Some(Some(s)) ==> (foreign::json_part_of(
            text,
            key,
        ) is Some ==> hook::field_in(text, key) == FieldModel::Text(s)),
{
}

/// The request of a payload, printed. A missing request and `null` are empty
/// objects.
pub proof fn law_request(payload: Seq<char>)
    ensures
        ({
            let part = foreign::json_part_of(payload, "request"@);
            &&& part is None || part == Some("null"@) ==> hook::request_in(payload) == "{}"@
            &&& part is Some && part != Some("null"@) ==> hook::request_in(payload) == part->0
        }),
{
}

/// A reply is linted as prose.
pub proof fn law_replies_are_prose(content: Seq<char>, config: ConfigModel)
    ensures
        hook::reply_violations(content, config) == engine::report(
            LintKind::ProseFile,
            content,
            config,
        ).violations,
{
}

/// The string under a key is there exactly when the text is JSON and holds a
/// string under it.
pub proof fn law_strings(text: Seq<char>, key: Seq<char>, s: Seq<char>)
    ensures
        hook::string_in(text, key) == Some(s) <==> foreign::json_field_of(text, key) == Some(
            Some(s),
        ),
{
}

/// A write and an edit change the file that they name. No other call changes
/// one.
pub proof fn law_file_of_a_call(call: Seq<char>)
    ensures
        ({
            let name = string_or_empty(call, "name"@);
            let a = printed_arguments(call);
            let got = hook::file_in(hook::tool_in(call), hook::call_arguments(call));
            &&& got is Some <==> name == "write"@ || name == "edit"@
            &&& got is Some ==> got == Some(
                match hook::field_in(a, "file_path"@) {
                    FieldModel::Text(s) => s,
                    _ => ""@,
                },
            )
        }),
{
}

// ── Summary ────────────────────────────────────────────────────────────────

/// The rules that the summary speaks of, in its order.
pub open spec fn summarised(config: ConfigModel) -> Seq<(Seq<char>, Seq<char>)> {
    feedback::ste_rules(config) + feedback::directive_rules() + feedback::house_rules()
}

/// The summary speaks of every registered rule once, and of no other. It
/// gives the caps that are in force.
pub proof fn law_summary_speaks_of_all_rules(config: ConfigModel, rule_id: Seq<char>)
    ensures
        summarised(config).len() == 12,
        findings::is_registered(rule_id) <==> exists|k: int|
            0 <= k < 12 && (#[trigger] summarised(config)[k]).0 == rule_id,
        summarised(config)[5] == (
            "sentence-length"@,
            "Keep each sentence to "@ + text::decimal(findings::word_cap(config))
                + " words or fewer."@,
        ),
        summarised(config)[2].0 == "paragraph-length"@,
        findings::sentence_cap(LintKind::ProseFile, config) != 6 ==> summarised(config)[2].1
            == "Use no more than "@ + text::decimal(
            findings::sentence_cap(LintKind::ProseFile, config),
        ) + " sentences in one paragraph."@,
        findings::sentence_cap(LintKind::ProseFile, config) == 6 ==> summarised(config)[2].1
            == "Use no more than "@ + "six"@ + " sentences in one paragraph."@,
{
    let v = summarised(config);
    assert(v[0].0 == "contraction"@);
    assert(v[1].0 == "dictionary-not-approved-word"@);
    assert(v[2].0 == "paragraph-length"@);
    assert(v[3].0 == "phrasal-verb"@);
    assert(v[4].0 == "semicolon"@);
    assert(v[5].0 == "sentence-length"@);
    assert(v[6].0 == "verb-progressive"@);
    assert(v[7].0 == "verb-passive"@);
    assert(v[8].0 == "verb-perfect"@);
    assert(v[9].0 == "invalid-suppression"@);
    assert(v[10].0 == "hedging"@);
    assert(v[11].0 == "marketing"@);
}

proof fn lemma_concat_contains<A>(a: Seq<A>, b: Seq<A>, x: A)
    requires
        a.contains(x) || b.contains(x),
    ensures
        (a + b).contains(x),
{
    let all = a + b;
    if a.contains(x) {
        let i = choose|i: int| 0 <= i < a.len() && a[i] == x;
        assert(all[i] == x);
    } else {
        let i = choose|i: int| 0 <= i < b.len() && b[i] == x;
        assert(all[a.len() + i] == x);
    }
}

proof fn lemma_section(
    title: Seq<char>,
    config: ConfigModel,
    rules: Seq<(Seq<char>, Seq<char>)>,
    k: int,
)
    requires
        0 <= k < rules.len(),
        rule_lines(config, rules[k]).len() > 0,
    ensures
        feedback::section(title, feedback::listed(config, rules)).contains(
            rule_lines(config, rules[k])[0].line,
        ),
{
    let f = |k: int| rule_lines(config, rules[k]);
    let row = rule_lines(config, rules[k])[0];
    law_listed_rules(config, rules);
    assert(f(k)[0] == row);
    assert(f(k).contains(row));
    lists::lemma_collected_contains(rules.len(), f, row);
    let rows = feedback::listed(config, rules);
    let i = choose|i: int| 0 <= i < rows.len() && rows[i] == row;
    let texts = feedback::row_texts(rows);
    assert(texts[i] == row.line);
    lemma_concat_contains(seq![title, ""@], texts, row.line);
    lemma_concat_contains(seq![title, ""@] + texts, seq![""@], row.line);
}

/// Every rule that is on has its line in the summary.
pub proof fn law_summary_shows_rules_that_are_on(config: ConfigModel, k: int)
    requires
        0 <= k < 12,
        rule_lines(config, summarised(config)[k]).len() > 0,
    ensures
        feedback::summary_rows(config).contains(
            rule_lines(config, summarised(config)[k])[0].line,
        ),
{
    let x = rule_lines(config, summarised(config)[k])[0].line;
    let a = feedback::ste_rules(config);
    let b = feedback::directive_rules();
    let c = feedback::house_rules();
    let s = feedback::section(
        "### ASD-STE100 Simplified Technical English"@,
        feedback::listed(config, a),
    );
    let t = feedback::section("### Directive validation"@, feedback::listed(config, b));
    let u = feedback::section("### House-style rules"@, feedback::listed(config, c));
    if k < 9 {
        assert(summarised(config)[k] == a[k]);
        lemma_section("### ASD-STE100 Simplified Technical English"@, config, a, k);
    } else if k < 10 {
        assert(summarised(config)[k] == b[k - 9]);
        lemma_section("### Directive validation"@, config, b, k - 9);
    } else {
        assert(summarised(config)[k] == c[k - 10]);
        lemma_section("### House-style rules"@, config, c, k - 10);
    }
    if k < 10 {
        lemma_concat_contains(s, t, x);
    }
    lemma_concat_contains(s + t, u, x);
    let groups = feedback::sections(config);
    assert(groups.contains(x));
    let head = seq!["Apply these enabled rules to prose that you write or edit:"@, ""@];
    lemma_concat_contains(head, groups, x);
    lemma_concat_contains(seq!["## Writing rules"@, ""@], head + groups, x);
    let tail = seq![
        "Writes, edits, and git commit messages reject hard violations. Correct the reported text and retry. Soft violations produce warnings."@,
    ];
    lemma_concat_contains(seq!["## Writing rules"@, ""@] + (head + groups), tail, x);
}

} // verus!

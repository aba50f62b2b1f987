//! What the hook decides in each window.
//!
//! - `tool.before` inspects pending `write`, `edit`, and `bash` (git
//!   commit) calls. Hard violations block the call. Soft violations become
//!   notes. Write and edit calls use diff-aware linting: only violations
//!   that are *new* to the change are reported.
//! - `model.before` puts the rule summary into the prompt fragments.
//! - `run.idle` lints the last assistant reply. When hard violations are
//!   found, the loop is continued with a correction prompt so the model
//!   revises its reply.

use vstd::prelude::*;
use vstd::string::StringExecFns;

use crate::commit;
use crate::diff;
use crate::engine;
use crate::feedback;
use crate::foreign;
use crate::lines;
use crate::reply;
use crate::reply::{ReplyState, StateModel};
use crate::text;
use crate::types;
use crate::types::{
    ConfigModel, LintConfig, LintKind, LintReport, ReportModel, Severity, Violation, ViolationModel,
};

verus! {

// ── Payloads ───────────────────────────────────────────────────────────────

/// The window in which the hook was called.
#[derive(Debug, Clone, Copy, PartialEq, Eq, Structural)]
pub enum Window {
    ToolBefore,
    ModelBefore,
    RunIdle,
    /// A window that the hook does not serve.
    Other,
}

/// A text that may be missing. A missing one is empty.
pub open spec fn or_empty(s: Option<Seq<char>>) -> Seq<char> {
    match s {
        Some(s) => s,
        None => Seq::empty(),
    }
}

/// The window with a name.
pub open spec fn window_of(name: Seq<char>) -> Window {
    if name == "tool.before"@ {
        Window::ToolBefore
    } else if name == "model.before"@ {
        Window::ModelBefore
    } else if name == "run.idle"@ {
        Window::RunIdle
    } else {
        Window::Other
    }
}

/// The string under a key of a JSON text. Text that is not JSON has none.
pub open spec fn string_in(text: Seq<char>, key: Seq<char>) -> Option<Seq<char>> {
    reply::flat(foreign::json_field_of(text, key))
}

fn string_of(text: &str, key: &str) -> (r: Option<String>)
    ensures
        reply::text_of(r) == string_in(text@, key@),
{
    reply::flatten(foreign::json_field(text, key))
}

fn unwrap_or_empty(s: Option<String>) -> (r: String)
    ensures
        r@ == or_empty(reply::text_of(s)),
{
    match s {
        Some(s) => s,
        None => String::new(),
    }
}

/// The window with a name.
pub fn window_named(name: &str) -> (r: Window)
    ensures
        r == window_of(name@),
{
    if text::same(name, "tool.before") {
        Window::ToolBefore
    } else if text::same(name, "model.before") {
        Window::ModelBefore
    } else if text::same(name, "run.idle") {
        Window::RunIdle
    } else {
        Window::Other
    }
}

/// The window that a payload names.
pub fn payload_window(payload: &str) -> (r: Window)
    ensures
        r == window_of(or_empty(string_in(payload@, "window"@))),
{
    window_named(unwrap_or_empty(string_of(payload, "window")).as_str())
}

/// The session directory that a payload names.
pub fn payload_session(payload: &str) -> (r: Option<String>)
    ensures
        reply::text_of(r) == string_in(payload@, "session"@),
{
    string_of(payload, "session")
}

/// The calls in a list that may be missing.
pub open spec fn calls_in(elements: Option<Seq<Seq<char>>>) -> Seq<Seq<char>> {
    match elements {
        Some(v) => v,
        None => Seq::empty(),
    }
}

/// The pending calls of a payload, as JSON texts.
pub fn payload_calls(payload: &str) -> (r: Vec<String>)
    ensures
        lines::texts(r@) == calls_in(foreign::json_elements_of(payload@, "calls"@)),
{
    match foreign::json_elements(payload, "calls") {
        Some(v) => v,
        None => {
            let r: Vec<String> = Vec::new();
            assert(lines::texts(r@) =~= Seq::<Seq<char>>::empty());
            r
        },
    }
}

// ── Paths ──────────────────────────────────────────────────────────────────

/// The extension of a path: what follows its last dot. Without a dot it is
/// the whole path.
pub open spec fn extension(s: Seq<char>, n: int) -> Seq<char>
    decreases n,
{
    if n <= 0 || n > s.len() {
        s
    } else if s[n - 1] == '.' {
        s.skip(n)
    } else {
        extension(s, n - 1)
    }
}

/// The extensions of sources with `//` comments.
pub open spec fn is_slash_extension(e: Seq<char>) -> bool {
    ||| e == "rs"@
    ||| e == "go"@
    ||| e == "java"@
    ||| e == "c"@
    ||| e == "h"@
    ||| e == "cpp"@
    ||| e == "hpp"@
    ||| e == "cc"@
    ||| e == "cs"@
    ||| e == "swift"@
    ||| e == "kt"@
    ||| e == "scala"@
    ||| e == "ts"@
    ||| e == "tsx"@
    ||| e == "js"@
    ||| e == "jsx"@
    ||| e == "mjs"@
    ||| e == "cjs"@
}

/// The extensions of sources with `#` comments.
pub open spec fn is_hash_extension(e: Seq<char>) -> bool {
    ||| e == "sh"@
    ||| e == "bash"@
    ||| e == "zsh"@
    ||| e == "py"@
    ||| e == "rb"@
    ||| e == "yaml"@
    ||| e == "yml"@
    ||| e == "toml"@
    ||| e == "pl"@
}

/// The content kind of a path, given in lower case. Whatever is not known as
/// source is prose.
pub open spec fn kind_of(lowered: Seq<char>) -> LintKind {
    let e = extension(lowered, lowered.len() as int);
    if is_slash_extension(e) {
        LintKind::SlashSource
    } else if is_hash_extension(e) {
        LintKind::HashSource
    } else {
        LintKind::ProseFile
    }
}

/// The content kind of a path, given in lower case.
pub fn classify_lowered(lowered: &str) -> (r: LintKind)
    ensures
        r == kind_of(lowered@),
{
    let s = text::chars_of(lowered);
    let mut n: usize = s.len();
    while n > 0 && s[n - 1] != '.'
        invariant
            s@ == lowered@,
            n <= s@.len(),
            extension(s@, s@.len() as int) == extension(s@, n as int),
        decreases n,
    {
        n -= 1;
    }
    let ext = text::string_of(&s, n, s.len());
    assert(ext@ =~= extension(s@, s@.len() as int));
    let e = ext.as_str();
    if text::same(e, "rs") || text::same(e, "go") || text::same(e, "java") || text::same(e, "c")
        || text::same(e, "h") || text::same(e, "cpp") || text::same(e, "hpp") || text::same(e, "cc")
        || text::same(e, "cs") || text::same(e, "swift") || text::same(e, "kt") || text::same(
        e,
        "scala",
    ) || text::same(e, "ts") || text::same(e, "tsx") || text::same(e, "js") || text::same(e, "jsx")
        || text::same(e, "mjs") || text::same(e, "cjs") {
        LintKind::SlashSource
    } else if text::same(e, "sh") || text::same(e, "bash") || text::same(e, "zsh") || text::same(
        e,
        "py",
    ) || text::same(e, "rb") || text::same(e, "yaml") || text::same(e, "yml") || text::same(
        e,
        "toml",
    ) || text::same(e, "pl") {
        LintKind::HashSource
    } else {
        LintKind::ProseFile
    }
}

/// Classify a file path into a `LintKind`.
pub fn classify_path(path: &str) -> (r: LintKind)
    ensures
        r == kind_of(text::lowered(path@)),
{
    classify_lowered(text::lower(path).as_str())
}

/// A field of a tool call's arguments.
#[derive(Debug)]
pub enum Field {
    /// The arguments do not have the field.
    Absent,
    /// The field holds something other than a string.
    Other,
    /// The field holds a string.
    Text(String),
}

/// What a field holds.
pub enum FieldModel {
    Absent,
    Other,
    Text(Seq<char>),
}

impl View for Field {
    type V = FieldModel;

    open spec fn view(&self) -> FieldModel {
        match self {
            Field::Absent => FieldModel::Absent,
            Field::Other => FieldModel::Other,
            Field::Text(s) => FieldModel::Text(s@),
        }
    }
}

impl FieldModel {
    /// The text of a field, or a fallback.
    pub open spec fn or(self, fallback: Seq<char>) -> Seq<char> {
        match self {
            FieldModel::Text(s) => s,
            _ => fallback,
        }
    }
}

/// The label of a call in feedback messages.
pub open spec fn display_path(tool: Seq<char>, file_path: FieldModel, path: FieldModel) -> Seq<
    char,
> {
    if tool == "write"@ || tool == "edit"@ {
        match file_path {
            FieldModel::Absent => path.or("file"@),
            f => f.or("file"@),
        }
    } else if tool == "bash"@ {
        "commit message"@
    } else {
        "content"@
    }
}

/// Return a human-readable path label for feedback messages. The field
/// `file_path` wins over `path`.
pub fn get_display_path(tool: &str, file_path: &Field, path: &Field) -> (r: String)
    ensures
        r@ == display_path(tool@, file_path@, path@),
{
    if text::same(tool, "write") || text::same(tool, "edit") {
        let field = match file_path {
            Field::Absent => path,
            _ => file_path,
        };
        match field {
            Field::Text(s) => s.clone(),
            _ => "file".to_owned(),
        }
    } else if text::same(tool, "bash") {
        "commit message".to_owned()
    } else {
        "content".to_owned()
    }
}

// ── Severities ─────────────────────────────────────────────────────────────

/// Those of the first `n` violations that have a severity.
pub open spec fn of_severity(v: Seq<ViolationModel>, severity: Severity, n: int) -> Seq<
    ViolationModel,
>
    decreases n,
{
    if n <= 0 {
        Seq::empty()
    } else if v[n - 1].severity == severity {
        of_severity(v, severity, n - 1).push(v[n - 1])
    } else {
        of_severity(v, severity, n - 1)
    }
}

/// The hard violations of a list.
pub open spec fn hard_of(v: Seq<ViolationModel>) -> Seq<ViolationModel> {
    of_severity(v, Severity::Hard, v.len() as int)
}

/// The soft violations of a list.
pub open spec fn soft_of(v: Seq<ViolationModel>) -> Seq<ViolationModel> {
    of_severity(v, Severity::Soft, v.len() as int)
}

fn select(v: &Vec<Violation>, severity: Severity) -> (r: Vec<Violation>)
    ensures
        types::models(r@) == of_severity(types::models(v@), severity, v@.len() as int),
{
    let ghost all = types::models(v@);
    let mut r: Vec<Violation> = Vec::new();
    assert(types::models(r@) =~= Seq::<ViolationModel>::empty());
    let mut i: usize = 0;
    while i < v.len()
        invariant
            all == types::models(v@),
            i <= v@.len(),
            types::models(r@) == of_severity(all, severity, i as int),
        decreases v@.len() - i,
    {
        assert(all[i as int] == v@[i as int]@);
        if v[i].severity == severity {
            let ghost before = types::models(r@);
            r.push(v[i].clone());
            assert(types::models(r@) =~= before.push(all[i as int]));
        }
        i += 1;
    }
    r
}

proof fn lemma_hard_count(v: Seq<ViolationModel>, n: int)
    ensures
        of_severity(v, Severity::Hard, n).len() == engine::hard_to(v, n),
    decreases n,
{
    if n > 0 {
        lemma_hard_count(v, n - 1);
    }
}

// ── tool.before ────────────────────────────────────────────────────────────

/// A pending tool call, with the content that the file it names has now.
#[derive(Debug)]
pub enum ToolCall {
    Write { file_path: Field, path: Field, content: String, previous: Option<String> },
    Edit {
        file_path: Field,
        path: Field,
        old_string: String,
        new_string: String,
        replace_all: bool,
        previous: Option<String>,
    },
    Bash { command: String },
    /// A tool that writes no text.
    Other,
}

/// What a pending tool call says.
pub enum CallModel {
    Write {
        file_path: FieldModel,
        path: FieldModel,
        content: Seq<char>,
        previous: Option<Seq<char>>,
    },
    Edit {
        file_path: FieldModel,
        path: FieldModel,
        old_string: Seq<char>,
        new_string: Seq<char>,
        replace_all: bool,
        previous: Option<Seq<char>>,
    },
    Bash { command: Seq<char> },
    Other,
}

impl View for ToolCall {
    type V = CallModel;

    open spec fn view(&self) -> CallModel {
        match self {
            ToolCall::Write { file_path, path, content, previous } => CallModel::Write {
                file_path: file_path@,
                path: path@,
                content: content@,
                previous: reply::text_of(*previous),
            },
            ToolCall::Edit { file_path, path, old_string, new_string, replace_all, previous } => {
                CallModel::Edit {
                    file_path: file_path@,
                    path: path@,
                    old_string: old_string@,
                    new_string: new_string@,
                    replace_all: *replace_all,
                    previous: reply::text_of(*previous),
                }
            },
            ToolCall::Bash { command } => CallModel::Bash { command: command@ },
            ToolCall::Other => CallModel::Other,
        }
    }
}

/// A pending tool call with its id.
#[derive(Debug)]
pub struct PendingCall {
    pub id: String,
    pub call: ToolCall,
}

/// What a pending tool call with its id says.
pub struct PendingModel {
    pub id: Seq<char>,
    pub call: CallModel,
}

impl View for PendingCall {
    type V = PendingModel;

    open spec fn view(&self) -> PendingModel {
        PendingModel { id: self.id@, call: self.call@ }
    }
}

/// What a list of pending tool calls says.
pub open spec fn pending_models(v: Seq<PendingCall>) -> Seq<PendingModel> {
    Seq::new(v.len(), |i: int| v[i]@)
}

// ── Reading calls ──────────────────────────────────────────────────────────

/// The arguments of a tool call, as far as a tool that writes text has them.
#[derive(Debug)]
pub struct Arguments {
    pub file_path: Field,
    pub path: Field,
    pub content: Option<String>,
    pub old_string: Option<String>,
    pub new_string: Option<String>,
    pub replace_all: Option<bool>,
    pub command: Option<String>,
}

/// What the arguments of a tool call say.
pub struct ArgumentsModel {
    pub file_path: FieldModel,
    pub path: FieldModel,
    pub content: Option<Seq<char>>,
    pub old_string: Option<Seq<char>>,
    pub new_string: Option<Seq<char>>,
    pub replace_all: Option<bool>,
    pub command: Option<Seq<char>>,
}

impl View for Arguments {
    type V = ArgumentsModel;

    open spec fn view(&self) -> ArgumentsModel {
        ArgumentsModel {
            file_path: self.file_path@,
            path: self.path@,
            content: reply::text_of(self.content),
            old_string: reply::text_of(self.old_string),
            new_string: reply::text_of(self.new_string),
            replace_all: self.replace_all,
            command: reply::text_of(self.command),
        }
    }
}

/// The field under a key of a JSON text.
pub open spec fn field_in(text: Seq<char>, key: Seq<char>) -> FieldModel {
    match (foreign::json_part_of(text, key), string_in(text, key)) {
        (None, _) => FieldModel::Absent,
        (Some(_), Some(s)) => FieldModel::Text(s),
        (Some(_), None) => FieldModel::Other,
    }
}

/// The arguments that a JSON text holds.
pub open spec fn arguments_in(text: Seq<char>) -> ArgumentsModel {
    ArgumentsModel {
        file_path: field_in(text, "file_path"@),
        path: field_in(text, "path"@),
        content: string_in(text, "content"@),
        old_string: string_in(text, "old_string"@),
        new_string: string_in(text, "new_string"@),
        replace_all: foreign::json_flag_of(text, "replace_all"@),
        command: string_in(text, "command"@),
    }
}

/// The call of the tool `name` with these arguments, when the file that it
/// names has the content `previous`. A missing text is empty, and a missing
/// flag is false. Tools other than `write`, `edit` and `bash` write no text.
pub open spec fn call_in(
    name: Seq<char>,
    arguments: ArgumentsModel,
    previous: Option<Seq<char>>,
) -> CallModel {
    if name == "write"@ {
        CallModel::Write {
            file_path: arguments.file_path,
            path: arguments.path,
            content: or_empty(arguments.content),
            previous,
        }
    } else if name == "edit"@ {
        CallModel::Edit {
            file_path: arguments.file_path,
            path: arguments.path,
            old_string: or_empty(arguments.old_string),
            new_string: or_empty(arguments.new_string),
            replace_all: arguments.replace_all == Some(true),
            previous,
        }
    } else if name == "bash"@ {
        CallModel::Bash { command: or_empty(arguments.command) }
    } else {
        CallModel::Other
    }
}

/// The file whose content a call of the tool `name` changes.
pub open spec fn file_in(name: Seq<char>, arguments: ArgumentsModel) -> Option<Seq<char>> {
    if name == "write"@ || name == "edit"@ {
        Some(arguments.file_path.or(""@))
    } else {
        None
    }
}

/// The tool that a call names.
pub open spec fn tool_in(call: Seq<char>) -> Seq<char> {
    or_empty(string_in(call, "name"@))
}

/// The arguments of a call. A call without arguments has an empty object.
pub open spec fn call_arguments(call: Seq<char>) -> ArgumentsModel {
    match foreign::json_part_of(call, "arguments"@) {
        Some(t) => arguments_in(t),
        None => arguments_in("{}"@),
    }
}

/// The call of a tool with these arguments, when the file that it names has
/// the content `previous`.
pub fn call_of(name: &str, arguments: Arguments, previous: Option<String>) -> (r: ToolCall)
    ensures
        r@ == call_in(name@, arguments@, reply::text_of(previous)),
{
    if text::same(name, "write") {
        ToolCall::Write {
            file_path: arguments.file_path,
            path: arguments.path,
            content: unwrap_or_empty(arguments.content),
            previous,
        }
    } else if text::same(name, "edit") {
        ToolCall::Edit {
            file_path: arguments.file_path,
            path: arguments.path,
            old_string: unwrap_or_empty(arguments.old_string),
            new_string: unwrap_or_empty(arguments.new_string),
            replace_all: match arguments.replace_all {
                Some(b) => b,
                None => false,
            },
            previous,
        }
    } else if text::same(name, "bash") {
        ToolCall::Bash { command: unwrap_or_empty(arguments.command) }
    } else {
        ToolCall::Other
    }
}

/// The file whose content a call of a tool changes.
pub fn file_of(name: &str, arguments: &Arguments) -> (r: Option<String>)
    ensures
        reply::text_of(r) == file_in(name@, arguments@),
{
    if text::same(name, "write") || text::same(name, "edit") {
        match &arguments.file_path {
            Field::Text(s) => Some(s.clone()),
            _ => Some("".to_owned()),
        }
    } else {
        None
    }
}

fn field_of(text: &str, key: &str) -> (r: Field)
    ensures
        r@ == field_in(text@, key@),
{
    match foreign::json_part(text, key) {
        None => Field::Absent,
        Some(_) => match string_of(text, key) {
            Some(s) => Field::Text(s),
            None => Field::Other,
        },
    }
}

fn read_arguments(text: &str) -> (r: Arguments)
    ensures
        r@ == arguments_in(text@),
{
    Arguments {
        file_path: field_of(text, "file_path"),
        path: field_of(text, "path"),
        content: string_of(text, "content"),
        old_string: string_of(text, "old_string"),
        new_string: string_of(text, "new_string"),
        replace_all: foreign::json_flag(text, "replace_all"),
        command: string_of(text, "command"),
    }
}

fn arguments_of(call: &str) -> (r: Arguments)
    ensures
        r@ == call_arguments(call@),
{
    match foreign::json_part(call, "arguments") {
        Some(t) => read_arguments(t.as_str()),
        None => read_arguments("{}"),
    }
}

/// The file whose content a call changes. The call is a JSON text.
pub fn call_file(call: &str) -> (r: Option<String>)
    ensures
        reply::text_of(r) == file_in(tool_in(call@), call_arguments(call@)),
{
    let name = unwrap_or_empty(string_of(call, "name"));
    file_of(name.as_str(), &arguments_of(call))
}

/// What a call says, when the file that it names has the content `previous`.
pub open spec fn pending_in(call: Seq<char>, previous: Option<Seq<char>>) -> PendingModel {
    PendingModel {
        id: or_empty(string_in(call, "id"@)),
        call: call_in(tool_in(call), call_arguments(call), previous),
    }
}

/// Read a pending call, which is a JSON text. `previous` is the content that
/// the file has which `call_file` gives.
pub fn read_call(call: &str, previous: Option<String>) -> (r: PendingCall)
    ensures
        r@ == pending_in(call@, reply::text_of(previous)),
{
    let name = unwrap_or_empty(string_of(call, "name"));
    let id = unwrap_or_empty(string_of(call, "id"));
    PendingCall { id, call: call_of(name.as_str(), arguments_of(call), previous) }
}

// ── Judging calls ──────────────────────────────────────────────────────────

/// What the hook does about a call.
#[derive(Debug)]
pub enum Outcome {
    /// Nothing to say.
    Pass,
    /// The call may run, with a note to the user.
    Note(String),
    /// The call must not run, for this reason.
    Block(String),
}

/// What an outcome says.
pub enum OutcomeModel {
    Pass,
    Note(Seq<char>),
    Block(Seq<char>),
}

impl View for Outcome {
    type V = OutcomeModel;

    open spec fn view(&self) -> OutcomeModel {
        match self {
            Outcome::Pass => OutcomeModel::Pass,
            Outcome::Note(s) => OutcomeModel::Note(s@),
            Outcome::Block(s) => OutcomeModel::Block(s@),
        }
    }
}

/// The counts of a report, as a block reason gives them.
pub open spec fn count_note(r: ReportModel) -> Seq<char> {
    if r.total > 1 {
        " ("@ + text::decimal(r.total as nat) + " total, "@ + text::decimal(r.hard as nat)
            + " hard)"@
    } else {
        Seq::empty()
    }
}

/// What a report on a call leads to. Hard violations block the call. Soft
/// ones become a note.
pub open spec fn judged(label: Seq<char>, r: ReportModel) -> OutcomeModel {
    let hard = hard_of(r.violations);
    let soft = soft_of(r.violations);
    if hard.len() > 0 {
        OutcomeModel::Block(
            "Writing rules blocked"@ + count_note(r) + "\n"@ + feedback::feedback(
                label,
                ""@,
                hard,
            ),
        )
    } else if soft.len() > 0 {
        OutcomeModel::Note(feedback::feedback(label, "Writing-rule warnings for"@, soft))
    } else {
        OutcomeModel::Pass
    }
}

/// What a report on a call leads to.
pub fn judge(label: &str, report: &LintReport) -> (r: Outcome)
    ensures
        r@ == judged(label@, report@),
{
    let hard = select(&report.violations, Severity::Hard);
    let soft = select(&report.violations, Severity::Soft);
    if hard.len() > 0 {
        let mut reason = "Writing rules blocked".to_owned();
        let mut note = String::new();
        if report.summary.total > 1 {
            note.append(" (");
            note.append(text::decimal_of(report.summary.total).as_str());
            note.append(" total, ");
            note.append(text::decimal_of(report.summary.hard).as_str());
            note.append(" hard)");
        }
        assert(note@ =~= count_note(report@));
        reason.append(note.as_str());
        reason.append("\n");
        reason.append(feedback::format_violations(label, "", hard.as_slice()).as_str());
        return Outcome::Block(reason);
    }
    if soft.len() > 0 {
        return Outcome::Note(
            feedback::format_violations(label, "Writing-rule warnings for", soft.as_slice()),
        );
    }
    Outcome::Pass
}

/// What was found in the first `n` commit messages.
pub open spec fn commit_violations(
    messages: Seq<commit::CommitModel>,
    config: ConfigModel,
    n: int,
) -> Seq<ViolationModel>
    decreases n,
{
    if n <= 0 {
        Seq::empty()
    } else {
        commit_violations(messages, config, n - 1) + engine::report(
            LintKind::CommitMessage,
            messages[n - 1].message,
            config,
        ).violations
    }
}

/// One of the messages cannot be checked before the shell has run.
pub open spec fn any_dynamic(messages: Seq<commit::CommitModel>) -> bool {
    exists|k: int| 0 <= k < messages.len() && (#[trigger] messages[k]).requires_explicit_message
}

/// What the commits of a command lead to. A message that cannot be checked
/// fails closed.
pub open spec fn commits_judged(messages: Seq<commit::CommitModel>, config: ConfigModel) -> OutcomeModel {
    if messages.len() == 0 {
        OutcomeModel::Pass
    } else if any_dynamic(messages) {
        OutcomeModel::Block(
            "Writing rules could not check the git commit message. Use git commit with a static -m or --message argument."@,
        )
    } else {
        judged(
            "commit message"@,
            engine::report_of(commit_violations(messages, config, messages.len() as int)),
        )
    }
}

/// What the commits of a command lead to.
pub fn judge_commits(messages: &Vec<commit::CommitMessage>, config: &LintConfig) -> (r: Outcome)
    ensures
        r@ == commits_judged(commit::commit_models(messages@), config@),
{
    let ghost all = commit::commit_models(messages@);
    if messages.len() == 0 {
        return Outcome::Pass;
    }
    let mut found: Vec<Violation> = Vec::new();
    assert(types::models(found@) =~= Seq::<ViolationModel>::empty());
    let mut i: usize = 0;
    while i < messages.len()
        invariant
            messages@.len() > 0,
            all == commit::commit_models(messages@),
            i <= messages@.len(),
            forall|k: int| 0 <= k < i ==> !(#[trigger] all[k]).requires_explicit_message,
            types::models(found@) == commit_violations(all, config@, i as int),
        decreases messages@.len() - i,
    {
        assert(all[i as int] == messages@[i as int]@);
        if messages[i].requires_explicit_message {
            assert(any_dynamic(all));
            return Outcome::Block(
                "Writing rules could not check the git commit message. Use git commit with a static -m or --message argument.".to_owned(),
            );
        }
        let report = engine::lint(LintKind::CommitMessage, messages[i].message.as_str(), config);
        let mut more = report.violations;
        let ghost a = types::models(found@);
        let ghost b = types::models(more@);
        found.append(&mut more);
        assert(types::models(found@) =~= a + b);
        i += 1;
    }
    judge("commit message", &engine::make_report(found))
}

/// The content kind of the file that a call names.
pub open spec fn call_kind(file_path: FieldModel) -> LintKind {
    kind_of(text::lowered(file_path.or(""@)))
}

/// The text of a previous content. A file that is missing has none.
pub open spec fn previous_text(previous: Option<Seq<char>>) -> Seq<char> {
    match previous {
        Some(s) => s,
        None => Seq::empty(),
    }
}

/// What the hook does about a call.
pub open spec fn outcome(call: CallModel, config: ConfigModel) -> OutcomeModel {
    match call {
        CallModel::Write { file_path, path, content, previous } => judged(
            display_path("write"@, file_path, path),
            diff::write_report(
                call_kind(file_path),
                content,
                previous_text(previous),
                config,
            ),
        ),
        CallModel::Edit { file_path, path, old_string, new_string, replace_all, previous } => {
            let label = display_path("edit"@, file_path, path);
            match previous {
                // The file is missing: the edit tool will fail at execution.
                // The new string is linted in isolation.
                None => judged(label, engine::report(call_kind(file_path), new_string, config)),
                Some(content) => match diff::edit_fault(content, old_string, replace_all) {
                    Some(e) => OutcomeModel::Note(
                        "[simple-english] edit lint skipped ("@ + file_path.or(""@) + "): "@ + e,
                    ),
                    None => judged(
                        label,
                        diff::write_report(
                            call_kind(file_path),
                            diff::edited(content, old_string, new_string, replace_all),
                            content,
                            config,
                        ),
                    ),
                },
            }
        },
        CallModel::Bash { command } => commits_judged(
            commit::commits(command),
            config,
        ),
        CallModel::Other => OutcomeModel::Pass,
    }
}

fn field_text(field: &Field) -> (r: &str)
    ensures
        r@ == field@.or(""@),
{
    match field {
        Field::Text(s) => s.as_str(),
        _ => "",
    }
}

/// The text that a write or an edit leaves behind, and the text before it. An
/// edit that cannot be applied, or that has no file, leaves none.
pub open spec fn proposed(call: CallModel) -> Option<(FieldModel, Seq<char>, Seq<char>)> {
    match call {
        CallModel::Write { file_path, path, content, previous } => Some(
            (file_path, content, or_empty(previous)),
        ),
        CallModel::Edit {
            file_path,
            path,
            old_string,
            new_string,
            replace_all,
            previous: Some(s),
        } if diff::edit_fault(s, old_string, replace_all) is None => Some(
            (file_path, diff::edited(s, old_string, new_string, replace_all), s),
        ),
        _ => None,
    }
}

/// Linting a new text gives a hard violation on a line that the prose of the
/// old text does not have.
pub open spec fn has_new_hard_line(
    kind: LintKind,
    old_text: Seq<char>,
    new_text: Seq<char>,
    config: ConfigModel,
) -> bool {
    let v = engine::report(kind, new_text, config).violations;
    exists|k: int|
        #![trigger v[k]]
        0 <= k < v.len() && v[k].severity == Severity::Hard && !diff::is_old_line(
            kind,
            old_text,
            new_text,
            v[k].line,
        )
}

proof fn lemma_new_hard_line(
    label: Seq<char>,
    r: ReportModel,
    kind: LintKind,
    old_text: Seq<char>,
    new_text: Seq<char>,
    config: ConfigModel,
)
    requires
        diff::drops_old_lines_only(
            engine::report(kind, new_text, config).violations,
            r.violations,
            kind,
            old_text,
            new_text,
        ),
        has_new_hard_line(kind, old_text, new_text, config),
    ensures
        judged(label, r) is Block,
{
    let v = engine::report(kind, new_text, config).violations;
    let k = choose|k: int|
        #![trigger v[k]]
        0 <= k < v.len() && v[k].severity == Severity::Hard && !diff::is_old_line(
            kind,
            old_text,
            new_text,
            v[k].line,
        );
    assert(r.violations.contains(v[k]));
    let i = choose|i: int| 0 <= i < r.violations.len() && r.violations[i] == v[k];
    lemma_hard_is_listed(r.violations, r.violations.len() as int, i);
}

proof fn lemma_hard_is_listed(v: Seq<ViolationModel>, n: int, i: int)
    requires
        0 <= i < n <= v.len(),
        v[i].severity == Severity::Hard,
    ensures
        of_severity(v, Severity::Hard, n).len() > 0,
    decreases n,
{
    if i < n - 1 {
        lemma_hard_is_listed(v, n - 1, i);
    }
}

/// What the hook does about a write.
fn check_write(
    file_path: &Field,
    path: &Field,
    content: &str,
    previous: Option<&str>,
    config: &LintConfig,
) -> (r: Outcome)
    ensures
        ({
            let kind = call_kind(file_path@);
            let label = display_path("write"@, file_path@, path@);
            let old_text = match previous {
                Some(s) => s@,
                None => Seq::empty(),
            };
            &&& r@ == judged(label, diff::write_report(kind, content@, old_text, config@))
            &&& has_new_hard_line(kind, old_text, content@, config@) ==> r@ is Block
            &&& old_text.len() == 0 ==> r@ == judged(label, engine::report(kind, content@, config@))
            &&& old_text.len() > 0 && old_text == content@ ==> r@ is Pass
        }),
{
    let kind = classify_path(field_text(file_path));
    let report = diff::lint_write(kind, content, previous, config);
    proof {
        let label = display_path("write"@, file_path@, path@);
        let old_text = match previous {
            Some(s) => s@,
            None => Seq::empty(),
        };
        let v = engine::report(kind, content@, config@).violations;
        if previous is None {
            assert(forall|k: int| 0 <= k < v.len() ==> v.contains(#[trigger] v[k]));
        }
        if has_new_hard_line(kind, old_text, content@, config@) {
            lemma_new_hard_line(label, report@, kind, old_text, content@, config@);
        }
    }
    judge(get_display_path("write", file_path, path).as_str(), &report)
}

/// What the hook does about an edit of an existing file.
fn check_edit(
    file_path: &Field,
    path: &Field,
    edit: (&str, &str, bool),
    content: &str,
    config: &LintConfig,
) -> (r: Outcome)
    ensures
        ({
            let kind = call_kind(file_path@);
            let new_text = diff::edited(content@, edit.0@, edit.1@, edit.2);
            match diff::edit_fault(content@, edit.0@, edit.2) {
                Some(e) => r@ == OutcomeModel::Note(
                    "[simple-english] edit lint skipped ("@ + file_path@.or(""@) + "): "@ + e,
                ),
                None => {
                    &&& r@ == judged(
                        display_path("edit"@, file_path@, path@),
                        diff::write_report(kind, new_text, content@, config@),
                    )
                    &&& has_new_hard_line(kind, content@, new_text, config@) ==> r@ is Block
                    &&& edit.0@ == edit.1@ ==> r@ is Pass
                },
            }
        }),
{
    let kind = classify_path(field_text(file_path));
    match diff::lint_edit(kind, content, edit.0, edit.1, edit.2, config) {
        Ok(report) => {
            proof {
                let new_text = diff::edited(content@, edit.0@, edit.1@, edit.2);
                if has_new_hard_line(kind, content@, new_text, config@) {
                    lemma_new_hard_line(
                        display_path("edit"@, file_path@, path@),
                        report@,
                        kind,
                        content@,
                        new_text,
                        config@,
                    );
                }
            }
            judge(get_display_path("edit", file_path, path).as_str(), &report)
        },
        Err(e) => {
            let mut note = "[simple-english] edit lint skipped (".to_owned();
            note.append(field_text(file_path));
            note.append("): ");
            note.append(e.as_str());
            Outcome::Note(note)
        },
    }
}

/// What the hook does about a call.
///
/// Write and edit calls use diff-aware linting against the previous
/// content, so only violations that are *new* to the change are reported.
/// This avoids flagging pre-existing issues on lines the agent did not
/// touch.
pub fn check_call(call: &ToolCall, config: &LintConfig) -> (r: Outcome)
    ensures
        r@ == outcome(call@, config@),
        proposed(call@) matches Some((file_path, new_text, old_text)) ==> (has_new_hard_line(
            call_kind(file_path),
            old_text,
            new_text,
            config@,
        ) ==> r@ is Block),
        call@ matches CallModel::Write { file_path, path, content, previous } ==> (or_empty(
            previous,
        ).len() == 0 ==> r@ == judged(
            display_path("write"@, file_path, path),
            engine::report(call_kind(file_path), content, config@),
        )),
        call@ matches CallModel::Write { file_path, path, content, previous } ==> (previous == Some(
            content,
        ) && content.len() > 0 ==> r@ is Pass),
{
    match call {
        ToolCall::Write { file_path, path, content, previous } => {
            let previous = match previous {
                Some(s) => Some(s.as_str()),
                None => None,
            };
            check_write(file_path, path, content.as_str(), previous, config)
        },
        ToolCall::Edit { file_path, path, old_string, new_string, replace_all, previous } => {
            match previous {
                None => {
                    let kind = classify_path(field_text(file_path));
                    let label = get_display_path("edit", file_path, path);
                    judge(label.as_str(), &engine::lint(kind, new_string.as_str(), config))
                },
                Some(content) => {
                    let edit = (old_string.as_str(), new_string.as_str(), *replace_all);
                    check_edit(file_path, path, edit, content.as_str(), config)
                },
            }
        },
        ToolCall::Bash { command } => judge_commits(
            &commit::find_commit_invocations(command.as_str()),
            config,
        ),
        ToolCall::Other => Outcome::Pass,
    }
}

/// What the hook decides about a list of calls.
#[derive(Debug)]
pub struct ToolDecision {
    /// The ids of the calls that must not run.
    pub blocked: Vec<String>,
    /// Why they must not run.
    pub reason: String,
    /// Notes to the user.
    pub notes: Vec<String>,
}

/// What a decision says.
pub struct DecisionModel {
    pub blocked: Seq<Seq<char>>,
    pub reason: Seq<char>,
    pub notes: Seq<Seq<char>>,
}

impl View for ToolDecision {
    type V = DecisionModel;

    open spec fn view(&self) -> DecisionModel {
        DecisionModel {
            blocked: lines::texts(self.blocked@),
            reason: self.reason@,
            notes: lines::texts(self.notes@),
        }
    }
}

/// The ids of those of the first `n` calls that are blocked.
pub open spec fn blocked_to(calls: Seq<PendingModel>, config: ConfigModel, n: int) -> Seq<Seq<char>>
    decreases n,
{
    if n <= 0 {
        Seq::empty()
    } else {
        match outcome(calls[n - 1].call, config) {
            OutcomeModel::Block(_) => blocked_to(calls, config, n - 1).push(calls[n - 1].id),
            _ => blocked_to(calls, config, n - 1),
        }
    }
}

/// The reasons for which those of the first `n` calls are blocked.
pub open spec fn reasons_to(calls: Seq<PendingModel>, config: ConfigModel, n: int) -> Seq<Seq<char>>
    decreases n,
{
    if n <= 0 {
        Seq::empty()
    } else {
        match outcome(calls[n - 1].call, config) {
            OutcomeModel::Block(s) => reasons_to(calls, config, n - 1).push(s),
            _ => reasons_to(calls, config, n - 1),
        }
    }
}

/// The notes on the first `n` calls.
pub open spec fn notes_to(calls: Seq<PendingModel>, config: ConfigModel, n: int) -> Seq<Seq<char>>
    decreases n,
{
    if n <= 0 {
        Seq::empty()
    } else {
        match outcome(calls[n - 1].call, config) {
            OutcomeModel::Note(s) => notes_to(calls, config, n - 1).push(s),
            _ => notes_to(calls, config, n - 1),
        }
    }
}

/// Inspect pending tool calls. For `write`, `edit`, and `bash` (git
/// commit) calls, lint the content and block on hard violations.
pub fn tool_before(calls: &Vec<PendingCall>, config: &LintConfig) -> (r: ToolDecision)
    ensures
        r@ == (DecisionModel {
            blocked: blocked_to(pending_models(calls@), config@, calls@.len() as int),
            reason: lines::join(
                reasons_to(pending_models(calls@), config@, calls@.len() as int),
                "\n\n"@,
            ),
            notes: notes_to(pending_models(calls@), config@, calls@.len() as int),
        }),
{
    let ghost all = pending_models(calls@);
    let mut blocked: Vec<String> = Vec::new();
    let mut reasons: Vec<String> = Vec::new();
    let mut notes: Vec<String> = Vec::new();
    proof {
        assert(lines::texts(blocked@) =~= Seq::<Seq<char>>::empty());
        assert(lines::texts(reasons@) =~= Seq::<Seq<char>>::empty());
        assert(lines::texts(notes@) =~= Seq::<Seq<char>>::empty());
    }
    let mut i: usize = 0;
    while i < calls.len()
        invariant
            all == pending_models(calls@),
            i <= calls@.len(),
            lines::texts(blocked@) == blocked_to(all, config@, i as int),
            lines::texts(reasons@) == reasons_to(all, config@, i as int),
            lines::texts(notes@) == notes_to(all, config@, i as int),
        decreases calls@.len() - i,
    {
        assert(all[i as int] == calls@[i as int]@);
        match check_call(&calls[i].call, config) {
            Outcome::Pass => {},
            Outcome::Note(s) => {
                let ghost before = lines::texts(notes@);
                let ghost m = s@;
                notes.push(s);
                assert(lines::texts(notes@) =~= before.push(m));
            },
            Outcome::Block(s) => {
                let ghost a = lines::texts(blocked@);
                let ghost b = lines::texts(reasons@);
                let ghost m = s@;
                blocked.push(calls[i].id.clone());
                reasons.push(s);
                assert(lines::texts(blocked@) =~= a.push(calls@[i as int].id@));
                assert(lines::texts(reasons@) =~= b.push(m));
            },
        }
        i += 1;
    }
    ToolDecision { blocked, reason: lines::join_strings(&reasons, "\n\n"), notes }
}

/// A report blocks a call exactly when it holds a hard violation.
pub proof fn law_hard_violations_block(label: Seq<char>, v: Seq<ViolationModel>)
    ensures
        judged(label, engine::report_of(v)) is Block <==> engine::report_of(v).hard > 0,
{
    lemma_hard_count(v, v.len() as int);
}

/// A commit whose message holds a `$` or a backtick is blocked.
pub proof fn law_dynamic_commits_are_blocked(
    messages: Seq<commit::CommitModel>,
    config: ConfigModel,
    k: int,
)
    requires
        0 <= k < messages.len(),
        messages[k].requires_explicit_message,
    ensures
        commits_judged(messages, config) is Block,
{
    assert(any_dynamic(messages));
}

// ── model.before ───────────────────────────────────────────────────────────

/// The id of the hook's own prompt fragment.
pub const FRAGMENT_ID: &'static str = "simple-english";

/// A fragment of the hook itself, given the id that it starts with.
pub open spec fn is_own(id: Option<Seq<char>>) -> bool {
    id == Some(FRAGMENT_ID@)
}

/// Those of the first `n` fragments that are not the hook's own.
pub open spec fn others_to(ids: Seq<Option<Seq<char>>>, n: int) -> Seq<int>
    decreases n,
{
    if n <= 0 {
        Seq::empty()
    } else if is_own(ids[n - 1]) {
        others_to(ids, n - 1)
    } else {
        others_to(ids, n - 1).push(n - 1)
    }
}

/// Ids that may be missing, as texts.
pub open spec fn id_texts(ids: Seq<Option<String>>) -> Seq<Option<Seq<char>>> {
    Seq::new(ids.len(), |i: int| reply::text_of(ids[i]))
}

/// Places as integers.
pub open spec fn places(v: Seq<usize>) -> Seq<int> {
    Seq::new(v.len(), |i: int| v[i] as int)
}

/// The fragments that stay when the hook puts its own at the end: all but
/// those that it put there before.
pub fn other_fragments(ids: &Vec<Option<String>>) -> (r: Vec<usize>)
    ensures
        places(r@) == others_to(id_texts(ids@), ids@.len() as int),
{
    let ghost all = id_texts(ids@);
    let mut r: Vec<usize> = Vec::new();
    assert(places(r@) =~= Seq::<int>::empty());
    let mut i: usize = 0;
    while i < ids.len()
        invariant
            all == id_texts(ids@),
            i <= ids@.len(),
            places(r@) == others_to(all, i as int),
        decreases ids@.len() - i,
    {
        assert(all[i as int] == reply::text_of(ids@[i as int]));
        let own = match &ids[i] {
            Some(s) => text::same(s.as_str(), FRAGMENT_ID),
            None => false,
        };
        if !own {
            let ghost before = places(r@);
            r.push(i);
            assert(places(r@) =~= before.push(i as int));
        }
        i += 1;
    }
    r
}

proof fn lemma_others(ids: Seq<Option<Seq<char>>>, n: int)
    requires
        0 <= n <= ids.len(),
    ensures
        forall|k: int|
            0 <= k < others_to(ids, n).len() ==> 0 <= #[trigger] others_to(ids, n)[k] < n
                && !is_own(ids[others_to(ids, n)[k]]),
    decreases n,
{
    if n > 0 {
        lemma_others(ids, n - 1);
        let before = others_to(ids, n - 1);
        let all = others_to(ids, n);
        assert forall|k: int| 0 <= k < all.len() implies 0 <= #[trigger] all[k] < n && !is_own(
            ids[all[k]],
        ) by {
            if k < before.len() {
                assert(all[k] == before[k]);
            }
        }
    }
}

proof fn lemma_all_others(ids: Seq<Option<Seq<char>>>, n: int)
    requires
        0 <= n <= ids.len(),
        forall|k: int| 0 <= k < n ==> !is_own(#[trigger] ids[k]),
    ensures
        others_to(ids, n) == Seq::new(n as nat, |k: int| k),
    decreases n,
{
    if n > 0 {
        lemma_all_others(ids, n - 1);
        assert(others_to(ids, n) =~= Seq::new(n as nat, |k: int| k));
    } else {
        assert(others_to(ids, n) =~= Seq::new(0, |k: int| k));
    }
}

/// The fragments of a request.
pub open spec fn fragments_in(request: Seq<char>) -> Seq<Seq<char>> {
    calls_in(foreign::json_elements_of(request, "prompt_fragments"@))
}

/// The strings that fragments start with.
pub open spec fn ids_in(fragments: Seq<Seq<char>>) -> Seq<Option<Seq<char>>> {
    Seq::new(fragments.len(), |i: int| foreign::json_first_of(fragments[i]))
}

/// The fragments that are not the hook's own, in their order, followed by
/// the fragment `own`.
pub open spec fn with_fragment(fragments: Seq<Seq<char>>, own: Seq<char>) -> Seq<Seq<char>> {
    let kept = others_to(ids_in(fragments), fragments.len() as int);
    Seq::new(kept.len(), |k: int| fragments[kept[k]]).push(own)
}

/// The hook's own fragment.
pub open spec fn own_fragment(summary: Seq<char>) -> Seq<char> {
    foreign::json_pair_of(FRAGMENT_ID@, summary)
}

/// A request with the hook's own fragment at the end of its fragments.
/// Nothing when it is no object.
pub open spec fn transformed(request: Seq<char>, summary: Seq<char>) -> Option<Seq<char>> {
    foreign::json_replaced_of(
        request,
        "prompt_fragments"@,
        with_fragment(fragments_in(request), own_fragment(summary)),
    )
}

/// `out` is the request with the hook's own fragment put last and those that
/// it put there before removed. All else is as in the request, and doing the
/// same again gives `out` again.
pub open spec fn is_transformed(
    request: Seq<char>,
    summary: Seq<char>,
    out: Seq<char>,
) -> bool {
    &&& fragments_in(out) == with_fragment(fragments_in(request), own_fragment(summary))
    &&& forall|key: Seq<char>|
        key != "prompt_fragments"@ ==> #[trigger] foreign::json_part_of(out, key)
            == foreign::json_part_of(request, key)
    &&& transformed(out, summary) == Some(out)
}

/// Putting the hook's own fragment in place twice is the same as doing it
/// once.
pub proof fn law_fragment_is_put_once(fragments: Seq<Seq<char>>, own: Seq<char>)
    requires
        foreign::json_first_of(own) == Some(FRAGMENT_ID@),
    ensures
        with_fragment(with_fragment(fragments, own), own) == with_fragment(fragments, own),
{
    let ids = ids_in(fragments);
    let kept = others_to(ids, fragments.len() as int);
    let n = kept.len() as int;
    let once = with_fragment(fragments, own);
    let once_ids = ids_in(once);
    lemma_others(ids, fragments.len() as int);
    assert forall|k: int| 0 <= k < n implies !is_own(#[trigger] once_ids[k]) by {
        assert(0 <= kept[k] < fragments.len());
        assert(once[k] == fragments[kept[k]]);
        assert(once_ids[k] == ids[kept[k]]);
    }
    lemma_all_others(once_ids, n);
    assert(is_own(once_ids[n]));
    assert(others_to(once_ids, once.len() as int) == others_to(once_ids, n));
    assert(with_fragment(once, own) =~= once);
}

/// Put the rule summary into the prompt fragments of a model request, which
/// is a JSON text. Returns `None` when the request is no object.
pub fn put_fragment(request: &str, summary: &str) -> (r: Option<String>)
    ensures
        reply::text_of(r) == transformed(request@, summary@),
        foreign::is_object(request@) ==> r is Some,
        foreign::was_printed(request@) ==> (r is Some <==> foreign::is_object(request@)),
        r matches Some(out) ==> is_transformed(request@, summary@, out@),
{
    let fragments = match foreign::json_elements(request, "prompt_fragments") {
        Some(v) => v,
        None => {
            let none: Vec<String> = Vec::new();
            assert(lines::texts(none@) =~= Seq::<Seq<char>>::empty());
            none
        },
    };
    let ghost all = fragments_in(request@);
    let mut ids: Vec<Option<String>> = Vec::new();
    let mut i: usize = 0;
    while i < fragments.len()
        invariant
            all == lines::texts(fragments@),
            i <= fragments@.len(),
            ids@.len() == i,
            forall|k: int| 0 <= k < i ==> reply::text_of(#[trigger] ids@[k]) == ids_in(all)[k],
        decreases fragments@.len() - i,
    {
        assert(all[i as int] == fragments@[i as int]@);
        ids.push(foreign::json_first(fragments[i].as_str()));
        i += 1;
    }
    assert(id_texts(ids@) =~= ids_in(all));
    let places = other_fragments(&ids);
    let own = foreign::json_pair(FRAGMENT_ID, summary);
    let ghost kept = others_to(ids_in(all), all.len() as int);
    let ghost goal = with_fragment(all, own@);
    let mut out: Vec<String> = Vec::new();
    proof {
        lemma_others(ids_in(all), all.len() as int);
    }
    let mut k: usize = 0;
    while k < places.len()
        invariant
            all == lines::texts(fragments@),
            kept == others_to(ids_in(all), all.len() as int),
            kept == self::places(places@),
            forall|j: int| 0 <= j < kept.len() ==> 0 <= #[trigger] kept[j] < all.len(),
            goal == with_fragment(all, own@),
            k <= places@.len(),
            out@.len() == k,
            forall|j: int| 0 <= j < k ==> (#[trigger] out@[j])@ == goal[j],
        decreases places@.len() - k,
    {
        assert(kept[k as int] == places@[k as int] as int);
        assert(all[kept[k as int]] == fragments@[kept[k as int]]@);
        out.push(fragments[places[k]].clone());
        k += 1;
    }
    let ghost last = own@;
    out.push(own);
    assert(lines::texts(out@) =~= goal);
    proof {
        assert forall|j: int| 0 <= j < goal.len() implies {
            ||| foreign::json_elements_of(request@, "prompt_fragments"@) matches Some(v)
                && v.contains(#[trigger] goal[j])
            ||| exists|a: Seq<char>, b: Seq<char>| goal[j] == foreign::json_pair_of(a, b)
        } by {
            if j < kept.len() {
                assert(goal[j] == all[kept[j]]);
            } else {
                assert(goal[j] == foreign::json_pair_of(FRAGMENT_ID@, summary@));
            }
        }
        law_fragment_is_put_once(all, last);
    }
    foreign::json_replaced(request, "prompt_fragments", &out)
}

/// The request of a payload. A request that is missing or `null` is an empty
/// object.
pub open spec fn request_in(payload: Seq<char>) -> Seq<char> {
    match foreign::json_part_of(payload, "request"@) {
        Some(t) => if t == "null"@ {
            "{}"@
        } else {
            t
        },
        None => "{}"@,
    }
}

/// Put the rule summary into the prompt fragments of the model request that a
/// payload holds. Returns the new request as a JSON text, or `None` when the
/// request is no object.
///
/// The result depends on the request and the configuration alone, so the
/// prefix cache stays stable.
pub fn model_before(payload: &str, config: &LintConfig) -> (r: Option<String>)
    ensures
        reply::text_of(r) == transformed(request_in(payload@), feedback::summary(config@)),
        r is Some <==> foreign::is_object(request_in(payload@)),
        r matches Some(out) ==> is_transformed(
            request_in(payload@),
            feedback::summary(config@),
            out@,
        ),
{
    let mut request = "{}".to_owned();
    if let Some(t) = foreign::json_part(payload, "request") {
        if !text::same(t.as_str(), "null") {
            request = t;
        }
    }
    put_fragment(request.as_str(), feedback::rule_summary(config).as_str())
}

// ── run.idle ───────────────────────────────────────────────────────────────

/// The note on soft violations in the message to the model.
pub open spec fn soft_note(count: nat) -> Seq<char> {
    if count > 0 {
        ", "@ + text::decimal(count) + " soft"@
    } else {
        Seq::empty()
    }
}

/// The list of soft violations in the message to the model.
pub open spec fn soft_part(soft: Seq<ViolationModel>) -> Seq<char> {
    if soft.len() > 0 {
        "\n\nSoft violations (warnings):\n"@ + feedback::feedback("reply"@, ""@, soft)
    } else {
        Seq::empty()
    }
}

/// The message that asks the model to revise its reply. It lists the hard
/// and the soft violations.
pub open spec fn gate_message(hard: Seq<ViolationModel>, soft: Seq<ViolationModel>) -> Seq<char> {
    "Your last reply was blocked by the writing rules ("@ + text::decimal(hard.len())
        + " hard violation(s)"@ + soft_note(soft.len())
        + "). Revise only the flagged lines below. Do not post the reply again. Do not answer your own open questions as user replies.\n\nHard violations:\n"@
        + feedback::feedback("reply"@, ""@, hard) + soft_part(soft)
}

/// A reply is gated when it has hard violations, was not gated before, and
/// the chain of gates has not reached its limit.
pub open spec fn is_gated(v: Seq<ViolationModel>, identity: Seq<char>, state: StateModel) -> bool {
    hard_of(v).len() > 0 && !state.gated_replies.contains(identity) && state.gate_count
        < reply::MAX_GATE_COUNT
}

/// The state after a reply was judged.
pub open spec fn idle_state(
    v: Seq<ViolationModel>,
    identity: Seq<char>,
    state: StateModel,
) -> StateModel {
    let hard = hard_of(v).len() as int;
    let soft = soft_of(v).len() as int;
    if is_gated(v, identity, state) {
        StateModel {
            version: state.version,
            hard,
            soft,
            last_identity: Some(identity),
            gate_count: state.gate_count + 1,
            gated_replies: reply::recorded(state.gated_replies, identity),
        }
    } else {
        StateModel {
            version: state.version,
            hard,
            soft,
            last_identity: state.last_identity,
            gate_count: if hard == 0 {
                0
            } else {
                state.gate_count
            },
            gated_replies: state.gated_replies,
        }
    }
}

/// The message that continues the loop, when the reply is gated.
pub open spec fn idle_message(
    v: Seq<ViolationModel>,
    identity: Seq<char>,
    state: StateModel,
) -> Option<Seq<char>> {
    if is_gated(v, identity, state) {
        Some(gate_message(hard_of(v), soft_of(v)))
    } else {
        None
    }
}

fn message_of(hard: &Vec<Violation>, soft: &Vec<Violation>) -> (r: String)
    ensures
        r@ == gate_message(types::models(hard@), types::models(soft@)),
{
    let mut note = String::new();
    let mut part = String::new();
    if soft.len() > 0 {
        note.append(", ");
        note.append(text::decimal_of(soft.len()).as_str());
        note.append(" soft");
        part.append("\n\nSoft violations (warnings):\n");
        part.append(feedback::format_violations("reply", "", soft.as_slice()).as_str());
    }
    assert(note@ =~= soft_note(types::models(soft@).len()));
    assert(part@ =~= soft_part(types::models(soft@)));
    let mut r = "Your last reply was blocked by the writing rules (".to_owned();
    r.append(text::decimal_of(hard.len()).as_str());
    r.append(" hard violation(s)");
    r.append(note.as_str());
    r.append(
        "). Revise only the flagged lines below. Do not post the reply again. Do not answer your own open questions as user replies.\n\nHard violations:\n",
    );
    r.append(feedback::format_violations("reply", "", hard.as_slice()).as_str());
    r.append(part.as_str());
    r
}

/// Judge a reply by the violations that were found in it. Returns the
/// message that continues the loop, or `None` to let it stop.
pub fn judge_reply(violations: &Vec<Violation>, identity: &str, state: &mut ReplyState) -> (r:
    Option<String>)
    ensures
        final(state)@ == idle_state(types::models(violations@), identity@, old(state)@),
        reply::text_of(r) == idle_message(types::models(violations@), identity@, old(state)@),
{
    let hard = select(violations, Severity::Hard);
    let soft = select(violations, Severity::Soft);
    let gate = hard.len() > 0 && !state.has_gated(identity) && state.gate_count
        < reply::MAX_GATE_COUNT;
    state.hard = hard.len();
    state.soft = soft.len();
    if gate {
        state.last_identity = Some(identity.to_owned());
        state.gate_count = state.gate_count + 1;
        state.record_gated(identity);
        Some(message_of(&hard, &soft))
    } else {
        if hard.len() == 0 {
            state.gate_count = 0;
        }
        None
    }
}

/// What is found in a reply.
pub open spec fn reply_violations(reply: Seq<char>, config: ConfigModel) -> Seq<ViolationModel> {
    engine::report(LintKind::ProseFile, reply, config).violations
}

/// Lint the last assistant reply and gate the loop when hard violations are
/// present.
///
/// The state keeps the hard and soft counts for the status widget. A reply
/// with hard violations that has not been gated yet continues the loop with
/// a correction prompt. The model then revises the reply in the next loop
/// iteration. Otherwise the loop may stop.
pub fn run_idle(reply_text: &str, state: &mut ReplyState, config: &LintConfig) -> (r: Option<
    String,
>)
    ensures
        final(state)@ == idle_state(
            reply_violations(reply_text@, config@),
            reply::identity_of(reply_text@),
            old(state)@,
        ),
        reply::text_of(r) == idle_message(
            reply_violations(reply_text@, config@),
            reply::identity_of(reply_text@),
            old(state)@,
        ),
{
    let report = engine::lint(LintKind::ProseFile, reply_text, config);
    let identity = reply::reply_identity(reply_text);
    judge_reply(&report.violations, identity.as_str(), state)
}

/// A reply is gated at most once: the state after its gate lets the same
/// reply pass, whatever is found in it then.
pub proof fn law_reply_is_gated_once(
    v: Seq<ViolationModel>,
    w: Seq<ViolationModel>,
    identity: Seq<char>,
    state: StateModel,
)
    requires
        idle_message(v, identity, state) is Some,
    ensures
        idle_message(w, identity, idle_state(v, identity, state)) is None,
{
    reply::law_recorded_reply_is_remembered(state.gated_replies, identity);
}

/// No more than three gates follow each other: every gate counts, and at
/// the limit no reply is gated.
pub proof fn law_gates_are_bounded(v: Seq<ViolationModel>, identity: Seq<char>, state: StateModel)
    requires
        0 <= state.gate_count <= reply::MAX_GATE_COUNT,
    ensures
        0 <= idle_state(v, identity, state).gate_count <= reply::MAX_GATE_COUNT,
        idle_message(v, identity, state) is Some ==> idle_state(v, identity, state).gate_count
            == state.gate_count + 1,
        state.gate_count == reply::MAX_GATE_COUNT ==> idle_message(v, identity, state) is None,
{
}

/// A reply without hard violations is never gated and ends the chain of
/// gates.
pub proof fn law_clean_reply_settles_the_gate(
    v: Seq<ViolationModel>,
    identity: Seq<char>,
    state: StateModel,
)
    requires
        hard_of(v).len() == 0,
    ensures
        idle_message(v, identity, state) is None,
        idle_state(v, identity, state).gate_count == 0,
        idle_state(v, identity, state).hard == 0,
        idle_state(v, identity, state).gated_replies == state.gated_replies,
{
}

} // verus!

//! Violation formatting and rule-summary text for prompt injection.

use vstd::prelude::*;
use vstd::string::StringExecFns;

use crate::engine;
use crate::lines;
use crate::text;
use crate::types;
use crate::types::{ConfigModel, LintConfig, LintKind, RuleSetting, Violation, ViolationModel};

verus! {

// ── Violations ─────────────────────────────────────────────────────────────

/// The suggested fix of a violation, as its line ends with it.
pub open spec fn fix_note(suggestions: Option<Seq<Seq<char>>>) -> Seq<char> {
    match suggestions {
        Some(s) => if s.len() > 0 {
            ". Suggested fix: use \""@ + s[0] + "\"."@
        } else {
            Seq::empty()
        },
        None => Seq::empty(),
    }
}

/// The line that describes a violation.
pub open spec fn detail(v: ViolationModel) -> Seq<char> {
    "- line "@ + text::decimal(v.line as nat) + ", column "@ + text::decimal(v.column as nat)
        + " ["@ + v.rule_id + "]: "@ + v.message + fix_note(v.suggestions)
}

/// The lines that describe a list of violations.
pub open spec fn details(v: Seq<ViolationModel>) -> Seq<Seq<char>> {
    Seq::new(v.len(), |i: int| detail(v[i]))
}

/// A list of violations under a heading. An empty list gives no text.
pub open spec fn feedback(
    path: Seq<char>,
    heading: Seq<char>,
    v: Seq<ViolationModel>,
) -> Seq<char> {
    if v.len() == 0 {
        Seq::empty()
    } else {
        heading + " "@ + path + ":\n"@ + lines::join(details(v), "\n"@)
    }
}

fn fix_note_of(suggestions: &Option<Vec<String>>) -> (r: String)
    ensures
        r@ == fix_note(
            match *suggestions {
                Some(s) => Some(lines::texts(s@)),
                None => None,
            },
        ),
{
    if let Some(s) = suggestions {
        if s.len() > 0 {
            assert(lines::texts(s@)[0] == s@[0]@);
            let mut r = ". Suggested fix: use \"".to_owned();
            r.append(s[0].as_str());
            r.append("\".");
            return r;
        }
    }
    String::new()
}

fn detail_of(v: &Violation) -> (r: String)
    ensures
        r@ == detail(v@),
{
    let mut r = "- line ".to_owned();
    r.append(text::decimal_of(v.line).as_str());
    r.append(", column ");
    r.append(text::decimal_of(v.column).as_str());
    r.append(" [");
    r.append(v.rule_id);
    r.append("]: ");
    r.append(v.message.as_str());
    r.append(fix_note_of(&v.suggestions).as_str());
    r
}

/// Format a list of violations into a human-readable feedback string.
pub fn format_violations(path: &str, heading: &str, violations: &[Violation]) -> (r: String)
    ensures
        r@ == feedback(path@, heading@, types::models(violations@)),
{
    let ghost all = types::models(violations@);
    if violations.len() == 0 {
        return String::new();
    }
    let mut rows: Vec<String> = Vec::new();
    let mut i: usize = 0;
    while i < violations.len()
        invariant
            all == types::models(violations@),
            i <= violations@.len(),
            rows@.len() == i,
            forall|k: int| 0 <= k < i ==> #[trigger] rows@[k]@ == detail(all[k]),
        decreases violations@.len() - i,
    {
        rows.push(detail_of(&violations[i]));
        i += 1;
    }
    assert(lines::texts(rows@) =~= details(all));
    let mut r = heading.to_owned();
    r.append(" ");
    r.append(path);
    r.append(":\n");
    r.append(lines::join_strings(&rows, "\n").as_str());
    r
}

// ── The rule summary ───────────────────────────────────────────────────────

/// The severity with which a rule checks prose. A rule that is off has none,
/// and neither has `paragraph-length` with a cap of zero.
pub open spec fn active(config: ConfigModel, rule_id: Seq<char>) -> RuleSetting {
    if rule_id == "paragraph-length"@ && engine::max_sentences(LintKind::ProseFile, config) == 0 {
        None
    } else {
        types::resolved(config.rules, rule_id)
    }
}

/// A line of the summary and the rule that it is on.
pub struct RuleRow {
    pub rule_id: Seq<char>,
    pub line: Seq<char>,
}

/// The line of a rule that is active, with its severity.
pub open spec fn rule_row(config: ConfigModel, rule_id: Seq<char>, summary: Seq<char>) -> Seq<
    RuleRow,
> {
    match active(config, rule_id) {
        Some(severity) => seq![
            RuleRow { rule_id, line: "- ["@ + severity.name() + "] "@ + summary },
        ],
        None => Seq::empty(),
    }
}

/// The lines of those of the first `n` rules that are active. Each rule is
/// given with its summary.
pub open spec fn listed_to(
    config: ConfigModel,
    rules: Seq<(Seq<char>, Seq<char>)>,
    n: int,
) -> Seq<RuleRow>
    decreases n,
{
    if n <= 0 {
        Seq::empty()
    } else {
        listed_to(config, rules, n - 1) + rule_row(config, rules[n - 1].0, rules[n - 1].1)
    }
}

/// The lines of the rules that are active.
pub open spec fn listed(config: ConfigModel, rules: Seq<(Seq<char>, Seq<char>)>) -> Seq<RuleRow> {
    listed_to(config, rules, rules.len() as int)
}

/// The texts of a list of lines.
pub open spec fn row_texts(rows: Seq<RuleRow>) -> Seq<Seq<char>> {
    Seq::new(rows.len(), |i: int| rows[i].line)
}

/// What `sentence-length` asks for.
pub open spec fn length_summary(max: nat) -> Seq<char> {
    "Keep each sentence to "@ + text::decimal(max) + " words or fewer."@
}

/// What `paragraph-length` asks for.
pub open spec fn paragraph_summary(max: nat) -> Seq<char> {
    let cap = if max == engine::DEFAULT_MAX_PARAGRAPH_SENTENCES {
        "six"@
    } else {
        text::decimal(max)
    };
    "Use no more than "@ + cap + " sentences in one paragraph."@
}

/// The rules of the ASD-STE100 group, with what they ask for.
pub open spec fn ste_rules(config: ConfigModel) -> Seq<(Seq<char>, Seq<char>)> {
    seq![
        ("contraction"@, "Do not use contractions. Write the words in full."@),
        ("dictionary-not-approved-word"@, "Use approved words from the STE dictionary."@),
        (
            "paragraph-length"@,
            paragraph_summary(engine::max_sentences(LintKind::ProseFile, config)),
        ),
        ("phrasal-verb"@, "Use an approved single-word verb instead of a phrasal verb."@),
        (
            "semicolon"@,
            "Do not use semicolons in prose. Write two sentences. Code fences are exempt."@,
        ),
        ("sentence-length"@, length_summary(engine::max_words(config))),
        ("verb-progressive"@, "Do not use progressive verb forms."@),
        ("verb-passive"@, "Prefer active voice."@),
        ("verb-perfect"@, "Do not use perfect verb forms."@),
    ]
}

/// The rule on suppression directives, with what it asks for.
pub open spec fn directive_rules() -> Seq<(Seq<char>, Seq<char>)> {
    seq![("invalid-suppression"@, "Name registered rule IDs in suppression directives."@)]
}

/// The rules of the house style, with what they ask for.
pub open spec fn house_rules() -> Seq<(Seq<char>, Seq<char>)> {
    seq![
        ("hedging"@, "Remove hedging phrases."@),
        ("marketing"@, "Use factual language instead of marketing language."@),
    ]
}

/// A group of lines under its title. A group without lines is left out.
pub open spec fn section(title: Seq<char>, rows: Seq<RuleRow>) -> Seq<Seq<char>> {
    if rows.len() == 0 {
        Seq::empty()
    } else {
        seq![title, ""@] + row_texts(rows) + seq![""@]
    }
}

/// The groups of the rule summary, under their titles.
pub open spec fn sections(config: ConfigModel) -> Seq<Seq<char>> {
    section("### ASD-STE100 Simplified Technical English"@, listed(config, ste_rules(config)))
        + section("### Directive validation"@, listed(config, directive_rules())) + section(
        "### House-style rules"@,
        listed(config, house_rules()),
    )
}

/// The lines of the rule summary.
pub open spec fn summary_rows(config: ConfigModel) -> Seq<Seq<char>> {
    let groups = sections(config);
    let body = if groups.len() == 0 {
        seq!["No writing rules are enabled."@, ""@]
    } else {
        seq!["Apply these enabled rules to prose that you write or edit:"@, ""@] + groups
    };
    seq!["## Writing rules"@, ""@] + body + seq![
        "Writes, edits, and git commit messages reject hard violations. Correct the reported text and retry. Soft violations produce warnings."@,
    ]
}

/// The rule summary.
pub open spec fn summary(config: ConfigModel) -> Seq<char> {
    lines::join(summary_rows(config), "\n"@)
}

/// Adds the line of the next rule, when it is active.
fn push_rule(
    out: &mut Vec<String>,
    config: &LintConfig,
    rule_id: &str,
    summary: &str,
    Ghost(rules): Ghost<Seq<(Seq<char>, Seq<char>)>>,
    Ghost(n): Ghost<int>,
)
    requires
        0 <= n < rules.len(),
        rules[n] == (rule_id@, summary@),
        lines::texts(old(out)@) == row_texts(listed_to(config@, rules, n)),
    ensures
        lines::texts(final(out)@) == row_texts(listed_to(config@, rules, n + 1)),
{
    let ghost before = listed_to(config@, rules, n);
    let ghost row = rule_row(config@, rule_id@, summary@);
    let off = text::same(rule_id, "paragraph-length") && match config.max_paragraph_sentences {
        Some(n) => n == 0,
        None => false,
    };
    if !off {
        if let Some(severity) = config.resolve_rule(rule_id) {
            let mut line = "- [".to_owned();
            line.append(severity.as_str());
            line.append("] ");
            line.append(summary);
            let ghost l = line@;
            out.push(line);
            assert(lines::texts(out@) =~= row_texts(before).push(l));
            assert(row[0].line == l);
            assert(row_texts(before + row) =~= row_texts(before).push(l));
            return;
        }
    }
    assert(row_texts(before) =~= row_texts(before + row));
}

fn push_line(out: &mut Vec<String>, line: &str)
    ensures
        lines::texts(final(out)@) == lines::texts(old(out)@).push(line@),
{
    let ghost before = lines::texts(out@);
    out.push(line.to_owned());
    assert(lines::texts(out@) =~= before.push(line@));
}

/// Adds a group of lines under its title.
fn push_section(out: &mut Vec<String>, title: &str, rows: Vec<String>, Ghost(given): Ghost<
    Seq<RuleRow>,
>)
    requires
        lines::texts(rows@) == row_texts(given),
    ensures
        lines::texts(final(out)@) == lines::texts(old(out)@) + section(title@, given),
{
    let ghost before = lines::texts(out@);
    if rows.len() == 0 {
        assert(row_texts(given).len() == 0);
        assert(before =~= before + section(title@, given));
        return;
    }
    push_line(out, title);
    push_line(out, "");
    let ghost middle = lines::texts(out@);
    let mut rows = rows;
    out.append(&mut rows);
    assert(lines::texts(out@) =~= middle + row_texts(given));
    push_line(out, "");
    assert(lines::texts(out@) =~= before + section(title@, given));
}

fn paragraph_summary_of(max: usize) -> (r: String)
    ensures
        r@ == paragraph_summary(max as nat),
{
    let mut r = "Use no more than ".to_owned();
    if max == engine::DEFAULT_MAX_PARAGRAPH_SENTENCES {
        r.append("six");
    } else {
        r.append(text::decimal_of(max).as_str());
    }
    r.append(" sentences in one paragraph.");
    r
}

fn ste_lines_of(config: &LintConfig) -> (r: Vec<String>)
    ensures
        lines::texts(r@) == row_texts(listed(config@, ste_rules(config@))),
{
    let ghost c = config@;
    let ghost rules = ste_rules(c);
    let mut r: Vec<String> = Vec::new();
    assert(lines::texts(r@) =~= row_texts(listed_to(c, rules, 0)));
    push_rule(
        &mut r,
        config,
        "contraction",
        "Do not use contractions. Write the words in full.",
        Ghost(rules),
        Ghost(0),
    );
    push_rule(
        &mut r,
        config,
        "dictionary-not-approved-word",
        "Use approved words from the STE dictionary.",
        Ghost(rules),
        Ghost(1),
    );
    let cap = match config.max_paragraph_sentences {
        Some(n) => n,
        None => engine::DEFAULT_MAX_PARAGRAPH_SENTENCES,
    };
    push_rule(
        &mut r,
        config,
        "paragraph-length",
        paragraph_summary_of(cap).as_str(),
        Ghost(rules),
        Ghost(2),
    );
    push_rule(
        &mut r,
        config,
        "phrasal-verb",
        "Use an approved single-word verb instead of a phrasal verb.",
        Ghost(rules),
        Ghost(3),
    );
    push_rule(
        &mut r,
        config,
        "semicolon",
        "Do not use semicolons in prose. Write two sentences. Code fences are exempt.",
        Ghost(rules),
        Ghost(4),
    );
    let max = match config.max_sentence_words {
        Some(n) => n,
        None => engine::DEFAULT_MAX_SENTENCE_WORDS,
    };
    let mut length = "Keep each sentence to ".to_owned();
    length.append(text::decimal_of(max).as_str());
    length.append(" words or fewer.");
    push_rule(
        &mut r,
        config,
        "sentence-length",
        length.as_str(),
        Ghost(rules),
        Ghost(5),
    );
    push_rule(
        &mut r,
        config,
        "verb-progressive",
        "Do not use progressive verb forms.",
        Ghost(rules),
        Ghost(6),
    );
    push_rule(
        &mut r,
        config,
        "verb-passive",
        "Prefer active voice.",
        Ghost(rules),
        Ghost(7),
    );
    push_rule(
        &mut r,
        config,
        "verb-perfect",
        "Do not use perfect verb forms.",
        Ghost(rules),
        Ghost(8),
    );
    r
}

/// Build the static rule-summary text that is injected into the model
/// prompt. It lists the active rules with their severity.
pub fn rule_summary(config: &LintConfig) -> (r: String)
    ensures
        r@ == summary(config@),
{
    let ghost c = config@;
    let ste = ste_lines_of(config);
    let mut directive: Vec<String> = Vec::new();
    assert(lines::texts(directive@) =~= row_texts(listed_to(c, directive_rules(), 0)));
    push_rule(
        &mut directive,
        config,
        "invalid-suppression",
        "Name registered rule IDs in suppression directives.",
        Ghost(directive_rules()),
        Ghost(0),
    );
    let mut house: Vec<String> = Vec::new();
    assert(lines::texts(house@) =~= row_texts(listed_to(c, house_rules(), 0)));
    push_rule(
        &mut house,
        config,
        "hedging",
        "Remove hedging phrases.",
        Ghost(house_rules()),
        Ghost(0),
    );
    push_rule(
        &mut house,
        config,
        "marketing",
        "Use factual language instead of marketing language.",
        Ghost(house_rules()),
        Ghost(1),
    );
    let mut groups: Vec<String> = Vec::new();
    assert(lines::texts(groups@) =~= Seq::<Seq<char>>::empty());
    push_section(
        &mut groups,
        "### ASD-STE100 Simplified Technical English",
        ste,
        Ghost(listed(c, ste_rules(c))),
    );
    push_section(
        &mut groups,
        "### Directive validation",
        directive,
        Ghost(listed(c, directive_rules())),
    );
    push_section(
        &mut groups,
        "### House-style rules",
        house,
        Ghost(listed(c, house_rules())),
    );
    assert(lines::texts(groups@) =~= sections(c));
    let mut all: Vec<String> = Vec::new();
    assert(lines::texts(all@) =~= Seq::<Seq<char>>::empty());
    push_line(&mut all, "## Writing rules");
    push_line(&mut all, "");
    if groups.len() == 0 {
        push_line(&mut all, "No writing rules are enabled.");
        push_line(&mut all, "");
    } else {
        push_line(&mut all, "Apply these enabled rules to prose that you write or edit:");
        push_line(&mut all, "");
        let ghost before = lines::texts(all@);
        all.append(&mut groups);
        assert(lines::texts(all@) =~= before + sections(c));
    }
    push_line(
        &mut all,
        "Writes, edits, and git commit messages reject hard violations. Correct the reported text and retry. Soft violations produce warnings.",
    );
    assert(lines::texts(all@) =~= summary_rows(c));
    lines::join_strings(&all, "\n")
}

// ── Laws of the rule summary ───────────────────────────────────────────────

/// Those of the first `n` lines that are not on a rule.
pub open spec fn without_to(rows: Seq<RuleRow>, rule_id: Seq<char>, n: int) -> Seq<RuleRow>
    decreases n,
{
    if n <= 0 {
        Seq::empty()
    } else if rows[n - 1].rule_id == rule_id {
        without_to(rows, rule_id, n - 1)
    } else {
        without_to(rows, rule_id, n - 1).push(rows[n - 1])
    }
}

/// The lines that are not on a rule.
pub open spec fn without(rows: Seq<RuleRow>, rule_id: Seq<char>) -> Seq<RuleRow> {
    without_to(rows, rule_id, rows.len() as int)
}

/// A group of the summary: the ASD-STE100 rules, the rule on directives and
/// the house style.
pub open spec fn group(config: ConfigModel, g: int) -> Seq<RuleRow> {
    if g == 0 {
        listed(config, ste_rules(config))
    } else if g == 1 {
        listed(config, directive_rules())
    } else {
        listed(config, house_rules())
    }
}

proof fn lemma_active_off(config: ConfigModel, rule_id: Seq<char>, other: Seq<char>)
    ensures
        active(types::turned_off(config, rule_id), other) == (if other == rule_id {
            None
        } else {
            active(config, other)
        }),
{
    types::lemma_resolved_off(config.rules, rule_id, other);
}

proof fn lemma_without_push(rows: Seq<RuleRow>, row: RuleRow, rule_id: Seq<char>, n: int)
    requires
        0 <= n <= rows.len(),
    ensures
        without_to(rows.push(row), rule_id, n) == without_to(rows, rule_id, n),
    decreases n,
{
    if n > 0 {
        lemma_without_push(rows, row, rule_id, n - 1);
    }
}

proof fn lemma_listed_off(
    config: ConfigModel,
    rule_id: Seq<char>,
    rules: Seq<(Seq<char>, Seq<char>)>,
    n: int,
)
    ensures
        listed_to(types::turned_off(config, rule_id), rules, n) == without(
            listed_to(config, rules, n),
            rule_id,
        ),
    decreases n,
{
    if n > 0 {
        lemma_listed_off(config, rule_id, rules, n - 1);
        lemma_active_off(config, rule_id, rules[n - 1].0);
        let before = listed_to(config, rules, n - 1);
        let row = rule_row(config, rules[n - 1].0, rules[n - 1].1);
        let row_off = rule_row(types::turned_off(config, rule_id), rules[n - 1].0, rules[n - 1].1);
        if row.len() > 0 {
            assert(before + row =~= before.push(row[0]));
            lemma_without_push(before, row[0], rule_id, before.len() as int);
            if rules[n - 1].0 != rule_id {
                assert(without(before, rule_id) + row_off =~= without(before, rule_id).push(
                    row[0],
                ));
            } else {
                assert(without(before, rule_id) + row_off =~= without(before, rule_id));
            }
        } else {
            assert(before + row =~= before);
            assert(without(before, rule_id) + row_off =~= without(before, rule_id));
        }
    }
}

/// Turning a rule off removes its line from its group. All other lines stay
/// as they are, in their order.
pub proof fn law_off_rule_loses_its_line(config: ConfigModel, rule_id: Seq<char>, g: int)
    ensures
        group(types::turned_off(config, rule_id), g) == without(group(config, g), rule_id),
{
    lemma_listed_off(config, rule_id, ste_rules(config), ste_rules(config).len() as int);
    lemma_listed_off(config, rule_id, directive_rules(), directive_rules().len() as int);
    lemma_listed_off(config, rule_id, house_rules(), house_rules().len() as int);
}

/// The rules of a group, with what they ask for.
spec fn group_rules(config: ConfigModel, g: int) -> Seq<(Seq<char>, Seq<char>)> {
    if g == 0 {
        ste_rules(config)
    } else if g == 1 {
        directive_rules()
    } else {
        house_rules()
    }
}

/// No rule is listed twice.
proof fn lemma_rules_differ(config: ConfigModel)
    ensures
        forall|g: int, h: int, i: int, j: int|
            0 <= g <= h < 3 && 0 <= i < group_rules(config, g).len() && 0 <= j < group_rules(
                config,
                h,
            ).len() && (g < h || i < j) ==> (#[trigger] group_rules(config, g)[i]).0 != (
            #[trigger] group_rules(config, h)[j]).0,
{
    reveal_strlit("contraction");
    reveal_strlit("dictionary-not-approved-word");
    reveal_strlit("paragraph-length");
    reveal_strlit("phrasal-verb");
    reveal_strlit("semicolon");
    reveal_strlit("sentence-length");
    reveal_strlit("verb-progressive");
    reveal_strlit("verb-passive");
    reveal_strlit("verb-perfect");
    reveal_strlit("invalid-suppression");
    reveal_strlit("hedging");
    reveal_strlit("marketing");
    assert("contraction"@.len() == 11);
    assert("dictionary-not-approved-word"@.len() == 28);
    assert("paragraph-length"@.len() == 16 && "paragraph-length"@[0] == 'p');
    assert("phrasal-verb"@.len() == 12 && "phrasal-verb"@[0] == 'p');
    assert("semicolon"@.len() == 9 && "semicolon"@[0] == 's');
    assert("sentence-length"@.len() == 15);
    assert("verb-progressive"@.len() == 16 && "verb-progressive"@[0] == 'v');
    assert("verb-passive"@.len() == 12 && "verb-passive"@[0] == 'v' && "verb-passive"@[6] == 'a');
    assert("verb-perfect"@.len() == 12 && "verb-perfect"@[0] == 'v' && "verb-perfect"@[6] == 'e');
    assert("invalid-suppression"@.len() == 19);
    assert("hedging"@.len() == 7);
    assert("marketing"@.len() == 9 && "marketing"@[0] == 'm');
}

/// The rules of the listed lines differ, and each is one of the given rules.
proof fn lemma_listed(config: ConfigModel, rules: Seq<(Seq<char>, Seq<char>)>, n: int)
    requires
        0 <= n <= rules.len(),
        forall|i: int, j: int|
            0 <= i < j < rules.len() ==> (#[trigger] rules[i]).0 != (#[trigger] rules[j]).0,
    ensures
        forall|k: int|
            0 <= k < listed_to(config, rules, n).len() ==> exists|i: int|
                0 <= i < n && (#[trigger] rules[i]).0 == (#[trigger] listed_to(
                    config,
                    rules,
                    n,
                )[k]).rule_id,
        forall|i: int, j: int|
            0 <= i < j < listed_to(config, rules, n).len() ==> (#[trigger] listed_to(
                config,
                rules,
                n,
            )[i]).rule_id != (#[trigger] listed_to(config, rules, n)[j]).rule_id,
    decreases n,
{
    if n > 0 {
        lemma_listed(config, rules, n - 1);
        let before = listed_to(config, rules, n - 1);
        let all = listed_to(config, rules, n);
        assert forall|k: int| 0 <= k < all.len() implies exists|i: int|
            0 <= i < n && (#[trigger] rules[i]).0 == (#[trigger] all[k]).rule_id by {
            if k < before.len() {
                assert(all[k] == before[k]);
            } else {
                assert(all[k].rule_id == rules[n - 1].0);
            }
        }
        assert forall|i: int, j: int| 0 <= i < j < all.len() implies (#[trigger] all[i]).rule_id
            != (#[trigger] all[j]).rule_id by {
            assert(all[i] == before[i]);
            if j < before.len() {
                assert(all[j] == before[j]);
            } else {
                assert(all[j].rule_id == rules[n - 1].0);
                let p = choose|p: int|
                    0 <= p < n - 1 && (#[trigger] rules[p]).0 == before[i].rule_id;
                assert(rules[p].0 != rules[n - 1].0);
            }
        }
    }
}

proof fn lemma_without_none(rows: Seq<RuleRow>, rule_id: Seq<char>, n: int)
    requires
        0 <= n <= rows.len(),
        forall|k: int| 0 <= k < n ==> (#[trigger] rows[k]).rule_id != rule_id,
    ensures
        without_to(rows, rule_id, n) == rows.take(n),
    decreases n,
{
    if n > 0 {
        lemma_without_none(rows, rule_id, n - 1);
        assert(rows.take(n) =~= rows.take(n - 1).push(rows[n - 1]));
    } else {
        assert(rows.take(0) =~= Seq::<RuleRow>::empty());
    }
}

proof fn lemma_without_one(rows: Seq<RuleRow>, j: int, n: int)
    requires
        0 <= j < n <= rows.len(),
        forall|k: int|
            0 <= k < rows.len() && k != j ==> (#[trigger] rows[k]).rule_id != rows[j].rule_id,
    ensures
        without_to(rows, rows[j].rule_id, n) == rows.take(n).remove(j),
    decreases n,
{
    if j == n - 1 {
        lemma_without_none(rows, rows[j].rule_id, j);
        assert(rows.take(n).remove(j) =~= rows.take(j));
    } else {
        lemma_without_one(rows, j, n - 1);
        assert(rows.take(n).remove(j) =~= rows.take(n - 1).remove(j).push(rows[n - 1]));
    }
}

/// Turning a rule off changes its own group only.
proof fn lemma_groups_off(config: ConfigModel, g: int, j: int)
    requires
        0 <= g < 3,
        0 <= j < group(config, g).len(),
    ensures
        ({
            let off = types::turned_off(config, group(config, g)[j].rule_id);
            &&& group(off, g) == group(config, g).remove(j)
            &&& forall|h: int| 0 <= h < 3 && h != g ==> #[trigger] group(off, h) == group(config, h)
        }),
{
    let id = group(config, g)[j].rule_id;
    let off = types::turned_off(config, id);
    lemma_rules_differ(config);
    assert forall|h: int| 0 <= h < 3 implies #[trigger] group(off, h) == (if h == g {
        group(config, g).remove(j)
    } else {
        group(config, h)
    }) by {
        law_off_rule_loses_its_line(config, id, h);
        let rows = group(config, h);
        let rules = group_rules(config, h);
        assert forall|a: int, b: int| 0 <= a < b < rules.len() implies (#[trigger] rules[a]).0 != (
        #[trigger] rules[b]).0 by {
            assert(group_rules(config, h)[a].0 != group_rules(config, h)[b].0);
        }
        lemma_listed(config, rules, rules.len() as int);
        assert(rows.take(rows.len() as int) =~= rows);
        if h == g {
            lemma_without_one(rows, j, rows.len() as int);
        } else {
            let own = group_rules(config, g);
            assert forall|a: int, b: int| 0 <= a < b < own.len() implies (#[trigger] own[a]).0 != (
            #[trigger] own[b]).0 by {
                assert(group_rules(config, g)[a].0 != group_rules(config, g)[b].0);
            }
            lemma_listed(config, own, own.len() as int);
            let p = choose|p: int| 0 <= p < own.len() && (#[trigger] own[p]).0 == id;
            assert forall|k: int| 0 <= k < rows.len() implies (#[trigger] rows[k]).rule_id
                != id by {
                let q = choose|q: int|
                    0 <= q < rules.len() && (#[trigger] rules[q]).0 == rows[k].rule_id;
                if g < h {
                    assert(group_rules(config, g)[p].0 != group_rules(config, h)[q].0);
                } else {
                    assert(group_rules(config, h)[q].0 != group_rules(config, g)[p].0);
                }
            }
            lemma_without_none(rows, id, rows.len() as int);
        }
    }
}

/// A text without a line feed.
spec fn is_single(s: Seq<char>) -> bool {
    forall|i: int| 0 <= i < s.len() ==> #[trigger] s[i] != '\n'
}

proof fn lemma_decimal_is_single(n: nat)
    ensures
        is_single(text::decimal(n)),
    decreases n,
{
    if n >= 10 {
        lemma_decimal_is_single(n / 10);
    }
}

/// No summary of a rule holds a line feed.
proof fn lemma_summaries_are_single(config: ConfigModel)
    ensures
        forall|g: int, i: int|
            0 <= g < 3 && 0 <= i < group_rules(config, g).len() ==> is_single(
                (#[trigger] group_rules(config, g)[i]).1,
            ),
{
    assert(is_single("Do not use contractions. Write the words in full."@)) by {
        reveal_strlit("Do not use contractions. Write the words in full.");
    }
    assert(is_single("Use approved words from the STE dictionary."@)) by {
        reveal_strlit("Use approved words from the STE dictionary.");
    }
    assert(is_single("Use an approved single-word verb instead of a phrasal verb."@)) by {
        reveal_strlit("Use an approved single-word verb instead of a phrasal verb.");
    }
    assert(is_single("Do not use semicolons in prose. Write two sentences. Code fences are exempt."@)) by {
        reveal_strlit("Do not use semicolons in prose. Write two sentences. Code fences are exempt.");
    }
    assert(is_single("Do not use progressive verb forms."@)) by {
        reveal_strlit("Do not use progressive verb forms.");
    }
    assert(is_single("Prefer active voice."@)) by {
        reveal_strlit("Prefer active voice.");
    }
    assert(is_single("Do not use perfect verb forms."@)) by {
        reveal_strlit("Do not use perfect verb forms.");
    }
    assert(is_single("Name registered rule IDs in suppression directives."@)) by {
        reveal_strlit("Name registered rule IDs in suppression directives.");
    }
    assert(is_single("Remove hedging phrases."@)) by {
        reveal_strlit("Remove hedging phrases.");
    }
    assert(is_single("Use factual language instead of marketing language."@)) by {
        reveal_strlit("Use factual language instead of marketing language.");
    }
    let cap = engine::max_sentences(LintKind::ProseFile, config);
    lemma_decimal_is_single(cap);
    lemma_decimal_is_single(engine::max_words(config));
    assert(is_single(paragraph_summary(cap))) by {
        reveal_strlit("Use no more than ");
        reveal_strlit("six");
        reveal_strlit(" sentences in one paragraph.");
    }
    assert(is_single(length_summary(engine::max_words(config)))) by {
        reveal_strlit("Keep each sentence to ");
        reveal_strlit(" words or fewer.");
    }
}

/// No line of a rule holds a line feed.
proof fn lemma_listed_is_single(
    config: ConfigModel,
    rules: Seq<(Seq<char>, Seq<char>)>,
    n: int,
)
    requires
        0 <= n <= rules.len(),
        forall|i: int| 0 <= i < rules.len() ==> is_single((#[trigger] rules[i]).1),
    ensures
        forall|k: int|
            0 <= k < listed_to(config, rules, n).len() ==> is_single(
                (#[trigger] listed_to(config, rules, n)[k]).line,
            ),
    decreases n,
{
    if n > 0 {
        lemma_listed_is_single(config, rules, n - 1);
        let before = listed_to(config, rules, n - 1);
        let all = listed_to(config, rules, n);
        assert(is_single(rules[n - 1].1));
        reveal_strlit("- [");
        reveal_strlit("hard");
        reveal_strlit("soft");
        reveal_strlit("] ");
        assert forall|k: int| 0 <= k < all.len() implies is_single((#[trigger] all[k]).line) by {
            if k < before.len() {
                assert(all[k] == before[k]);
            }
        }
    }
}

proof fn lemma_section_is_single(title: Seq<char>, rows: Seq<RuleRow>)
    requires
        is_single(title),
        forall|k: int| 0 <= k < rows.len() ==> is_single((#[trigger] rows[k]).line),
    ensures
        forall|k: int|
            0 <= k < section(title, rows).len() ==> is_single(#[trigger] section(title, rows)[k]),
{
    reveal_strlit("");
    let all = section(title, rows);
    let texts = row_texts(rows);
    if rows.len() > 0 {
        assert forall|k: int| 0 <= k < all.len() implies is_single(#[trigger] all[k]) by {
            if 2 <= k < 2 + rows.len() {
                assert(all[k] == texts[k - 2]);
                assert(is_single(rows[k - 2].line));
            }
        }
    }
}

/// No line of the groups holds a line feed.
proof fn lemma_sections_are_single(config: ConfigModel)
    ensures
        forall|k: int|
            0 <= k < sections(config).len() ==> is_single(#[trigger] sections(config)[k]),
{
    lemma_summaries_are_single(config);
    let r0 = group_rules(config, 0);
    let r1 = group_rules(config, 1);
    let r2 = group_rules(config, 2);
    assert(forall|i: int| 0 <= i < r0.len() ==> is_single((#[trigger] r0[i]).1));
    assert(forall|i: int| 0 <= i < r1.len() ==> is_single((#[trigger] r1[i]).1));
    assert(forall|i: int| 0 <= i < r2.len() ==> is_single((#[trigger] r2[i]).1));
    lemma_listed_is_single(config, r0, r0.len() as int);
    lemma_listed_is_single(config, r1, r1.len() as int);
    lemma_listed_is_single(config, r2, r2.len() as int);
    assert(is_single("### ASD-STE100 Simplified Technical English"@)) by {
        reveal_strlit("### ASD-STE100 Simplified Technical English");
    }
    assert(is_single("### Directive validation"@)) by {
        reveal_strlit("### Directive validation");
    }
    assert(is_single("### House-style rules"@)) by {
        reveal_strlit("### House-style rules");
    }
    lemma_section_is_single("### ASD-STE100 Simplified Technical English"@, group(config, 0));
    lemma_section_is_single("### Directive validation"@, group(config, 1));
    lemma_section_is_single("### House-style rules"@, group(config, 2));
    let x = section("### ASD-STE100 Simplified Technical English"@, group(config, 0));
    let y = section("### Directive validation"@, group(config, 1));
    let z = section("### House-style rules"@, group(config, 2));
    let all = sections(config);
    assert(all == x + y + z);
    assert forall|k: int| 0 <= k < all.len() implies is_single(#[trigger] all[k]) by {
        if k < x.len() {
            assert(all[k] == x[k]);
        } else if k < x.len() + y.len() {
            assert(all[k] == y[k - x.len()]);
        } else {
            assert(all[k] == z[k - x.len() - y.len()]);
        }
    }
}

/// The lines of the summary text are the lines that it was made of.
pub proof fn law_summary_has_its_lines(config: ConfigModel)
    ensures
        lines::split(summary(config), '\n') == summary_rows(config),
{
    lemma_sections_are_single(config);
    let groups = sections(config);
    let rows = summary_rows(config);
    assert(is_single("## Writing rules"@)) by {
        reveal_strlit("## Writing rules");
    }
    assert(is_single("No writing rules are enabled."@)) by {
        reveal_strlit("No writing rules are enabled.");
    }
    assert(is_single("Apply these enabled rules to prose that you write or edit:"@)) by {
        reveal_strlit("Apply these enabled rules to prose that you write or edit:");
    }
    assert(is_single("Writes, edits, and git commit messages reject hard violations. Correct the reported text and retry. Soft violations produce warnings."@)) by {
        reveal_strlit("Writes, edits, and git commit messages reject hard violations. Correct the reported text and retry. Soft violations produce warnings.");
    }
    reveal_strlit("");
    reveal_strlit("\n");
    assert("\n"@ =~= seq!['\n']);
    assert forall|k: int| 0 <= k < rows.len() implies !(#[trigger] rows[k]).contains('\n') by {
        if groups.len() > 0 && 4 <= k < 4 + groups.len() {
            assert(rows[k] == groups[k - 4]);
        }
        assert(is_single(rows[k]));
    }
    lines::law_split_undoes_join(rows, '\n');
}

/// The lines before the groups of a summary.
spec fn head_rows() -> Seq<Seq<char>> {
    seq![
        "## Writing rules"@,
        ""@,
        "Apply these enabled rules to prose that you write or edit:"@,
        ""@,
    ]
}

/// The lines after the groups of a summary.
spec fn tail_rows() -> Seq<Seq<char>> {
    seq![
        "Writes, edits, and git commit messages reject hard violations. Correct the reported text and retry. Soft violations produce warnings."@,
    ]
}

/// The lines of a summary with the groups `a`, `b` and `c`.
#[verifier::opaque]
spec fn rows_of(a: Seq<RuleRow>, b: Seq<RuleRow>, c: Seq<RuleRow>) -> Seq<Seq<char>> {
    head_rows() + section("### ASD-STE100 Simplified Technical English"@, a) + section(
        "### Directive validation"@,
        b,
    ) + section("### House-style rules"@, c) + tail_rows()
}

/// One of the groups `a`, `b` and `c`.
spec fn pick(a: Seq<RuleRow>, b: Seq<RuleRow>, c: Seq<RuleRow>, g: int) -> Seq<RuleRow> {
    if g == 0 {
        a
    } else if g == 1 {
        b
    } else {
        c
    }
}

/// Removing one line of a group removes one line of the summary.
proof fn lemma_remove_line(
    a: Seq<RuleRow>,
    b: Seq<RuleRow>,
    c: Seq<RuleRow>,
    g: int,
    j: int,
) -> (k: int)
    requires
        0 <= g < 3,
        0 <= j < pick(a, b, c, g).len(),
        pick(a, b, c, g).len() >= 2,
    ensures
        0 <= k < rows_of(a, b, c).len(),
        rows_of(a, b, c)[k] == pick(a, b, c, g)[j].line,
        g == 0 ==> rows_of(a.remove(j), b, c) == rows_of(a, b, c).remove(k),
        g == 1 ==> rows_of(a, b.remove(j), c) == rows_of(a, b, c).remove(k),
        g == 2 ==> rows_of(a, b, c.remove(j)) == rows_of(a, b, c).remove(k),
{
    reveal(rows_of);
    let t0 = "### ASD-STE100 Simplified Technical English"@;
    let t1 = "### Directive validation"@;
    let t2 = "### House-style rules"@;
    let head = head_rows();
    let tail = tail_rows();
    let x = section(t0, a);
    let y = section(t1, b);
    let z = section(t2, c);
    if g == 0 {
        lemma_section_remove(head, t0, a, y + z + tail, j);
        assert(head + x + y + z + tail =~= head + x + (y + z + tail));
        let w = section(t0, a.remove(j));
        assert(head + w + y + z + tail =~= head + w + (y + z + tail));
        head.len() + 2 + j
    } else if g == 1 {
        lemma_section_remove(head + x, t1, b, z + tail, j);
        assert(head + x + y + z + tail =~= (head + x) + y + (z + tail));
        let w = section(t1, b.remove(j));
        assert(head + x + w + z + tail =~= (head + x) + w + (z + tail));
        (head + x).len() + 2 + j
    } else {
        lemma_section_remove(head + x + y, t2, c, tail, j);
        (head + x + y).len() + 2 + j
    }
}

/// Turning off a rule whose group keeps another line removes that one line
/// from the summary. All other lines stay as they are, in their order.
pub proof fn law_off_rule_removes_one_line(config: ConfigModel, g: int, j: int) -> (k: int)
    requires
        0 <= g < 3,
        0 <= j < group(config, g).len(),
        group(config, g).len() >= 2,
    ensures
        0 <= k < summary_rows(config).len(),
        summary_rows(config)[k] == group(config, g)[j].line,
        summary_rows(types::turned_off(config, group(config, g)[j].rule_id)) == summary_rows(
            config,
        ).remove(k),
{
    let a = group(config, 0);
    let b = group(config, 1);
    let c = group(config, 2);
    let off = types::turned_off(config, group(config, g)[j].rule_id);
    lemma_groups_off(config, g, j);
    lemma_rows(config, g);
    lemma_rows(off, g);
    assert(g != 0 ==> group(off, 0) == a);
    assert(g != 1 ==> group(off, 1) == b);
    assert(g != 2 ==> group(off, 2) == c);
    lemma_remove_line(a, b, c, g, j)
}

/// The lines of a summary that lists a rule.
proof fn lemma_rows(config: ConfigModel, g: int)
    requires
        0 <= g < 3,
        group(config, g).len() > 0,
    ensures
        summary_rows(config) == rows_of(group(config, 0), group(config, 1), group(config, 2)),
{
    reveal(rows_of);
    let x = section("### ASD-STE100 Simplified Technical English"@, group(config, 0));
    let y = section("### Directive validation"@, group(config, 1));
    let z = section("### House-style rules"@, group(config, 2));
    assert(sections(config) == x + y + z);
    assert(summary_rows(config) =~= head_rows() + x + y + z + tail_rows());
}

proof fn lemma_section_remove(
    head: Seq<Seq<char>>,
    title: Seq<char>,
    rows: Seq<RuleRow>,
    tail: Seq<Seq<char>>,
    j: int,
)
    requires
        0 <= j < rows.len(),
        rows.len() >= 2,
    ensures
        ({
            let all = head + section(title, rows) + tail;
            let k = head.len() + 2 + j;
            &&& 0 <= k < all.len()
            &&& all[k] == rows[j].line
            &&& head + section(title, rows.remove(j)) + tail == all.remove(k)
        }),
{
    let all = head + section(title, rows) + tail;
    let k = head.len() + 2 + j;
    assert(row_texts(rows.remove(j)) =~= row_texts(rows).remove(j));
    assert(head + section(title, rows.remove(j)) + tail =~= all.remove(k));
}

} // verus!

//! Laws of the word lists.

use vstd::prelude::*;

use crate::dictionaries;
use crate::dictionaries::EntryModel;
use crate::foreign;
use crate::rules;
use crate::text;
use crate::types::{Severity, ViolationModel};

verus! {

// ── Phrases alone on a line ────────────────────────────────────────────────

proof fn lemma_first_column(
    line: Seq<char>,
    lowered: Seq<Seq<char>>,
    phrase: Seq<char>,
    n: int,
)
    requires
        n >= 1,
        rules::stands_at(line, lowered, phrase, 0),
    ensures
        rules::columns_to(line, lowered, phrase, n).len() > 0,
        rules::columns_to(line, lowered, phrase, n)[0] == 1,
    decreases n,
{
    if n > 1 {
        lemma_first_column(line, lowered, phrase, n - 1);
    } else {
        assert(rules::columns_to(line, lowered, phrase, 0) =~= Seq::<int>::empty());
        assert(text::byte_offset(line, 0) == 0);
    }
}

/// A phrase stands at column 1 of the line that it is.
proof fn lemma_own_column(p: Seq<char>)
    requires
        !text::is_blank(p),
    ensures
        rules::columns_of(p, p).contains(1),
{
    let n = p.len() as int;
    assert(rules::ends_at(p, rules::folds(p), rules::folded(p), 0, n));
    assert(rules::stands_at(p, rules::folds(p), rules::folded(p), 0));
    lemma_first_column(p, rules::folds(p), rules::folded(p), n);
    assert(rules::columns_of(p, p)[0] == 1);
}

proof fn lemma_in_second(a: Seq<ViolationModel>, b: Seq<ViolationModel>, x: ViolationModel)
    requires
        b.contains(x),
    ensures
        (a + b).contains(x),
{
    let k = choose|k: int| 0 <= k < b.len() && b[k] == x;
    assert((a + b)[a.len() + k] == x);
}

proof fn lemma_in_first(a: Seq<ViolationModel>, b: Seq<ViolationModel>, x: ViolationModel)
    requires
        a.contains(x),
    ensures
        (a + b).contains(x),
{
    let k = choose|k: int| 0 <= k < a.len() && a[k] == x;
    assert((a + b)[k] == x);
}

proof fn lemma_phrase_is_reported(
    rule_id: Seq<char>,
    severity: Severity,
    p: Seq<char>,
    suggestion: Seq<char>,
)
    requires
        !text::is_blank(p),
    ensures
        rules::phrase_to(seq![p], rule_id, severity, p, suggestion, 1).contains(
            rules::phrase_violation(rule_id, severity, p, suggestion, 1, 1),
        ),
{
    lemma_own_column(p);
    let columns = rules::columns_of(p, p);
    let k = choose|k: int| 0 <= k < columns.len() && columns[k] == 1;
    let more = Seq::new(
        columns.len(),
        |k: int| rules::phrase_violation(rule_id, severity, p, suggestion, 1, columns[k]),
    );
    assert(more[k] == rules::phrase_violation(rule_id, severity, p, suggestion, 1, 1));
    assert(seq![p][0] == p);
    let none = rules::phrase_to(seq![p], rule_id, severity, p, suggestion, 0);
    assert(none =~= Seq::<ViolationModel>::empty());
    assert(rules::phrase_to(seq![p], rule_id, severity, p, suggestion, 1) =~= more);
    assert(rules::phrase_to(seq![p], rule_id, severity, p, suggestion, 1)[k] == more[k]);
}

proof fn lemma_entry_is_reported(
    rule_id: Seq<char>,
    severity: Severity,
    entry: EntryModel,
    j: int,
    n: int,
)
    requires
        0 <= j < n <= entry.unapproved.len(),
        !text::is_blank(entry.unapproved[j]),
    ensures
        rules::entry_to(seq![entry.unapproved[j]], rule_id, severity, entry, n).contains(
            rules::phrase_violation(
                rule_id,
                severity,
                entry.unapproved[j],
                rules::suggestion_of(entry),
                1,
                1,
            ),
        ),
    decreases n,
{
    let p = entry.unapproved[j];
    let x = rules::phrase_violation(rule_id, severity, p, rules::suggestion_of(entry), 1, 1);
    let before = rules::entry_to(seq![p], rule_id, severity, entry, n - 1);
    let more = rules::phrase_to(
        seq![p],
        rule_id,
        severity,
        entry.unapproved[n - 1],
        rules::suggestion_of(entry),
        1,
    );
    if j == n - 1 {
        lemma_phrase_is_reported(rule_id, severity, p, rules::suggestion_of(entry));
        lemma_in_second(before, more, x);
    } else {
        lemma_entry_is_reported(rule_id, severity, entry, j, n - 1);
        lemma_in_first(before, more, x);
    }
}

proof fn lemma_entries_are_reported(
    rule_id: Seq<char>,
    severity: Severity,
    entries: Seq<EntryModel>,
    i: int,
    j: int,
    n: int,
)
    requires
        0 <= i < n <= entries.len(),
        0 <= j < entries[i].unapproved.len(),
        !text::is_blank(entries[i].unapproved[j]),
    ensures
        rules::entries_to(seq![entries[i].unapproved[j]], rule_id, severity, entries, n).contains(
            rules::phrase_violation(
                rule_id,
                severity,
                entries[i].unapproved[j],
                rules::suggestion_of(entries[i]),
                1,
                1,
            ),
        ),
    decreases n,
{
    let p = entries[i].unapproved[j];
    let x = rules::phrase_violation(rule_id, severity, p, rules::suggestion_of(entries[i]), 1, 1);
    let before = rules::entries_to(seq![p], rule_id, severity, entries, n - 1);
    let len = entries[n - 1].unapproved.len() as int;
    let more = rules::entry_to(seq![p], rule_id, severity, entries[n - 1], len);
    if i == n - 1 {
        lemma_entry_is_reported(rule_id, severity, entries[i], j, len);
        lemma_in_second(before, more, x);
    } else {
        lemma_entries_are_reported(rule_id, severity, entries, i, j, n - 1);
        lemma_in_first(before, more, x);
    }
}

/// A phrase of a list that is not blank is reported when it stands alone on a
/// line: at column 1, with the replacement that its entry suggests.
pub proof fn law_listed_phrase_is_reported(
    rule_id: Seq<char>,
    severity: Severity,
    entries: Seq<EntryModel>,
    i: int,
    j: int,
)
    requires
        0 <= i < entries.len(),
        0 <= j < entries[i].unapproved.len(),
        !text::is_blank(entries[i].unapproved[j]),
    ensures
        rules::phrases(seq![entries[i].unapproved[j]], rule_id, severity, entries).contains(
            rules::phrase_violation(
                rule_id,
                severity,
                entries[i].unapproved[j],
                rules::suggestion_of(entries[i]),
                1,
                1,
            ),
        ),
{
    lemma_entries_are_reported(rule_id, severity, entries, i, j, entries.len() as int);
}

// ── The words of the dictionary ────────────────────────────────────────────

/// A lower-case letter.
pub open spec fn is_letter(c: char) -> bool {
    'a' <= c <= 'z'
}

/// A text of lower-case letters and spaces.
pub open spec fn is_plain(s: Seq<char>) -> bool {
    forall|i: int| 0 <= i < s.len() ==> (is_letter(#[trigger] s[i]) || s[i] == ' ')
}

/// A text of lower-case letters.
pub open spec fn is_one_word(s: Seq<char>) -> bool {
    forall|i: int| 0 <= i < s.len() ==> is_letter(#[trigger] s[i])
}

/// What tells the suggested words from those that are not approved: their
/// length and a few of their first characters.
spec fn is_fix(s: Seq<char>) -> bool {
    let n = s.len();
    ||| n < 5
    ||| n == 5 && s[0] != 'b' && s[0] != 'p'
    ||| n == 6 && (s[0] == 'c' || (s[0] == 'e' && s[2] == 'o') || (s[0] == 'b' && s[2] == 'f') || (
    s[0] == 'o' && s[1] == 'r'))
    ||| n == 7 && s[0] == 'b'
    ||| n == 8 && s[0] == 'c' && s[3] == 'p'
    ||| n == 9 && s[4] == ' '
}

/// A word or phrase that is not approved.
spec fn is_bad(s: Seq<char>) -> bool {
    is_plain(s) && !is_fix(s) && is_letter(s[0])
}

/// A suggested word, or the one suggestion of two words.
spec fn is_good(s: Seq<char>) -> bool {
    is_fix(s) && (is_one_word(s) || s == "make sure"@)
}

/// An entry of words that are not approved, with a suggestion.
spec fn is_entry(e: EntryModel) -> bool {
    &&& e.suggestions.len() > 0
    &&& forall|j: int| 0 <= j < e.unapproved.len() ==> is_bad(#[trigger] e.unapproved[j])
    &&& forall|k: int| 0 <= k < e.suggestions.len() ==> is_good(#[trigger] e.suggestions[k])
}

proof fn lemma_words_a()
    ensures
        forall|i: int|
            0 <= i < 6 ==> is_entry(#[trigger] dictionaries::ste_dictionary_entries()[i]),
{
    assert(is_bad("initiate"@)) by {
        reveal_strlit("initiate");
    }
    assert(is_bad("initiates"@)) by {
        reveal_strlit("initiates");
    }
    assert(is_bad("initiated"@)) by {
        reveal_strlit("initiated");
    }
    assert(is_bad("initiating"@)) by {
        reveal_strlit("initiating");
    }
    assert(is_good("start"@)) by {
        reveal_strlit("start");
    }
    assert(is_bad("commence"@)) by {
        reveal_strlit("commence");
    }
    assert(is_bad("commences"@)) by {
        reveal_strlit("commences");
    }
    assert(is_bad("commenced"@)) by {
        reveal_strlit("commenced");
    }
    assert(is_bad("commencing"@)) by {
        reveal_strlit("commencing");
    }
    assert(is_bad("utilize"@)) by {
        reveal_strlit("utilize");
    }
    assert(is_bad("utilizes"@)) by {
        reveal_strlit("utilizes");
    }
    assert(is_bad("utilized"@)) by {
        reveal_strlit("utilized");
    }
    assert(is_bad("utilizing"@)) by {
        reveal_strlit("utilizing");
    }
    assert(is_good("use"@)) by {
        reveal_strlit("use");
    }
    assert(is_bad("utilise"@)) by {
        reveal_strlit("utilise");
    }
    assert(is_bad("utilises"@)) by {
        reveal_strlit("utilises");
    }
    assert(is_bad("utilised"@)) by {
        reveal_strlit("utilised");
    }
    assert(is_bad("utilising"@)) by {
        reveal_strlit("utilising");
    }
    assert(is_bad("ensure"@)) by {
        reveal_strlit("ensure");
    }
    assert(is_bad("ensures"@)) by {
        reveal_strlit("ensures");
    }
    assert(is_bad("ensured"@)) by {
        reveal_strlit("ensured");
    }
    assert(is_bad("ensuring"@)) by {
        reveal_strlit("ensuring");
    }
    assert(is_good("make sure"@)) by {
        reveal_strlit("make sure");
    }
    assert(is_bad("terminate"@)) by {
        reveal_strlit("terminate");
    }
    assert(is_bad("terminates"@)) by {
        reveal_strlit("terminates");
    }
    assert(is_bad("terminated"@)) by {
        reveal_strlit("terminated");
    }
    assert(is_bad("terminating"@)) by {
        reveal_strlit("terminating");
    }
    assert(is_good("stop"@)) by {
        reveal_strlit("stop");
    }
    reveal(dictionaries::ste_dictionary_entries);
}

proof fn lemma_words_b()
    ensures
        forall|i: int|
            6 <= i < 12 ==> is_entry(#[trigger] dictionaries::ste_dictionary_entries()[i]),
{
    assert(is_bad("facilitate"@)) by {
        reveal_strlit("facilitate");
    }
    assert(is_bad("facilitates"@)) by {
        reveal_strlit("facilitates");
    }
    assert(is_bad("facilitated"@)) by {
        reveal_strlit("facilitated");
    }
    assert(is_bad("facilitating"@)) by {
        reveal_strlit("facilitating");
    }
    assert(is_good("help"@)) by {
        reveal_strlit("help");
    }
    assert(is_bad("locate"@)) by {
        reveal_strlit("locate");
    }
    assert(is_bad("locates"@)) by {
        reveal_strlit("locates");
    }
    assert(is_bad("located"@)) by {
        reveal_strlit("located");
    }
    assert(is_bad("locating"@)) by {
        reveal_strlit("locating");
    }
    assert(is_good("find"@)) by {
        reveal_strlit("find");
    }
    assert(is_bad("indicate"@)) by {
        reveal_strlit("indicate");
    }
    assert(is_bad("indicates"@)) by {
        reveal_strlit("indicates");
    }
    assert(is_bad("indicated"@)) by {
        reveal_strlit("indicated");
    }
    assert(is_bad("indicating"@)) by {
        reveal_strlit("indicating");
    }
    assert(is_good("show"@)) by {
        reveal_strlit("show");
    }
    assert(is_bad("require"@)) by {
        reveal_strlit("require");
    }
    assert(is_bad("requires"@)) by {
        reveal_strlit("requires");
    }
    assert(is_bad("required"@)) by {
        reveal_strlit("required");
    }
    assert(is_bad("requiring"@)) by {
        reveal_strlit("requiring");
    }
    assert(is_good("need"@)) by {
        reveal_strlit("need");
    }
    assert(is_bad("purchase"@)) by {
        reveal_strlit("purchase");
    }
    assert(is_bad("purchases"@)) by {
        reveal_strlit("purchases");
    }
    assert(is_bad("purchased"@)) by {
        reveal_strlit("purchased");
    }
    assert(is_bad("purchasing"@)) by {
        reveal_strlit("purchasing");
    }
    assert(is_good("buy"@)) by {
        reveal_strlit("buy");
    }
    assert(is_bad("leverage"@)) by {
        reveal_strlit("leverage");
    }
    assert(is_bad("leverages"@)) by {
        reveal_strlit("leverages");
    }
    assert(is_bad("leveraged"@)) by {
        reveal_strlit("leveraged");
    }
    assert(is_bad("leveraging"@)) by {
        reveal_strlit("leveraging");
    }
    assert(is_good("use"@)) by {
        reveal_strlit("use");
    }
    reveal(dictionaries::ste_dictionary_entries);
}

proof fn lemma_words_c()
    ensures
        forall|i: int|
            12 <= i < 18 ==> is_entry(#[trigger] dictionaries::ste_dictionary_entries()[i]),
{
    assert(is_bad("acquire"@)) by {
        reveal_strlit("acquire");
    }
    assert(is_bad("acquires"@)) by {
        reveal_strlit("acquires");
    }
    assert(is_bad("acquired"@)) by {
        reveal_strlit("acquired");
    }
    assert(is_bad("acquiring"@)) by {
        reveal_strlit("acquiring");
    }
    assert(is_good("get"@)) by {
        reveal_strlit("get");
    }
    assert(is_bad("demonstrate"@)) by {
        reveal_strlit("demonstrate");
    }
    assert(is_bad("demonstrates"@)) by {
        reveal_strlit("demonstrates");
    }
    assert(is_bad("demonstrated"@)) by {
        reveal_strlit("demonstrated");
    }
    assert(is_bad("demonstrating"@)) by {
        reveal_strlit("demonstrating");
    }
    assert(is_good("show"@)) by {
        reveal_strlit("show");
    }
    assert(is_bad("originate"@)) by {
        reveal_strlit("originate");
    }
    assert(is_bad("originates"@)) by {
        reveal_strlit("originates");
    }
    assert(is_bad("originated"@)) by {
        reveal_strlit("originated");
    }
    assert(is_bad("originating"@)) by {
        reveal_strlit("originating");
    }
    assert(is_good("start"@)) by {
        reveal_strlit("start");
    }
    assert(is_bad("perform"@)) by {
        reveal_strlit("perform");
    }
    assert(is_bad("performs"@)) by {
        reveal_strlit("performs");
    }
    assert(is_bad("performed"@)) by {
        reveal_strlit("performed");
    }
    assert(is_bad("performing"@)) by {
        reveal_strlit("performing");
    }
    assert(is_good("do"@)) by {
        reveal_strlit("do");
    }
    assert(is_bad("obtain"@)) by {
        reveal_strlit("obtain");
    }
    assert(is_bad("obtains"@)) by {
        reveal_strlit("obtains");
    }
    assert(is_bad("obtained"@)) by {
        reveal_strlit("obtained");
    }
    assert(is_bad("obtaining"@)) by {
        reveal_strlit("obtaining");
    }
    assert(is_bad("attempt"@)) by {
        reveal_strlit("attempt");
    }
    assert(is_bad("attempts"@)) by {
        reveal_strlit("attempts");
    }
    assert(is_bad("attempted"@)) by {
        reveal_strlit("attempted");
    }
    assert(is_bad("attempting"@)) by {
        reveal_strlit("attempting");
    }
    assert(is_good("try"@)) by {
        reveal_strlit("try");
    }
    reveal(dictionaries::ste_dictionary_entries);
}

proof fn lemma_words_d()
    ensures
        forall|i: int|
            18 <= i < 24 ==> is_entry(#[trigger] dictionaries::ste_dictionary_entries()[i]),
{
    assert(is_bad("assist"@)) by {
        reveal_strlit("assist");
    }
    assert(is_bad("assists"@)) by {
        reveal_strlit("assists");
    }
    assert(is_bad("assisted"@)) by {
        reveal_strlit("assisted");
    }
    assert(is_bad("assisting"@)) by {
        reveal_strlit("assisting");
    }
    assert(is_good("help"@)) by {
        reveal_strlit("help");
    }
    assert(is_bad("permit"@)) by {
        reveal_strlit("permit");
    }
    assert(is_bad("permits"@)) by {
        reveal_strlit("permits");
    }
    assert(is_bad("permited"@)) by {
        reveal_strlit("permited");
    }
    assert(is_bad("permiting"@)) by {
        reveal_strlit("permiting");
    }
    assert(is_good("let"@)) by {
        reveal_strlit("let");
    }
    assert(is_bad("modify"@)) by {
        reveal_strlit("modify");
    }
    assert(is_bad("modifies"@)) by {
        reveal_strlit("modifies");
    }
    assert(is_bad("modified"@)) by {
        reveal_strlit("modified");
    }
    assert(is_bad("modifying"@)) by {
        reveal_strlit("modifying");
    }
    assert(is_good("change"@)) by {
        reveal_strlit("change");
    }
    assert(is_bad("begin"@)) by {
        reveal_strlit("begin");
    }
    assert(is_bad("begins"@)) by {
        reveal_strlit("begins");
    }
    assert(is_bad("began"@)) by {
        reveal_strlit("began");
    }
    assert(is_bad("beginning"@)) by {
        reveal_strlit("beginning");
    }
    assert(is_good("start"@)) by {
        reveal_strlit("start");
    }
    assert(is_bad("approximately"@)) by {
        reveal_strlit("approximately");
    }
    assert(is_good("about"@)) by {
        reveal_strlit("about");
    }
    assert(is_bad("sufficient"@)) by {
        reveal_strlit("sufficient");
    }
    assert(is_good("enough"@)) by {
        reveal_strlit("enough");
    }
    reveal(dictionaries::ste_dictionary_entries);
}

proof fn lemma_words_e()
    ensures
        forall|i: int|
            24 <= i < 30 ==> is_entry(#[trigger] dictionaries::ste_dictionary_entries()[i]),
{
    assert(is_bad("subsequent"@)) by {
        reveal_strlit("subsequent");
    }
    assert(is_bad("subsequently"@)) by {
        reveal_strlit("subsequently");
    }
    assert(is_good("next"@)) by {
        reveal_strlit("next");
    }
    assert(is_bad("prior"@)) by {
        reveal_strlit("prior");
    }
    assert(is_good("before"@)) by {
        reveal_strlit("before");
    }
    assert(is_bad("additional"@)) by {
        reveal_strlit("additional");
    }
    assert(is_bad("additionally"@)) by {
        reveal_strlit("additionally");
    }
    assert(is_good("more"@)) by {
        reveal_strlit("more");
    }
    assert(is_bad("furthermore"@)) by {
        reveal_strlit("furthermore");
    }
    assert(is_bad("moreover"@)) by {
        reveal_strlit("moreover");
    }
    assert(is_good("also"@)) by {
        reveal_strlit("also");
    }
    assert(is_bad("comprehensive"@)) by {
        reveal_strlit("comprehensive");
    }
    assert(is_bad("comprehensively"@)) by {
        reveal_strlit("comprehensively");
    }
    assert(is_good("complete"@)) by {
        reveal_strlit("complete");
    }
    assert(is_bad("utilization"@)) by {
        reveal_strlit("utilization");
    }
    assert(is_good("use"@)) by {
        reveal_strlit("use");
    }
    reveal(dictionaries::ste_dictionary_entries);
}

proof fn lemma_words_f()
    ensures
        forall|i: int|
            30 <= i < 36 ==> is_entry(#[trigger] dictionaries::ste_dictionary_entries()[i]),
{
    assert(is_bad("aforementioned"@)) by {
        reveal_strlit("aforementioned");
    }
    assert(is_good("this"@)) by {
        reveal_strlit("this");
    }
    assert(is_bad("whilst"@)) by {
        reveal_strlit("whilst");
    }
    assert(is_good("while"@)) by {
        reveal_strlit("while");
    }
    assert(is_bad("amongst"@)) by {
        reveal_strlit("amongst");
    }
    assert(is_good("among"@)) by {
        reveal_strlit("among");
    }
    assert(is_bad("numerous"@)) by {
        reveal_strlit("numerous");
    }
    assert(is_bad("myriad"@)) by {
        reveal_strlit("myriad");
    }
    assert(is_bad("plethora"@)) by {
        reveal_strlit("plethora");
    }
    assert(is_good("many"@)) by {
        reveal_strlit("many");
    }
    assert(is_bad("prior to"@)) by {
        reveal_strlit("prior to");
    }
    assert(is_good("before"@)) by {
        reveal_strlit("before");
    }
    assert(is_bad("subsequent to"@)) by {
        reveal_strlit("subsequent to");
    }
    assert(is_good("after"@)) by {
        reveal_strlit("after");
    }
    reveal(dictionaries::ste_dictionary_entries);
}

proof fn lemma_words_g()
    ensures
        forall|i: int|
            36 <= i < 42 ==> is_entry(#[trigger] dictionaries::ste_dictionary_entries()[i]),
{
    assert(is_bad("in order to"@)) by {
        reveal_strlit("in order to");
    }
    assert(is_good("to"@)) by {
        reveal_strlit("to");
    }
    assert(is_bad("a variety of"@)) by {
        reveal_strlit("a variety of");
    }
    assert(is_good("some"@)) by {
        reveal_strlit("some");
    }
    assert(is_bad("in the event that"@)) by {
        reveal_strlit("in the event that");
    }
    assert(is_good("if"@)) by {
        reveal_strlit("if");
    }
    assert(is_bad("due to the fact that"@)) by {
        reveal_strlit("due to the fact that");
    }
    assert(is_good("because"@)) by {
        reveal_strlit("because");
    }
    assert(is_bad("is able to"@)) by {
        reveal_strlit("is able to");
    }
    assert(is_bad("are able to"@)) by {
        reveal_strlit("are able to");
    }
    assert(is_good("can"@)) by {
        reveal_strlit("can");
    }
    assert(is_bad("make use of"@)) by {
        reveal_strlit("make use of");
    }
    assert(is_bad("makes use of"@)) by {
        reveal_strlit("makes use of");
    }
    assert(is_good("use"@)) by {
        reveal_strlit("use");
    }
    reveal(dictionaries::ste_dictionary_entries);
}

proof fn lemma_words_h()
    ensures
        forall|i: int|
            42 <= i < 43 ==> is_entry(#[trigger] dictionaries::ste_dictionary_entries()[i]),
{
    assert(is_bad("provenance"@)) by {
        reveal_strlit("provenance");
    }
    assert(is_good("origin"@)) by {
        reveal_strlit("origin");
    }
    reveal(dictionaries::ste_dictionary_entries);
}

proof fn lemma_dictionary()
    ensures
        forall|i: int|
            0 <= i < dictionaries::ste_dictionary_entries().len() ==> is_entry(
                #[trigger] dictionaries::ste_dictionary_entries()[i],
            ),
{
    lemma_words_a();
    lemma_words_b();
    lemma_words_c();
    lemma_words_d();
    lemma_words_e();
    lemma_words_f();
    lemma_words_g();
    lemma_words_h();
    assert(dictionaries::ste_dictionary_entries().len() == 43) by {
        reveal(dictionaries::ste_dictionary_entries);
    }
}

/// Every word and phrase of the dictionary is reported when it stands alone
/// on a line: at column 1, with the first word that its entry suggests.
pub proof fn law_unapproved_words_are_reported(severity: Severity, i: int, j: int)
    requires
        0 <= i < dictionaries::ste_dictionary_entries().len(),
        0 <= j < dictionaries::ste_dictionary_entries()[i].unapproved.len(),
    ensures
        ({
            let entries = dictionaries::ste_dictionary_entries();
            let p = entries[i].unapproved[j];
            rules::phrases(
                seq![p],
                "dictionary-not-approved-word"@,
                severity,
                entries,
            ).contains(
                rules::phrase_violation(
                    "dictionary-not-approved-word"@,
                    severity,
                    p,
                    entries[i].suggestions[0],
                    1,
                    1,
                ),
            )
        }),
{
    let entries = dictionaries::ste_dictionary_entries();
    lemma_dictionary();
    assert(is_entry(entries[i]));
    let p = entries[i].unapproved[j];
    assert(is_bad(p));
    assert(!text::is_white(p[0]));
    law_listed_phrase_is_reported(
        "dictionary-not-approved-word"@,
        severity,
        entries,
        i,
        j,
    );
}

proof fn lemma_reading_plain(s: Seq<char>, i: int, j: int)
    requires
        is_plain(s),
        0 <= i <= j <= s.len(),
    ensures
        rules::reading(rules::folds(s), i, j) == s.subrange(i, j),
    decreases j,
{
    if i < j {
        lemma_reading_plain(s, i, j - 1);
        let c = s[j - 1];
        let one = seq![c];
        assert(foreign::is_ascii(one));
        assert(rules::fold(c) =~= one);
        assert(s.subrange(i, j) =~= s.subrange(i, j - 1) + one);
    } else {
        assert(s.subrange(i, j) =~= Seq::<char>::empty());
    }
}

/// No word or phrase that is not approved stands in a suggestion.
proof fn lemma_stands_not(s: Seq<char>, p: Seq<char>, i: int)
    requires
        is_good(s),
        is_bad(p),
        0 <= i < s.len(),
    ensures
        !rules::stands_at(s, rules::folds(s), rules::folded(p), i),
{
    lemma_reading_plain(p, 0, p.len() as int);
    assert(p.subrange(0, p.len() as int) =~= p);
    reveal_strlit("make sure");
    assert(is_plain(s));
    if rules::stands_at(s, rules::folds(s), rules::folded(p), i) {
        let j = choose|j: int|
            i <= j <= s.len() && #[trigger] rules::ends_at(
                s,
                rules::folds(s),
                rules::folded(p),
                i,
                j,
            );
        lemma_reading_plain(s, i, j);
        assert(s.subrange(i, j) == p);
        assert(j - i >= 5);
        assert(i == 0 || !is_letter(s[i - 1]));
        assert(j == s.len() || !is_letter(s[j]));
        assert(i == 0 && j == s.len());
        assert(s.subrange(0, s.len() as int) =~= s);
    }
}

proof fn lemma_no_columns(s: Seq<char>, p: Seq<char>, n: int)
    requires
        is_good(s),
        is_bad(p),
        n <= s.len(),
    ensures
        rules::columns_to(s, rules::folds(s), rules::folded(p), n).len() == 0,
    decreases n,
{
    if n > 0 {
        lemma_no_columns(s, p, n - 1);
        lemma_stands_not(s, p, n - 1);
    }
}

proof fn lemma_entry_is_silent(
    rule_id: Seq<char>,
    severity: Severity,
    s: Seq<char>,
    entry: EntryModel,
    n: int,
)
    requires
        is_good(s),
        is_entry(entry),
        0 <= n <= entry.unapproved.len(),
    ensures
        rules::entry_to(seq![s], rule_id, severity, entry, n).len() == 0,
    decreases n,
{
    if n > 0 {
        lemma_entry_is_silent(rule_id, severity, s, entry, n - 1);
        let p = entry.unapproved[n - 1];
        lemma_no_columns(s, p, s.len() as int);
        assert(seq![s][0] == s);
        let suggestion = rules::suggestion_of(entry);
        assert(rules::phrase_to(seq![s], rule_id, severity, p, suggestion, 0).len() == 0);
        assert(rules::phrase_to(seq![s], rule_id, severity, p, suggestion, 1).len() == 0);
    }
}

proof fn lemma_entries_are_silent(
    rule_id: Seq<char>,
    severity: Severity,
    s: Seq<char>,
    entries: Seq<EntryModel>,
    n: int,
)
    requires
        is_good(s),
        0 <= n <= entries.len(),
        forall|i: int| 0 <= i < entries.len() ==> is_entry(#[trigger] entries[i]),
    ensures
        rules::entries_to(seq![s], rule_id, severity, entries, n).len() == 0,
    decreases n,
{
    if n > 0 {
        lemma_entries_are_silent(rule_id, severity, s, entries, n - 1);
        let entry = entries[n - 1];
        lemma_entry_is_silent(rule_id, severity, s, entry, entry.unapproved.len() as int);
    }
}

/// No word that the dictionary suggests is itself reported.
pub proof fn law_suggested_words_are_approved(severity: Severity, i: int, k: int)
    requires
        0 <= i < dictionaries::ste_dictionary_entries().len(),
        0 <= k < dictionaries::ste_dictionary_entries()[i].suggestions.len(),
    ensures
        rules::phrases(
            seq![dictionaries::ste_dictionary_entries()[i].suggestions[k]],
            "dictionary-not-approved-word"@,
            severity,
            dictionaries::ste_dictionary_entries(),
        ).len() == 0,
{
    let entries = dictionaries::ste_dictionary_entries();
    lemma_dictionary();
    assert(is_entry(entries[i]));
    lemma_entries_are_silent(
        "dictionary-not-approved-word"@,
        severity,
        entries[i].suggestions[k],
        entries,
        entries.len() as int,
    );
}

// ── The sizes of the lists ─────────────────────────────────────────────────

/// An entry gives exactly one replacement, for one phrase or more.
pub open spec fn has_one_replacement(entry: EntryModel) -> bool {
    entry.suggestions.len() == 1 && entry.unapproved.len() > 0
}

/// The lists have eleven phrasal verbs, six hedging phrases, 24 marketing words
/// and 43 entries of words that are not approved. A phrasal verb is listed in
/// four forms or more. Hedging phrases and marketing words are to be deleted.
/// Every other entry gives one replacement.
pub proof fn law_list_sizes(i: int)
    ensures
        dictionaries::phrasal_verb_entries().len() == 11,
        0 <= i < 11 ==> has_one_replacement(dictionaries::phrasal_verb_entries()[i])
            && dictionaries::phrasal_verb_entries()[i].unapproved.len() >= 4,
        dictionaries::hedging_entries().len() == 1,
        dictionaries::hedging_entries()[0].unapproved.len() == 6,
        dictionaries::hedging_entries()[0].suggestions == seq!["delete"@],
        dictionaries::marketing_entries().len() == 1,
        dictionaries::marketing_entries()[0].unapproved.len() == 24,
        dictionaries::marketing_entries()[0].suggestions == seq!["delete"@],
        dictionaries::ste_dictionary_entries().len() == 43,
        0 <= i < 43 ==> has_one_replacement(dictionaries::ste_dictionary_entries()[i]),
{
    reveal(dictionaries::phrasal_verb_entries);
    reveal(dictionaries::hedging_entries);
    reveal(dictionaries::marketing_entries);
    reveal(dictionaries::ste_dictionary_entries);
    assert(dictionaries::hedging_entries()[0].suggestions =~= seq!["delete"@]);
    assert(dictionaries::marketing_entries()[0].suggestions =~= seq!["delete"@]);
}

} // verus!

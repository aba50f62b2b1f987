//! Embedded dictionary data.

use vstd::prelude::*;

use crate::lines;
use crate::types;

verus! {

/// A set of unapproved words or phrases with suggested replacements.
#[derive(Debug)]
pub struct PhraseEntry {
    pub unapproved: Vec<String>,
    pub suggestions: Vec<String>,
}

/// What an entry says.
pub struct EntryModel {
    pub unapproved: Seq<Seq<char>>,
    pub suggestions: Seq<Seq<char>>,
}

impl View for PhraseEntry {
    type V = EntryModel;

    open spec fn view(&self) -> EntryModel {
        EntryModel {
            unapproved: lines::texts(self.unapproved@),
            suggestions: lines::texts(self.suggestions@),
        }
    }
}

impl Clone for PhraseEntry {
    fn clone(&self) -> (r: Self)
        ensures
            r@ == self@,
    {
        PhraseEntry {
            unapproved: types::copy_strings(&self.unapproved),
            suggestions: types::copy_strings(&self.suggestions),
        }
    }
}

/// What a list of entries says.
pub open spec fn entry_models(v: Seq<PhraseEntry>) -> Seq<EntryModel> {
    Seq::new(v.len(), |i: int| v[i]@)
}

/// The texts of a sequence of string slices.
pub open spec fn strs(v: Seq<&str>) -> Seq<Seq<char>> {
    Seq::new(v.len(), |i: int| v[i]@)
}

/// The entry that holds these words.
pub open spec fn entry_of(unapproved: Seq<&str>, suggestions: Seq<&str>) -> EntryModel {
    EntryModel { unapproved: strs(unapproved), suggestions: strs(suggestions) }
}

/// Copies a list of words.
fn owned(v: &[&str]) -> (r: Vec<String>)
    ensures
        lines::texts(r@) == strs(v@),
{
    let mut r: Vec<String> = Vec::new();
    let mut i: usize = 0;
    while i < v.len()
        invariant
            i <= v@.len(),
            r@.len() == i,
            forall|k: int| 0 <= k < i ==> #[trigger] r@[k]@ == v@[k]@,
        decreases v@.len() - i,
    {
        r.push(v[i].to_owned());
        i += 1;
    }
    assert(lines::texts(r@) =~= strs(v@));
    r
}

fn entry(unapproved: &[&str], suggestions: &[&str]) -> (r: PhraseEntry)
    ensures
        r@ == entry_of(unapproved@, suggestions@),
{
    PhraseEntry { unapproved: owned(unapproved), suggestions: owned(suggestions) }
}

/// Phrasal verbs.
#[verifier::opaque]
pub open spec fn phrasal_verb_entries() -> Seq<EntryModel> {
    seq![
        entry_of(["carry out", "carries out", "carried out", "carrying out"]@, ["do"]@),
        entry_of(["spin up", "spins up", "spun up", "spinning up"]@, ["start"]@),
        entry_of(["spin down", "spins down", "spun down", "spinning down"]@, ["stop"]@),
        entry_of(
            ["tear down", "tears down", "tore down", "torn down", "tearing down"]@,
            ["remove"]@,
        ),
        entry_of(["reach out", "reaches out", "reached out", "reaching out"]@, ["ask"]@),
        entry_of(
            ["dive into", "dives into", "dived into", "dove into", "diving into"]@,
            ["examine"]@,
        ),
        entry_of(["kick off", "kicks off", "kicked off", "kicking off"]@, ["start"]@),
        entry_of(["roll out", "rolls out", "rolled out", "rolling out"]@, ["release"]@),
        entry_of(["ramp up", "ramps up", "ramped up", "ramping up"]@, ["increase"]@),
        entry_of(["circle back", "circles back", "circled back", "circling back"]@, ["return"]@),
        entry_of(["drill down", "drills down", "drilled down", "drilling down"]@, ["examine"]@),
    ]
}

/// Phrasal verbs.
pub fn phrasal_verbs() -> (r: Vec<PhraseEntry>)
    ensures
        entry_models(r@) == phrasal_verb_entries(),
{
    let r = vec![
        entry(&["carry out", "carries out", "carried out", "carrying out"], &["do"]),
        entry(&["spin up", "spins up", "spun up", "spinning up"], &["start"]),
        entry(&["spin down", "spins down", "spun down", "spinning down"], &["stop"]),
        entry(&["tear down", "tears down", "tore down", "torn down", "tearing down"], &["remove"]),
        entry(&["reach out", "reaches out", "reached out", "reaching out"], &["ask"]),
        entry(&["dive into", "dives into", "dived into", "dove into", "diving into"], &["examine"]),
        entry(&["kick off", "kicks off", "kicked off", "kicking off"], &["start"]),
        entry(&["roll out", "rolls out", "rolled out", "rolling out"], &["release"]),
        entry(&["ramp up", "ramps up", "ramped up", "ramping up"], &["increase"]),
        entry(&["circle back", "circles back", "circled back", "circling back"], &["return"]),
        entry(&["drill down", "drills down", "drilled down", "drilling down"], &["examine"]),
    ];
    reveal(phrasal_verb_entries);
    assert(entry_models(r@) =~= phrasal_verb_entries());
    r
}

/// Hedging phrases.
#[verifier::opaque]
pub open spec fn hedging_entries() -> Seq<EntryModel> {
    seq![
        entry_of(
            [
                "it is important to note",
                "it should be noted",
                "it is worth noting",
                "please note that",
                "as mentioned",
                "as noted above",
            ]@,
            ["delete"]@,
        ),
    ]
}

/// Hedging phrases.
pub fn hedging() -> (r: Vec<PhraseEntry>)
    ensures
        entry_models(r@) == hedging_entries(),
{
    let r = vec![
        entry(
            &[
                "it is important to note",
                "it should be noted",
                "it is worth noting",
                "please note that",
                "as mentioned",
                "as noted above",
            ],
            &["delete"],
        ),
    ];
    reveal(hedging_entries);
    assert(entry_models(r@) =~= hedging_entries());
    r
}

/// Marketing language.
#[verifier::opaque]
pub open spec fn marketing_entries() -> Seq<EntryModel> {
    seq![
        entry_of(
            [
                "seamless",
                "seamlessly",
                "robust",
                "powerful",
                "cutting-edge",
                "effortless",
                "effortlessly",
                "world-class",
                "next-generation",
                "revolutionary",
                "blazing",
                "lightning-fast",
                "elegant",
                "delightful",
                "turnkey",
                "best-in-class",
                "state-of-the-art",
                "game-changing",
                "battle-tested",
                "enterprise-grade",
                "supercharge",
                "unleash",
                "empower",
                "empowers",
            ]@,
            ["delete"]@,
        ),
    ]
}

/// Marketing language.
pub fn marketing() -> (r: Vec<PhraseEntry>)
    ensures
        entry_models(r@) == marketing_entries(),
{
    let r = vec![
        entry(
            &[
                "seamless",
                "seamlessly",
                "robust",
                "powerful",
                "cutting-edge",
                "effortless",
                "effortlessly",
                "world-class",
                "next-generation",
                "revolutionary",
                "blazing",
                "lightning-fast",
                "elegant",
                "delightful",
                "turnkey",
                "best-in-class",
                "state-of-the-art",
                "game-changing",
                "battle-tested",
                "enterprise-grade",
                "supercharge",
                "unleash",
                "empower",
                "empowers",
            ],
            &["delete"],
        ),
    ];
    reveal(marketing_entries);
    assert(entry_models(r@) =~= marketing_entries());
    r
}

/// The words that ASD-STE100 does not approve.
#[verifier::opaque]
pub open spec fn ste_dictionary_entries() -> Seq<EntryModel> {
    seq![
        entry_of(["initiate", "initiates", "initiated", "initiating"]@, ["start"]@),
        entry_of(["commence", "commences", "commenced", "commencing"]@, ["start"]@),
        entry_of(["utilize", "utilizes", "utilized", "utilizing"]@, ["use"]@),
        entry_of(["utilise", "utilises", "utilised", "utilising"]@, ["use"]@),
        entry_of(["ensure", "ensures", "ensured", "ensuring"]@, ["make sure"]@),
        entry_of(["terminate", "terminates", "terminated", "terminating"]@, ["stop"]@),
        entry_of(["facilitate", "facilitates", "facilitated", "facilitating"]@, ["help"]@),
        entry_of(["locate", "locates", "located", "locating"]@, ["find"]@),
        entry_of(["indicate", "indicates", "indicated", "indicating"]@, ["show"]@),
        entry_of(["require", "requires", "required", "requiring"]@, ["need"]@),
        entry_of(["purchase", "purchases", "purchased", "purchasing"]@, ["buy"]@),
        entry_of(["leverage", "leverages", "leveraged", "leveraging"]@, ["use"]@),
        entry_of(["acquire", "acquires", "acquired", "acquiring"]@, ["get"]@),
        entry_of(["demonstrate", "demonstrates", "demonstrated", "demonstrating"]@, ["show"]@),
        entry_of(["originate", "originates", "originated", "originating"]@, ["start"]@),
        entry_of(["perform", "performs", "performed", "performing"]@, ["do"]@),
        entry_of(["obtain", "obtains", "obtained", "obtaining"]@, ["get"]@),
        entry_of(["attempt", "attempts", "attempted", "attempting"]@, ["try"]@),
        entry_of(["assist", "assists", "assisted", "assisting"]@, ["help"]@),
        entry_of(["permit", "permits", "permited", "permiting"]@, ["let"]@),
        entry_of(["modify", "modifies", "modified", "modifying"]@, ["change"]@),
        entry_of(["begin", "begins", "began", "beginning"]@, ["start"]@),
        entry_of(["approximately"]@, ["about"]@),
        entry_of(["sufficient"]@, ["enough"]@),
        entry_of(["subsequent", "subsequently"]@, ["next"]@),
        entry_of(["prior"]@, ["before"]@),
        entry_of(["additional", "additionally"]@, ["more"]@),
        entry_of(["furthermore", "moreover"]@, ["also"]@),
        entry_of(["comprehensive", "comprehensively"]@, ["complete"]@),
        entry_of(["utilization"]@, ["use"]@),
        entry_of(["aforementioned"]@, ["this"]@),
        entry_of(["whilst"]@, ["while"]@),
        entry_of(["amongst"]@, ["among"]@),
        entry_of(["numerous", "myriad", "plethora"]@, ["many"]@),
        entry_of(["prior to"]@, ["before"]@),
        entry_of(["subsequent to"]@, ["after"]@),
        entry_of(["in order to"]@, ["to"]@),
        entry_of(["a variety of"]@, ["some"]@),
        entry_of(["in the event that"]@, ["if"]@),
        entry_of(["due to the fact that"]@, ["because"]@),
        entry_of(["is able to", "are able to"]@, ["can"]@),
        entry_of(["make use of", "makes use of"]@, ["use"]@),
        entry_of(["provenance"]@, ["origin"]@),
    ]
}

/// The words that ASD-STE100 does not approve.
pub fn ste_dictionary() -> (r: Vec<PhraseEntry>)
    ensures
        entry_models(r@) == ste_dictionary_entries(),
{
    let r = vec![
        entry(&["initiate", "initiates", "initiated", "initiating"], &["start"]),
        entry(&["commence", "commences", "commenced", "commencing"], &["start"]),
        entry(&["utilize", "utilizes", "utilized", "utilizing"], &["use"]),
        entry(&["utilise", "utilises", "utilised", "utilising"], &["use"]),
        entry(&["ensure", "ensures", "ensured", "ensuring"], &["make sure"]),
        entry(&["terminate", "terminates", "terminated", "terminating"], &["stop"]),
        entry(&["facilitate", "facilitates", "facilitated", "facilitating"], &["help"]),
        entry(&["locate", "locates", "located", "locating"], &["find"]),
        entry(&["indicate", "indicates", "indicated", "indicating"], &["show"]),
        entry(&["require", "requires", "required", "requiring"], &["need"]),
        entry(&["purchase", "purchases", "purchased", "purchasing"], &["buy"]),
        entry(&["leverage", "leverages", "leveraged", "leveraging"], &["use"]),
        entry(&["acquire", "acquires", "acquired", "acquiring"], &["get"]),
        entry(&["demonstrate", "demonstrates", "demonstrated", "demonstrating"], &["show"]),
        entry(&["originate", "originates", "originated", "originating"], &["start"]),
        entry(&["perform", "performs", "performed", "performing"], &["do"]),
        entry(&["obtain", "obtains", "obtained", "obtaining"], &["get"]),
        entry(&["attempt", "attempts", "attempted", "attempting"], &["try"]),
        entry(&["assist", "assists", "assisted", "assisting"], &["help"]),
        entry(&["permit", "permits", "permited", "permiting"], &["let"]),
        entry(&["modify", "modifies", "modified", "modifying"], &["change"]),
        entry(&["begin", "begins", "began", "beginning"], &["start"]),
        entry(&["approximately"], &["about"]),
        entry(&["sufficient"], &["enough"]),
        entry(&["subsequent", "subsequently"], &["next"]),
        entry(&["prior"], &["before"]),
        entry(&["additional", "additionally"], &["more"]),
        entry(&["furthermore", "moreover"], &["also"]),
        entry(&["comprehensive", "comprehensively"], &["complete"]),
        entry(&["utilization"], &["use"]),
        entry(&["aforementioned"], &["this"]),
        entry(&["whilst"], &["while"]),
        entry(&["amongst"], &["among"]),
        entry(&["numerous", "myriad", "plethora"], &["many"]),
        entry(&["prior to"], &["before"]),
        entry(&["subsequent to"], &["after"]),
        entry(&["in order to"], &["to"]),
        entry(&["a variety of"], &["some"]),
        entry(&["in the event that"], &["if"]),
        entry(&["due to the fact that"], &["because"]),
        entry(&["is able to", "are able to"], &["can"]),
        entry(&["make use of", "makes use of"], &["use"]),
        entry(&["provenance"], &["origin"]),
    ];
    reveal(ste_dictionary_entries);
    assert(entry_models(r@) =~= ste_dictionary_entries());
    r
}

} // verus!

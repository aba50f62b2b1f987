//! Calls into other crates and into parts of the standard library that come
//! without a specification. Every contract in this module is believed, not
//! proved. What each call is believed to do stands above it.

use vstd::prelude::*;

use crate::lines;
use crate::text;

verus! {

// ── Case and character classes ─────────────────────────────────────────────

/// Text made of ASCII characters only.
pub open spec fn is_ascii(s: Seq<char>) -> bool {
    forall|i: int| 0 <= i < s.len() ==> #[trigger] s[i] <= '\u{7f}'
}

/// The lower-case form of an ASCII character.
pub open spec fn ascii_lower(c: char) -> char {
    if 'A' <= c <= 'Z' {
        (c as u32 + 32) as char
    } else {
        c
    }
}

/// What `str::to_lowercase` makes of a text.
pub uninterp spec fn lowercase_of(s: Seq<char>) -> Seq<char>;

/// `str::to_lowercase`. The result depends on the text alone. Text made of
/// ASCII characters only is lowered character by character.
#[verifier::external_body]
pub(crate) fn lowercase(s: &str) -> (r: String)
    ensures
        r@ == lowercase_of(s@),
        is_ascii(s@) ==> r@ == Seq::new(s@.len(), |i: int| ascii_lower(s@[i])),
{
    s.to_lowercase()
}

/// What `char::is_alphanumeric` says of a character.
pub uninterp spec fn is_alphanumeric(c: char) -> bool;

/// `char::is_alphanumeric`. The result depends on the character alone. Of
/// the ASCII characters, the letters and the digits have the property.
#[verifier::external_body]
pub(crate) fn alphanumeric(c: char) -> (r: bool)
    ensures
        r == is_alphanumeric(c),
        c <= '\u{7f}' ==> r == text::is_ascii_alnum(c),
{
    c.is_alphanumeric()
}

// ── Regular expressions ────────────────────────────────────────────────────

/// Contractions such as `don't`, `we're` and `I'd`, in any case.
pub const CONTRACTION_RE: &'static str = r"(?i)\b\w+['\u{2019}](?:t|re|ve|ll|d|m)\b";

/// Contractions with `'s`, such as `it's` and `there's`, in any case.
pub const CONTRACTION_S_RE: &'static str =
    r"(?i)\b(?:it|he|she|that|what|who|there|here|let|one|where|how|everyone|everybody|something|nothing|somebody|nobody)['\u{2019}]s\b";

/// A semicolon.
pub const SEMICOLON_RE: &'static str = ";";

/// Matches with their byte offsets, as integers and texts.
pub open spec fn matches_of(v: Seq<(usize, String)>) -> Seq<(nat, Seq<char>)> {
    Seq::new(v.len(), |i: int| (v[i].0 as nat, v[i].1@))
}

/// `t` stands in `s` at byte offset `offset`, and is not empty.
pub open spec fn stands_at_byte(s: Seq<char>, offset: int, t: Seq<char>) -> bool {
    t.len() > 0 && exists|i: int|
        #[trigger] text::occurs_at(s, t, i) && text::byte_offset(s, i) == offset
}

/// Where `c` stands in the first `n` characters of `s`.
pub open spec fn places_of(s: Seq<char>, c: char, n: int) -> Seq<(nat, Seq<char>)>
    decreases n,
{
    if n <= 0 {
        Seq::empty()
    } else if s[n - 1] == c {
        places_of(s, c, n - 1).push((text::byte_offset(s, n - 1), seq![c]))
    } else {
        places_of(s, c, n - 1)
    }
}

/// The successive matches of a pattern in a text: the byte offset of each,
/// and what it matched.
pub uninterp spec fn regex_matches(pattern: Seq<char>, haystack: Seq<char>) -> Seq<
    (nat, Seq<char>),
>;

/// `Regex::new` and `Regex::find_iter` of the crate `regex`, with the offset
/// and the text of each match. Only patterns that are known to compile and
/// to match no empty text may be given. The matches depend on the pattern
/// and the text alone. Each stands in the text at its offset. Those of a
/// single semicolon are the semicolons of the text.
#[verifier::external_body]
pub(crate) fn find_all(pattern: &str, haystack: &str) -> (r: Vec<(usize, String)>)
    requires
        pattern@ == CONTRACTION_RE@ || pattern@ == CONTRACTION_S_RE@ || pattern@ == SEMICOLON_RE@,
    ensures
        matches_of(r@) == regex_matches(pattern@, haystack@),
        forall|k: int|
            0 <= k < r@.len() ==> stands_at_byte(
                haystack@,
                (#[trigger] r@[k]).0 as int,
                r@[k].1@,
            ),
        pattern@ == SEMICOLON_RE@ ==> matches_of(r@) == places_of(
            haystack@,
            ';',
            haystack@.len() as int,
        ),
{
    let re = regex::Regex::new(pattern).unwrap();
    re.find_iter(haystack).map(|m| (m.start(), m.as_str().to_string())).collect()
}

// ── Line diffs ─────────────────────────────────────────────────────────────

/// What one step of a diff does with a stretch of lines.
#[derive(Debug, Clone, Copy, PartialEq, Eq, Structural)]
pub enum ChangeTag {
    Equal,
    Delete,
    Insert,
    Replace,
}

/// The steps of a diff: what each does, and the range of lines of the new
/// text that it covers, counted from zero.
pub open spec fn steps_of(v: Seq<(ChangeTag, usize, usize)>) -> Seq<(ChangeTag, nat, nat)> {
    Seq::new(v.len(), |i: int| (v[i].0, v[i].1 as nat, v[i].2 as nat))
}

/// A step inserts or replaces line `n` of the new text, counted from zero.
pub open spec fn is_covered(v: Seq<(ChangeTag, usize, usize)>, n: int) -> bool {
    exists|k: int|
        0 <= k < v.len() && ((#[trigger] v[k]).0 == ChangeTag::Insert || v[k].0
            == ChangeTag::Replace) && v[k].1 <= n < v[k].2
}

/// The steps that lead from one text to another, line by line.
pub uninterp spec fn line_diff(old_text: Seq<char>, new_text: Seq<char>) -> Seq<
    (ChangeTag, nat, nat),
>;

/// `TextDiff::from_lines` and `TextDiff::ops` of the crate `similar`, with
/// the tag and the new range of each operation. The steps depend on the two
/// texts alone. A text has no more lines than bytes, and each range lies
/// within the lines of the new text. From an empty text to one that is not,
/// a single insertion covers all lines. Between equal texts nothing is
/// inserted or replaced. A line that is neither inserted nor replaced is
/// equal to a line of the old text. The last is claimed only of texts without
/// carriage returns, because a lone one ends a line for this crate.
#[verifier::external_body]
pub(crate) fn diff_lines(old_text: &str, new_text: &str) -> (r: Vec<(ChangeTag, usize, usize)>)
    ensures
        steps_of(r@) == line_diff(old_text@, new_text@),
        forall|k: int|
            0 <= k < r@.len() ==> (#[trigger] r@[k]).1 <= r@[k].2 <= text::byte_len(new_text@),
        old_text@.len() == 0 && new_text@.len() > 0 ==> r@.len() == 1 && r@[0].0
            == ChangeTag::Insert && r@[0].1 == 0 && r@[0].2 >= lines::lines(new_text@).len(),
        old_text@ == new_text@ ==> forall|k: int|
            0 <= k < r@.len() ==> (#[trigger] r@[k]).0 != ChangeTag::Insert && r@[k].0
                != ChangeTag::Replace,
        !old_text@.contains('\r') && !new_text@.contains('\r') ==> forall|n: int|
            0 <= n < lines::lines(new_text@).len() && !#[trigger] is_covered(r@, n)
                ==> lines::lines(old_text@).contains(lines::lines(new_text@)[n]),
{
    let diff = similar::TextDiff::from_lines(old_text, new_text);
    let tag = |tag| match tag {
        similar::DiffTag::Equal => ChangeTag::Equal,
        similar::DiffTag::Delete => ChangeTag::Delete,
        similar::DiffTag::Insert => ChangeTag::Insert,
        similar::DiffTag::Replace => ChangeTag::Replace,
    };
    diff.ops().iter().map(|op| (tag(op.tag()), op.new_range().start, op.new_range().end)).collect()
}

// ── Hashes ─────────────────────────────────────────────────────────────────

/// The FNV-1a hash of the first `n` bytes.
pub open spec fn fnv_to(bytes: Seq<u8>, n: int) -> u64
    decreases n,
{
    if n <= 0 {
        0xcbf29ce484222325
    } else {
        let h = fnv_to(bytes, n - 1) ^ (bytes[n - 1] as u64);
        ((h * 0x100000001b3) % 0x1_0000_0000_0000_0000) as u64
    }
}

/// `FnvHasher::default`, `write` and `finish` of the crate `fnv`: the 64-bit
/// FNV-1a hash of the bytes.
#[verifier::external_body]
pub(crate) fn fnv_hash(bytes: &[u8]) -> (r: u64)
    ensures
        r == fnv_to(bytes@, bytes@.len() as int),
{
    let mut hasher = fnv::FnvHasher::default();
    std::hash::Hasher::write(&mut hasher, bytes);
    std::hash::Hasher::finish(&hasher)
}

// ── JSON and TOML ──────────────────────────────────────────────────────────

/// A string that may be missing, in a document that may be malformed.
pub open spec fn field_of(v: Option<Option<String>>) -> Option<Option<Seq<char>>> {
    match v {
        Some(Some(s)) => Some(Some(s@)),
        Some(None) => Some(None),
        None => None,
    }
}

/// The string that a JSON text holds under a key, when it is an object that
/// has the key with a string. Nothing at all when the text is not JSON.
pub uninterp spec fn json_field_of(text: Seq<char>, key: Seq<char>) -> Option<Option<Seq<char>>>;

/// `serde_json::from_str`, `Value::get` and `Value::as_str` of the crate
/// `serde_json`. The result depends on the text and the key alone.
#[verifier::external_body]
pub(crate) fn json_field(text: &str, key: &str) -> (r: Option<Option<String>>)
    ensures
        field_of(r) == json_field_of(text@, key@),
{
    let value: serde_json::Value = serde_json::from_str(text).ok()?;
    Some(value.get(key).and_then(|v| v.as_str()).map(|s| s.to_string()))
}

/// A string that may be missing.
pub open spec fn part_of(v: Option<String>) -> Option<Seq<char>> {
    match v {
        Some(s) => Some(s@),
        None => None,
    }
}

/// A list of strings that may be missing.
pub open spec fn elements_of(v: Option<Vec<String>>) -> Option<Seq<Seq<char>>> {
    match v {
        Some(s) => Some(lines::texts(s@)),
        None => None,
    }
}

/// What a JSON text holds under a key, printed, when it is an object that has
/// the key.
pub uninterp spec fn json_part_of(text: Seq<char>, key: Seq<char>) -> Option<Seq<char>>;

/// `serde_json::from_str`, `Value::get` and the text that `Value` is printed
/// as, of the crate `serde_json`. The result depends on the text and the key
/// alone.
#[verifier::external_body]
pub(crate) fn json_part(text: &str, key: &str) -> (r: Option<String>)
    ensures
        part_of(r) == json_part_of(text@, key@),
{
    let value: serde_json::Value = serde_json::from_str(text).ok()?;
    value.get(key).map(|v| v.to_string())
}

/// The elements of the array that a JSON text holds under a key, each
/// printed, when it is an object that has the key with an array.
pub uninterp spec fn json_elements_of(text: Seq<char>, key: Seq<char>) -> Option<Seq<Seq<char>>>;

/// `serde_json::from_str`, `Value::get`, `Value::as_array` and the texts that
/// the elements are printed as, of the crate `serde_json`. The result depends
/// on the text and the key alone.
#[verifier::external_body]
pub(crate) fn json_elements(text: &str, key: &str) -> (r: Option<Vec<String>>)
    ensures
        elements_of(r) == json_elements_of(text@, key@),
{
    let value: serde_json::Value = serde_json::from_str(text).ok()?;
    let elements = value.get(key)?.as_array()?;
    Some(elements.iter().map(|e| e.to_string()).collect())
}

/// The Boolean that a JSON text holds under a key, when it is an object that
/// has the key with a Boolean.
pub uninterp spec fn json_flag_of(text: Seq<char>, key: Seq<char>) -> Option<bool>;

/// `serde_json::from_str`, `Value::get` and `Value::as_bool` of the crate
/// `serde_json`. The result depends on the text and the key alone.
#[verifier::external_body]
pub(crate) fn json_flag(text: &str, key: &str) -> (r: Option<bool>)
    ensures
        r == json_flag_of(text@, key@),
{
    let value: serde_json::Value = serde_json::from_str(text).ok()?;
    value.get(key)?.as_bool()
}

/// The string that a JSON text starts with, when it is an array whose first
/// element is a string.
pub uninterp spec fn json_first_of(text: Seq<char>) -> Option<Seq<char>>;

/// `serde_json::from_str`, `Value::get` at index zero and `Value::as_str` of
/// the crate `serde_json`. The result depends on the text alone.
#[verifier::external_body]
pub(crate) fn json_first(text: &str) -> (r: Option<String>)
    ensures
        part_of(r) == json_first_of(text@),
{
    let value: serde_json::Value = serde_json::from_str(text).ok()?;
    value.get(0)?.as_str().map(|s| s.to_string())
}

/// The JSON array of two strings, printed.
pub uninterp spec fn json_pair_of(a: Seq<char>, b: Seq<char>) -> Seq<char>;

/// The text that an array `Value` of two strings is printed as, of the crate
/// `serde_json`. The result depends on the strings alone. Read again, it is
/// an array that starts with the first string.
#[verifier::external_body]
pub(crate) fn json_pair(a: &str, b: &str) -> (r: String)
    ensures
        r@ == json_pair_of(a@, b@),
        json_first_of(r@) == Some(a@),
{
    serde_json::Value::Array(vec![serde_json::Value::from(a), serde_json::Value::from(b)]).to_string()
}

/// Each of `elements` is one of the elements that `text` holds under `key`,
/// or an array of two strings, printed.
pub open spec fn are_printed(text: Seq<char>, key: Seq<char>, elements: Seq<Seq<char>>) -> bool {
    forall|i: int|
        0 <= i < elements.len() ==> {
            ||| json_elements_of(text, key) matches Some(v) && v.contains(#[trigger] elements[i])
            ||| exists|a: Seq<char>, b: Seq<char>| elements[i] == json_pair_of(a, b)
        }
}

/// A text that was printed as a part of another one.
pub open spec fn was_printed(text: Seq<char>) -> bool {
    exists|t: Seq<char>, k: Seq<char>| #[trigger] json_part_of(t, k) == Some(text)
}

/// A JSON object: one that holds a key, or the empty one as it is printed.
pub open spec fn is_object(text: Seq<char>) -> bool {
    text == "{}"@ || exists|k: Seq<char>| (#[trigger] json_part_of(text, k)) is Some
}

/// A JSON object whose value under a key is replaced by an array of the given
/// elements, printed. Nothing when the text is no object or an element is not
/// JSON.
pub uninterp spec fn json_replaced_of(
    text: Seq<char>,
    key: Seq<char>,
    elements: Seq<Seq<char>>,
) -> Option<Seq<char>>;

/// `serde_json::from_str`, `Value::as_object_mut`, `Map::insert` and the text
/// that `Value` is printed as, of the crate `serde_json`. The result depends
/// on the text, the key and the elements alone. A printed value is read as
/// the same value again, because floating-point numbers are read exactly. So,
/// when the elements were printed before, the new text holds them under the
/// key. It holds what the old text held under every other key. Replacing them
/// once more changes nothing. With such elements there is a new text for every
/// object, and, of the texts that were printed before, for objects alone.
#[verifier::external_body]
pub(crate) fn json_replaced(text: &str, key: &str, elements: &Vec<String>) -> (r: Option<String>)
    ensures
        part_of(r) == json_replaced_of(text@, key@, lines::texts(elements@)),
        r matches Some(s) ==> are_printed(text@, key@, lines::texts(elements@)) ==> {
            &&& json_elements_of(s@, key@) == Some(lines::texts(elements@))
            &&& forall|k: Seq<char>|
                k != key@ ==> #[trigger] json_part_of(s@, k) == json_part_of(text@, k)
            &&& json_replaced_of(s@, key@, lines::texts(elements@)) == Some(s@)
        },
        are_printed(text@, key@, lines::texts(elements@)) && is_object(text@) ==> r is Some,
        r is Some && was_printed(text@) ==> is_object(text@),
{
    let mut value: serde_json::Value = serde_json::from_str(text).ok()?;
    let array: Option<Vec<serde_json::Value>> =
        elements.iter().map(|e| serde_json::from_str(e).ok()).collect();
    value.as_object_mut()?.insert(key.to_string(), serde_json::Value::Array(array?));
    Some(value.to_string())
}

/// The string that a TOML text holds under a key of a table, when there is
/// one. Nothing at all when the text is not TOML.
pub uninterp spec fn toml_field_of(text: Seq<char>, table: Seq<char>, key: Seq<char>) -> Option<
    Option<Seq<char>>,
>;

/// `toml::Value::from_str`, `Value::get` and `Value::as_str` of the crate
/// `toml`. The result depends on the text and the two names alone.
#[verifier::external_body]
pub(crate) fn toml_field(text: &str, table: &str, key: &str) -> (r: Option<Option<String>>)
    ensures
        field_of(r) == toml_field_of(text@, table@, key@),
{
    let value: toml::Value = text.parse().ok()?;
    let found = value.get(table).and_then(|t| t.get(key)).and_then(|v| v.as_str());
    Some(found.map(|s| s.to_string()))
}

} // verus!

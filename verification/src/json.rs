//! JSON texts, read and written by `serde_json`.

use vstd::prelude::*;

verus! {

/// The text at a key of a JSON object, where the text is one and has a string
/// there.
pub uninterp spec fn string_at(text: Seq<char>, key: Seq<char>) -> Option<Seq<char>>;

/// The strings of a JSON array, where the text is one of strings alone.
pub uninterp spec fn strings_in(text: Seq<char>) -> Option<Seq<Seq<char>>>;

/// The JSON array of some strings.
pub uninterp spec fn strings_text(items: Seq<Seq<char>>) -> Seq<char>;

/// `serde_json::from_str` reads a text as a JSON value, of which `get` and
/// `as_str` take the string at a key. The result depends on the text and the key
/// alone; it is nothing where the text is no JSON, has no such key, or has
/// something else than a string there.
#[verifier::external_body]
pub(crate) fn string_field(text: &str, key: &str) -> (r: Option<String>)
    ensures
        r.deep_view() == string_at(text@, key@),
{
    serde_json::from_str::<serde_json::Value>(text).ok().and_then(
        |v| v.get(key).and_then(|f| f.as_str()).map(|s| s.to_owned()),
    )
}

/// `serde_json::from_str` reads a text as an array of strings. The result depends
/// on the text alone.
#[verifier::external_body]
pub(crate) fn read_strings(text: &str) -> (r: Option<Vec<String>>)
    ensures
        r.deep_view() == strings_in(text@),
{
    serde_json::from_str::<Vec<String>>(text).ok()
}

/// `serde_json::to_string` writes strings as an array, which always succeeds.
/// The text depends on the strings alone, and reading it with
/// `serde_json::from_str` gives them back.
#[verifier::external_body]
pub(crate) fn write_strings(items: &[String]) -> (r: String)
    ensures
        r@ == strings_text(items.deep_view()),
        strings_in(r@) == Some(items.deep_view()),
{
    serde_json::to_string(items).unwrap_or_default()
}

} // verus!

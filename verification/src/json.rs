//! The JSON documents the launcher reads and rewrites, as `serde_json` handles them.
//!
//! Parsing, looking a value up and printing belong to `serde_json`; each call below
//! names what it gives back, and the library's own decisions are made on those names.

use vstd::prelude::*;
use vstd::string::*;
use crate::text::opt_view;

verus! {

#[verifier::external_type_specification]
#[verifier::external_body]
pub struct ExJsonValue(serde_json::Value);

/// The string at the top-level key `key` of the JSON text `text`, as `serde_json`
/// reads it; `None` when the text does not parse, or that entry is missing or is not
/// a string.
pub uninterp spec fn json_string_field_of(text: Seq<char>, key: Seq<char>) -> Option<Seq<char>>;

/// The message of the error `serde_json::from_str` gives on `text`; `None` when the
/// text parses.
pub uninterp spec fn json_parse_error(text: Seq<char>) -> Option<Seq<char>>;

/// The document `serde_json::from_str` reads from `text` when it parses.
pub uninterp spec fn json_document(text: Seq<char>) -> serde_json::Value;

/// The entries of the array at the JSON pointer `/dsh/profile/bundles` of `doc`;
/// `None` when no array stands there.
pub uninterp spec fn json_bundles(doc: serde_json::Value) -> Option<Seq<serde_json::Value>>;

/// `Value::as_str`: the text of a JSON string, `None` for any other value.
pub uninterp spec fn json_str(v: serde_json::Value) -> Option<Seq<char>>;

/// The entries of the top-level `"dependencies"` object of `doc`, by key (none when
/// there is no such object).
pub uninterp spec fn json_dependencies(doc: serde_json::Value) -> Map<Seq<char>, serde_json::Value>;

/// `doc` with the array at `/dsh/profile/bundles` and the top-level `"dependencies"`
/// object emptied, where they stand: everything of the document but those two.
pub uninterp spec fn json_rest(doc: serde_json::Value) -> serde_json::Value;

/// `serde_json::to_string_pretty` of `doc`.
pub uninterp spec fn json_pretty(doc: serde_json::Value) -> Seq<char>;

/// `serde_json::from_str::<Value>` on `text`, then the top-level entry `key`
/// (`Value::get`) when it is a string (`Value::as_str`). What comes back depends on
/// the two texts alone; it is named here, not described.
#[verifier::external_body]
pub(crate) fn json_string_field(text: &str, key: &str) -> (r: Option<String>)
    ensures
        opt_view(r) == json_string_field_of(text@, key@),
{
    serde_json::from_str::<serde_json::Value>(text).ok()?.get(key)?.as_str().map(str::to_string)
}

/// `serde_json::from_str::<Value>`: the document, or the error's message. Which
/// texts parse, and to what, is named, not described.
#[verifier::external_body]
pub(crate) fn parse_json(text: &str) -> (r: Result<serde_json::Value, String>)
    ensures
        match r {
            Ok(doc) => json_parse_error(text@) is None && doc == json_document(text@),
            Err(message) => json_parse_error(text@) == Some(message@),
        },
{
    match serde_json::from_str::<serde_json::Value>(text) {
        Ok(doc) => Ok(doc),
        Err(error) => Err(error.to_string()),
    }
}

/// `Value::pointer("/dsh/profile/bundles")`, `Value::as_array`, and `Value::as_str`
/// on each entry.
#[verifier::external_body]
pub(crate) fn bundle_entries(doc: &serde_json::Value) -> (r: Option<Vec<Option<String>>>)
    ensures
        match r {
            Some(v) => json_bundles(*doc) is Some && v@.map_values(|e: Option<String>| opt_view(e))
                == json_bundles(*doc)->Some_0.map_values(|x: serde_json::Value| json_str(x)),
            None => json_bundles(*doc) is None,
        },
{
    let list = doc.pointer("/dsh/profile/bundles")?.as_array()?;
    Some(list.iter().map(|entry| entry.as_str().map(str::to_string)).collect())
}

/// `Value::pointer_mut("/dsh/profile/bundles")`, `Value::as_array_mut`, then
/// `Vec::remove(index)`: the entry at `index` leaves the array, the others keep
/// their order, and nothing else of the document changes.
#[verifier::external_body]
pub(crate) fn remove_bundle(doc: &mut serde_json::Value, index: usize)
    requires
        json_bundles(*old(doc)) is Some,
        index < json_bundles(*old(doc))->Some_0.len(),
    ensures
        json_bundles(*final(doc)) == Some(json_bundles(*old(doc))->Some_0.remove(index as int)),
        json_dependencies(*final(doc)) == json_dependencies(*old(doc)),
        json_rest(*final(doc)) == json_rest(*old(doc)),
{
    if let Some(list) = doc.pointer_mut("/dsh/profile/bundles").and_then(serde_json::Value::as_array_mut) {
        list.remove(index);
    }
}

/// `Value::get_mut("dependencies")`, `Value::as_object_mut`, then `Map::remove(name)`:
/// the entry `name` leaves the top-level `"dependencies"` object, and nothing else of
/// the document changes.
#[verifier::external_body]
pub(crate) fn remove_dependency(doc: &mut serde_json::Value, name: &str)
    ensures
        json_dependencies(*final(doc)) == json_dependencies(*old(doc)).remove(name@),
        json_bundles(*final(doc)) == json_bundles(*old(doc)),
        json_rest(*final(doc)) == json_rest(*old(doc)),
{
    if let Some(map) = doc.get_mut("dependencies").and_then(serde_json::Value::as_object_mut) {
        map.remove(name);
    }
}

/// `serde_json::to_string_pretty`. Printing a `Value` does not fail: its maps are
/// keyed by strings and its `Serialize` impl raises no error of its own; the error
/// arm only converts the crate's result type.
#[verifier::external_body]
pub(crate) fn pretty_json(doc: &serde_json::Value) -> (r: Result<String, String>)
    ensures
        r is Ok,
        r->Ok_0@ == json_pretty(*doc),
{
    match serde_json::to_string_pretty(doc) {
        Ok(t) => Ok(t),
        Err(error) => Err(error.to_string()),
    }
}

} // verus!

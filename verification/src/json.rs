//! The JSON text of a sampled context, written and read back by the
//! `serde_json` crate.
//!
//! Nothing here is verified. What the crate writes and accepts is not
//! restated: each of the two calls has a name for its result, and the
//! contracts say only that the call returns what the name stands for.

use crate::context::Context;
use crate::key::Key;
use std::collections::BTreeMap;
use vstd::prelude::*;

verus! {

/// The characters of a text that may be missing.
pub open spec fn optional_text(text: Option<String>) -> Option<Seq<char>> {
    match text {
        Some(text) => Some(text@),
        None => None,
    }
}

/// The mapping of a context that may be missing.
pub open spec fn optional_mapping(context: Option<Context>) -> Option<Map<Seq<char>, Seq<char>>> {
    match context {
        Some(context) => Some(context@),
        None => None,
    }
}

/// What `serde_json::to_string_pretty` writes for a map from strings to
/// strings that is ordered by key and holds the given entries, or nothing
/// where it fails.
pub uninterp spec fn json_object_text(entries: Map<Seq<char>, Seq<char>>) -> Option<Seq<char>>;

/// What `serde_json::from_str` reads from `text` as a map from strings to
/// strings, or nothing where it rejects the text.
pub uninterp spec fn json_text_fields(text: Seq<char>) -> Option<Map<Seq<char>, Seq<char>>>;

/// Calls `serde_json::to_string_pretty` on the entries of the context, put
/// into a map ordered by key.
///
/// Assumed: the same entries always give the same text, in whatever order
/// the context holds them.
#[verifier::external_body]
pub(crate) fn write_json_object(sample: &Context) -> (r: Option<String>)
    ensures
        optional_text(r) == json_object_text(sample@),
{
    let map: BTreeMap<&str, &str> =
        sample.entries.iter().map(|e| (e.0.0.as_str(), e.1.0.as_str())).collect();
    serde_json::to_string_pretty(&map).ok()
}

/// Calls `serde_json::from_str` for a map from strings to strings and hands
/// out its entries as a context, in the order of their keys.
///
/// Assumed: the same text always gives the same entries, or is always
/// rejected. The entries come out of a map, so that no key occurs twice.
#[verifier::external_body]
pub(crate) fn read_json_fields(text: &str) -> (r: Option<Context>)
    ensures
        optional_mapping(r) == json_text_fields(text@),
{
    match serde_json::from_str::<BTreeMap<String, String>>(text) {
        Ok(map) => Some(Context { entries: map.into_iter().map(|(k, v)| (Key(k), Key(v))).collect() }),
        Err(_) => None,
    }
}

} // verus!

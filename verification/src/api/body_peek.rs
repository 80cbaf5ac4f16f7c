//! What a request body asks for.
use vstd::prelude::*;
use vstd::string::*;

use crate::api::json::{json_document, parse_json, Json};
use crate::text::option_text;

verus! {

broadcast use vstd::string::group_string_axioms;

/// The model that a request document names.
pub fn model_of(doc: &Json) -> (r: Option<String>)
    ensures
        option_text(r) == doc@.text_at("model"@),
{
    match doc.text_at("model") {
        Some(s) => Some(s.clone()),
        None => None,
    }
}

/// The model that a request body names: the string `model` at the top of a
/// JSON document.
pub fn extract_model(body: &[u8]) -> (r: Option<String>)
    ensures
        option_text(r) == (match json_document(body@) {
            Some(doc) => doc.text_at("model"@),
            None => None,
        }),
{
    match parse_json(body) {
        Some(doc) => model_of(&doc),
        None => None,
    }
}

} // verus!

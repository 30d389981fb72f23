//! JSON documents in compact form, by way of `serde_json`.
//!
//! A document is parsed into a `serde_json::Value` and written back without
//! insignificant whitespace. What the parser accepts, and what the value is
//! written as, is `serde_json`'s business: both are named here and not
//! spelled out.

use vstd::prelude::*;

verus! {

/// A JSON value of `serde_json`. Nothing inside it is visible to proofs.
#[verifier::external_type_specification]
#[verifier::external_body]
pub struct ExValue(serde_json::Value);

/// The error of `serde_json`. Nothing inside it is visible to proofs.
#[verifier::external_type_specification]
#[verifier::external_body]
pub struct ExError(serde_json::Error);

/// The text that `serde_json` writes for a value when it is displayed in
/// the ordinary, compact, way.
pub uninterp spec fn json_text(value: serde_json::Value) -> Seq<char>;

/// The compact text of the value that `serde_json` parses from `text`, or
/// `None` where it refuses `text`.
pub uninterp spec fn compact_form(text: Seq<char>) -> Option<Seq<char>>;

/// `serde_json::from_str`, at the type `serde_json::Value`.
///
/// Claims that the outcome depends on the text alone: whether the text is
/// accepted, and the compact text of the value it is parsed into, are those
/// that `compact_form` names.
#[verifier::external_body]
fn parse_json(text: &str) -> (parsed: Result<serde_json::Value, serde_json::Error>)
    ensures
        match parsed {
            Ok(value) => compact_form(text@) == Some(json_text(value)),
            Err(_) => compact_form(text@) is None,
        },
{
    serde_json::from_str(text)
}

/// The `Display` of `serde_json::Value`, without the alternate flag.
///
/// Claims that the text written depends on the value alone: it is the one
/// that `json_text` names.
#[verifier::external_body]
fn display_json(value: &serde_json::Value) -> (text: String)
    ensures
        text@ == json_text(*value),
{
    format!("{}", value)
}

/// A text that may be missing, as a character sequence.
pub open spec fn text_view(text: Option<String>) -> Option<Seq<char>> {
    match text {
        Some(text) => Some(text@),
        None => None,
    }
}

/// The text for the outcome of parsing a document: the compact text of the
/// value where there is one, nothing where the document was refused.
pub fn written(parsed: Result<serde_json::Value, serde_json::Error>) -> (out: Option<String>)
    ensures
        text_view(out) == match parsed {
            Ok(value) => Some(json_text(value)),
            Err(_) => None,
        },
{
    match parsed {
        Ok(value) => Some(display_json(&value)),
        Err(_) => None,
    }
}

/// Rewrites a JSON document in compact form.
///
/// Returns `None` where `document` is not JSON.
pub fn compact_json(document: &str) -> (out: Option<String>)
    ensures
        text_view(out) == compact_form(document@),
{
    written(parse_json(document))
}

} // verus!

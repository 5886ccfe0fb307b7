//! Reading a profile file the pilot imports: its text must be one JSON document, which the
//! window then checks field by field.
use vstd::prelude::*;

use crate::error::AppError;

verus! {

#[verifier::external_type_specification]
#[verifier::external_body]
pub struct ExJsonValue(serde_json::Value);

/// What `serde_json::from_str::<serde_json::Value>` reports for a text: `None` when the text
/// is one JSON document, else the message of its error.
pub uninterp spec fn json_parse_error(text: Seq<char>) -> Option<Seq<char>>;

/// The text is one JSON document.
pub open spec fn is_json_document(text: Seq<char>) -> bool {
    json_parse_error(text) is None
}

/// Calls `serde_json::from_str::<serde_json::Value>`: the parsed document, or the error's
/// message, both named by `json_parse_error` of the text. What the document holds is not
/// stated.
#[verifier::external_body]
fn parse_json(text: &str) -> (parsed: Result<serde_json::Value, String>)
    ensures
        match parsed {
            Ok(_) => json_parse_error(text@) is None,
            Err(message) => json_parse_error(text@) == Some(message@),
        },
{
    serde_json::from_str::<serde_json::Value>(text).map_err(|error| error.to_string())
}

/// An imported file's text as a JSON document for the window to check; text that is not one
/// JSON document is a JSON error carrying the parser's message.
pub fn import_document(content: &str) -> (document: Result<serde_json::Value, AppError>)
    ensures
        match document {
            Ok(_) => is_json_document(content@),
            Err(error) => match json_parse_error(content@) {
                Some(message) => error matches AppError::Json(m) && m@ == message,
                None => false,
            },
        },
{
    match parse_json(content) {
        Ok(value) => Ok(value),
        Err(message) => Err(AppError::Json(message)),
    }
}

} // verus!

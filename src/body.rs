//! Request and response payloads, decoded by content type.
use vstd::prelude::*;
use crate::errors::LioneError;
use crate::text::{chars_eq_ignore_ascii_case, chars_of, eq_ignore_ascii_case};

verus! {

#[verifier::external_type_specification]
#[verifier::external_body]
pub struct ExJsonValue(serde_json::Value);

#[verifier::external_type_specification]
#[verifier::external_body]
pub struct ExJsonError(serde_json::Error);

/// Relies on `Value`'s `Clone`, which copies the value; nothing is claimed of it.
pub assume_specification[ <serde_json::Value as Clone>::clone ](v: &serde_json::Value) -> serde_json::Value;

/// Whether the text is one well-formed JSON value, as `serde_json` reads it.
pub uninterp spec fn is_json(s: Seq<char>) -> bool;

/// Relies on `serde_json::from_str::<Value>`: it succeeds exactly when the
/// text is one JSON value, which depends on the text alone.
#[verifier::external_body]
fn json_from_str(s: &str) -> (r: Result<serde_json::Value, serde_json::Error>)
    ensures
        r.is_ok() == is_json(s@),
{
    serde_json::from_str(s)
}

/// Relies on `serde_json::Error`'s `Display`: the decoder's message.
#[verifier::external_body]
fn json_error_message(e: &serde_json::Error) -> String {
    e.to_string()
}

/// Relies on `serde_json::Value`'s `Display`: the value as compact JSON text.
#[verifier::external_body]
fn json_to_string(v: &serde_json::Value) -> String {
    v.to_string()
}

/// A content type that asks for structured decoding.
pub open spec fn is_json_type(ct: Seq<char>) -> bool {
    eq_ignore_ascii_case(ct, "application/json"@)
}

/// What decoding `text` under the content type `ct` gives: a JSON value where
/// the type is JSON and the text is JSON, a parse error where the type is JSON
/// and the text is not, and the text itself otherwise.
pub open spec fn body_decoded(
    text: Seq<char>,
    ct: Option<Seq<char>>,
    r: Result<Body, LioneError>,
) -> bool {
    if ct matches Some(c) && is_json_type(c) {
        if is_json(text) {
            r matches Ok(Body::Json(_))
        } else {
            r matches Err(LioneError::ParseError(_))
        }
    } else {
        r matches Ok(Body::Text(t)) && t@ == text
    }
}

/// Decoding `text` under the content type `ct` succeeds.
pub open spec fn body_accepted(text: Seq<char>, ct: Option<Seq<char>>) -> bool {
    !(ct matches Some(c) && is_json_type(c) && !is_json(text))
}

/// A message payload.
#[derive(Debug, Clone, PartialEq, Eq)]
pub enum Body {
    Empty,
    Text(String),
    Json(serde_json::Value),
}

/// The wire text of a body that is not JSON.
pub open spec fn plain_text(b: Body) -> Seq<char> {
    match b {
        Body::Text(t) => t@,
        _ => Seq::empty(),
    }
}

impl Body {
    /// Decodes a payload: as JSON when `content_type` is `application/json`
    /// (ignoring ASCII case), else as text.
    pub fn parse(body: String, content_type: Option<&str>) -> (r: Result<Body, LioneError>)
        ensures
            body_decoded(
                body@,
                match content_type {
                    Some(c) => Some(c@),
                    None => None,
                },
                r,
            ),
    {
        match content_type {
            Some(ct) => {
                let json_type = chars_of("application/json");
                if chars_eq_ignore_ascii_case(&chars_of(ct), &json_type) {
                    Self::parse_json(body)
                } else {
                    Ok(Body::Text(body))
                }
            },
            None => Ok(Body::Text(body)),
        }
    }

    fn parse_json(body: String) -> (r: Result<Body, LioneError>)
        ensures
            is_json(body@) ==> r matches Ok(Body::Json(_)),
            !is_json(body@) ==> r matches Err(LioneError::ParseError(_)),
    {
        match json_from_str(body.as_str()) {
            Ok(v) => Ok(Body::Json(v)),
            Err(e) => Err(LioneError::ParseError(json_error_message(&e))),
        }
    }

    /// The body as wire text: nothing for `Empty`, the text itself for `Text`,
    /// and the compact JSON text for `Json`.
    pub fn to_string(&self) -> (r: String)
        ensures
            !(self is Json) ==> r@ == plain_text(*self),
    {
        match self {
            Body::Empty => String::new(),
            Body::Text(t) => t.clone(),
            Body::Json(v) => json_to_string(v),
        }
    }
}

} // verus!

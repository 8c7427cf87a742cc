//! Response status lines.
use vstd::prelude::*;

verus! {

/// The status codes a response can carry.
#[derive(Debug, Clone, Copy, PartialEq, Eq, Structural)]
pub enum StatusCode {
    Success,
    NotFound,
    BadRequest,
}

/// The numeric code and reason phrase of a status, as on the wire.
pub open spec fn status_text(code: StatusCode) -> Seq<char> {
    match code {
        StatusCode::Success => "200 OK"@,
        StatusCode::NotFound => "404 Not Found"@,
        StatusCode::BadRequest => "400 Bad Request"@,
    }
}

impl StatusCode {
    /// The numeric code followed by the reason phrase, e.g. `404 Not Found`.
    pub fn to_string(&self) -> (r: String)
        ensures
            r@ == status_text(*self),
    {
        match self {
            StatusCode::Success => String::from_str("200 OK"),
            StatusCode::NotFound => String::from_str("404 Not Found"),
            StatusCode::BadRequest => String::from_str("400 Bad Request"),
        }
    }
}

} // verus!

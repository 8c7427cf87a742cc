//! The error kinds of the engine.
use vstd::prelude::*;

verus! {

/// Everything that can go wrong while decoding a request or serving a connection.
#[derive(Debug, Clone, PartialEq, Eq)]
pub enum LioneError {
    /// The request line names a verb outside the supported set; holds the verb as sent.
    MethodNotFound(String),
    /// A structured body failed to decode; holds the decoder's message.
    ParseError(String),
    /// An empty frame, a malformed `Content-Length`, or no end of the headers.
    EmptyRequest,
    /// A socket read, write or close failed; holds its message.
    IoError(String),
    /// A malformed request line or header line.
    TodoError,
}

impl LioneError {
    /// A human-readable description of the error.
    pub fn message(&self) -> (r: String)
        ensures
            self matches LioneError::MethodNotFound(m) ==> r@ == "HTTP Method "@ + m@
                + " wasn't found!"@,
            self matches LioneError::ParseError(m) ==> r@ == "Couldn't parse JSON: "@ + m@,
            self matches LioneError::EmptyRequest ==> r@ == "Empty request"@,
            self matches LioneError::IoError(m) ==> r@ == "IoError: "@ + m@,
            self matches LioneError::TodoError ==> r@ == "TodoError"@,
    {
        match self {
            LioneError::MethodNotFound(m) => {
                let mut r = String::from_str("HTTP Method ");
                r.append(m.as_str());
                r.append(" wasn't found!");
                r
            },
            LioneError::ParseError(m) => String::from_str("Couldn't parse JSON: ").concat(
                m.as_str(),
            ),
            LioneError::EmptyRequest => String::from_str("Empty request"),
            LioneError::IoError(m) => String::from_str("IoError: ").concat(m.as_str()),
            LioneError::TodoError => String::from_str("TodoError"),
        }
    }
}

} // verus!

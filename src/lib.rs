//! A minimal HTTP/1.1 server engine: request decoding, response encoding and
//! exact-match routing, with their contracts.
pub mod body;
pub mod errors;
pub mod fields;
pub mod method;
pub mod request;
pub mod response;
pub mod router;
pub mod status;
pub mod text;

pub use body::Body;
pub use errors::LioneError;
pub use method::Method;
pub use request::Request;
pub use response::Response;
pub use router::Router;
pub use status::StatusCode;

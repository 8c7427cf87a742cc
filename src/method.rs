//! Request methods.
use vstd::prelude::*;
use crate::errors::LioneError;
use crate::text::{chars_eq_ignore_ascii_case, chars_of, eq_ignore_ascii_case, string_of};

verus! {

/// The request verbs the engine accepts.
#[derive(Debug, Clone, Copy, PartialEq, Eq, Hash, Structural)]
pub enum Method {
    Head,
    Get,
    Post,
    Put,
    Delete,
}

/// The method a token names, compared without regard to ASCII case.
pub open spec fn method_of(s: Seq<char>) -> Option<Method> {
    if eq_ignore_ascii_case(s, seq!['h', 'e', 'a', 'd']) {
        Some(Method::Head)
    } else if eq_ignore_ascii_case(s, seq!['g', 'e', 't']) {
        Some(Method::Get)
    } else if eq_ignore_ascii_case(s, seq!['p', 'o', 's', 't']) {
        Some(Method::Post)
    } else if eq_ignore_ascii_case(s, seq!['p', 'u', 't']) {
        Some(Method::Put)
    } else if eq_ignore_ascii_case(s, seq!['d', 'e', 'l', 'e', 't', 'e']) {
        Some(Method::Delete)
    } else {
        None
    }
}

impl Method {
    /// Parses a method token, ignoring ASCII case; any other token fails with
    /// `MethodNotFound` holding the token as given.
    pub fn from_chars(s: &Vec<char>) -> (r: Result<Method, LioneError>)
        ensures
            method_of(s@) matches Some(m) ==> r == Ok::<Method, LioneError>(m),
            method_of(s@) is None ==> (r matches Err(LioneError::MethodNotFound(t)) && t@ == s@),
    {
        let head = vec!['h', 'e', 'a', 'd'];
        let get = vec!['g', 'e', 't'];
        let post = vec!['p', 'o', 's', 't'];
        let put = vec!['p', 'u', 't'];
        let delete = vec!['d', 'e', 'l', 'e', 't', 'e'];
        assert(head@ =~= seq!['h', 'e', 'a', 'd']);
        assert(get@ =~= seq!['g', 'e', 't']);
        assert(post@ =~= seq!['p', 'o', 's', 't']);
        assert(put@ =~= seq!['p', 'u', 't']);
        assert(delete@ =~= seq!['d', 'e', 'l', 'e', 't', 'e']);
        if chars_eq_ignore_ascii_case(s, &head) {
            Ok(Method::Head)
        } else if chars_eq_ignore_ascii_case(s, &get) {
            Ok(Method::Get)
        } else if chars_eq_ignore_ascii_case(s, &post) {
            Ok(Method::Post)
        } else if chars_eq_ignore_ascii_case(s, &put) {
            Ok(Method::Put)
        } else if chars_eq_ignore_ascii_case(s, &delete) {
            Ok(Method::Delete)
        } else {
            Err(LioneError::MethodNotFound(string_of(s.as_slice())))
        }
    }

    /// Parses a method name, ignoring ASCII case; any other name fails with
    /// `MethodNotFound` holding the name as given.
    pub fn from_str(s: &str) -> (r: Result<Method, LioneError>)
        ensures
            method_of(s@) matches Some(m) ==> r == Ok::<Method, LioneError>(m),
            method_of(s@) is None ==> (r matches Err(LioneError::MethodNotFound(t)) && t@ == s@),
    {
        Method::from_chars(&chars_of(s))
    }
}

} // verus!

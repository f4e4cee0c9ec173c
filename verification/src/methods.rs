//! The enumerated HTTP request methods and their textual forms.

use vstd::prelude::*;

use crate::text::str_eq;

verus! {

/// An HTTP request method.
#[derive(Clone, Copy, Debug, PartialEq, Eq, Structural)]
pub enum HTTPMethod {
    GET,
    POST,
    PUT,
    PATCH,
    DELETE,
    HEAD,
    OPTIONS,
}

/// The method named by a token, or `None` when the token names no method.
pub open spec fn spec_method_of(tok: Seq<char>) -> Option<HTTPMethod> {
    if tok == "GET"@ {
        Some(HTTPMethod::GET)
    } else if tok == "POST"@ {
        Some(HTTPMethod::POST)
    } else if tok == "PUT"@ {
        Some(HTTPMethod::PUT)
    } else if tok == "PATCH"@ {
        Some(HTTPMethod::PATCH)
    } else if tok == "DELETE"@ {
        Some(HTTPMethod::DELETE)
    } else if tok == "HEAD"@ {
        Some(HTTPMethod::HEAD)
    } else if tok == "OPTIONS"@ {
        Some(HTTPMethod::OPTIONS)
    } else {
        None
    }
}

/// The token that names a method.
pub open spec fn spec_method_name(m: HTTPMethod) -> Seq<char> {
    match m {
        HTTPMethod::GET => "GET"@,
        HTTPMethod::POST => "POST"@,
        HTTPMethod::PUT => "PUT"@,
        HTTPMethod::PATCH => "PATCH"@,
        HTTPMethod::DELETE => "DELETE"@,
        HTTPMethod::HEAD => "HEAD"@,
        HTTPMethod::OPTIONS => "OPTIONS"@,
    }
}

impl HTTPMethod {
    /// Maps a method token to the enumerated method; any other token is
    /// rejected, and the caller reports it as an unknown method.
    pub fn from_str(input: &str) -> (r: Option<HTTPMethod>)
        ensures
            r == spec_method_of(input@),
    {
        if str_eq(input, "GET") {
            Some(HTTPMethod::GET)
        } else if str_eq(input, "POST") {
            Some(HTTPMethod::POST)
        } else if str_eq(input, "PUT") {
            Some(HTTPMethod::PUT)
        } else if str_eq(input, "PATCH") {
            Some(HTTPMethod::PATCH)
        } else if str_eq(input, "DELETE") {
            Some(HTTPMethod::DELETE)
        } else if str_eq(input, "HEAD") {
            Some(HTTPMethod::HEAD)
        } else if str_eq(input, "OPTIONS") {
            Some(HTTPMethod::OPTIONS)
        } else {
            None
        }
    }

    /// The method's name, as it stands in a request's first line.
    pub fn as_str(&self) -> (r: &'static str)
        ensures
            r@ == spec_method_name(*self),
    {
        match self {
            HTTPMethod::GET => "GET",
            HTTPMethod::POST => "POST",
            HTTPMethod::PUT => "PUT",
            HTTPMethod::PATCH => "PATCH",
            HTTPMethod::DELETE => "DELETE",
            HTTPMethod::HEAD => "HEAD",
            HTTPMethod::OPTIONS => "OPTIONS",
        }
    }
}

} // verus!

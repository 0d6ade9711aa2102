//! The closed set of request methods the server understands.

use vstd::prelude::*;
use crate::strkit::str_eq;

verus! {

#[allow(non_camel_case_types)]
#[derive(Clone, Copy, PartialEq, Eq, Structural, Debug)]
pub enum RequestMethod {
    GET,
    POST,
    PUT,
    DELETE,
    PATCH,
}

/// The method named by a token, if any: the enumeration is closed and
/// every other token is unsupported.
pub open spec fn spec_method(s: Seq<char>) -> Option<RequestMethod> {
    if s == "GET"@ {
        Some(RequestMethod::GET)
    } else if s == "POST"@ {
        Some(RequestMethod::POST)
    } else if s == "PUT"@ {
        Some(RequestMethod::PUT)
    } else if s == "DELETE"@ {
        Some(RequestMethod::DELETE)
    } else if s == "PATCH"@ {
        Some(RequestMethod::PATCH)
    } else {
        None
    }
}

impl RequestMethod {
    pub fn from_str(input: &str) -> (r: Result<RequestMethod, ()>)
        ensures
            match spec_method(input@) {
                Some(m) => r == Ok::<RequestMethod, ()>(m),
                None => r is Err,
            },
    {
        if str_eq(input, "GET") {
            Ok(RequestMethod::GET)
        } else if str_eq(input, "POST") {
            Ok(RequestMethod::POST)
        } else if str_eq(input, "PUT") {
            Ok(RequestMethod::PUT)
        } else if str_eq(input, "DELETE") {
            Ok(RequestMethod::DELETE)
        } else if str_eq(input, "PATCH") {
            Ok(RequestMethod::PATCH)
        } else {
            Err(())
        }
    }
}

} // verus!

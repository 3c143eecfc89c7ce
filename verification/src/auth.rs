//! Who may call: the shared token that a request must present.
//!
//! A token comes in the `Authorization` header, after the word `Bearer`, or
//! in a header of its own. The first takes precedence wherever it carries a
//! bearer token.

use crate::text::{
    chars_strip_prefix, from_chars, str_eq, str_trim, strip_prefix, text_of, to_chars, trim,
    trim_chars,
};
use vstd::prelude::*;

verus! {

/// The token that a request presents: what follows `Bearer ` in the
/// authorization header, else the value of the token header, each trimmed.
pub open spec fn presented_token(authorization: Option<Seq<char>>, custom: Option<Seq<char>>) -> Option<
    Seq<char>,
> {
    if authorization is Some && strip_prefix(authorization->0, "Bearer "@) is Some {
        Some(trim(strip_prefix(authorization->0, "Bearer "@)->0))
    } else {
        match custom {
            Some(c) => Some(trim(c)),
            None => None,
        }
    }
}

/// The token that a request presents, given the text of its authorization
/// header and of its token header, each where the request has it.
pub fn extract_token(authorization: Option<&str>, custom: Option<&str>) -> (r: Option<String>)
    ensures
        text_of(r) == presented_token(
            match authorization {
                Some(a) => Some(a@),
                None => None,
            },
            match custom {
                Some(c) => Some(c@),
                None => None,
            },
        ),
{
    if let Some(a) = authorization {
        if let Some(rest) = chars_strip_prefix(&to_chars(a), "Bearer ") {
            return Some(from_chars(&trim_chars(&rest)));
        }
    }
    match custom {
        Some(c) => Some(str_trim(c)),
        None => None,
    }
}

/// Whether a request may pass: always where no token is configured, else
/// only where it presents exactly the configured one.
pub fn enforce_token(expected: Option<&String>, presented: Option<&String>) -> (ok: bool)
    ensures
        ok == (expected is None || (presented is Some && presented->0@ == expected->0@)),
{
    match expected {
        None => true,
        Some(e) => match presented {
            Some(p) => str_eq(p.as_str(), e.as_str()),
            None => false,
        },
    }
}

} // verus!

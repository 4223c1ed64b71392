//! Errors of the HTTP client.
use vstd::prelude::*;

verus! {

/// What can go wrong while preparing or following requests.
#[derive(Clone, Debug)]
pub enum HttpError {
    /// A URL that can not be used: the URL text and the reason.
    InvalidUrl(String, String),
    /// More redirections than the options allow.
    TooManyRedirect,
}

/// The view of an optional string: the characters, if any.
pub open spec fn opt_chars(o: Option<String>) -> Option<Seq<char>> {
    match o {
        Some(s) => Some(s@),
        None => None,
    }
}

} // verus!

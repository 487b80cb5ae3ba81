//! Server errors and the rule-violation constructor shared by every handler.
use vstd::prelude::*;

verus! {

/// An error raised while serving a request.
#[derive(Debug)]
pub enum ServerError {
    /// A game rule refused the request; the string is the result code sent to the client.
    InvalidRequest(String),
    /// The session key is missing or unknown.
    SessionExpired,
    /// The requested record does not exist.
    NotFound(String),
    /// A stored value could not be read back.
    Internal(String),
}

impl ServerError {
    /// The result code carried by a rule violation.
    pub open spec fn code(self) -> Option<Seq<char>> {
        match self {
            ServerError::InvalidRequest(s) => Some(s@),
            _ => None,
        }
    }
}

/// True when `e` is the rule violation with result code `code`.
pub open spec fn is_rule(e: ServerError, code: Seq<char>) -> bool {
    e.code() == Some(code)
}

/// Builds the rule violation whose result code is `code`.
pub fn rule(code: &str) -> (e: ServerError)
    ensures
        is_rule(e, code@),
{
    ServerError::InvalidRequest(String::from_str(code))
}

} // verus!

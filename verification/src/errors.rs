//! Error types shared by the crate.

use vstd::prelude::*;
use vstd::string::StringExecFns;

verus! {

/// Errors reported by the real-time transports.
#[derive(Debug, Clone, PartialEq, Eq)]
pub enum RtcError {
    /// A transport could not be opened or used.
    Transport(String),
}

/// Result of a transport operation.
pub type RtcResult<T> = Result<T, RtcError>;

impl RtcError {
    /// The text carried by the error.
    pub open spec fn reason(self) -> Seq<char> {
        match self {
            RtcError::Transport(text) => text@,
        }
    }

    /// The error reported when a local socket cannot be bound: the cause,
    /// prefixed with `bind: `.
    pub fn bind_failure(cause: &str) -> (err: RtcError)
        ensures
            err is Transport,
            err.reason() == "bind: "@ + cause@,
    {
        let mut text: String = String::new();
        text.append("bind: ");
        text.append(cause);
        assert(text@ =~= "bind: "@ + cause@);
        RtcError::Transport(text)
    }
}

} // verus!

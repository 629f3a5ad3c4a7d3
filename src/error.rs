//! The ways a run can fail.

use vstd::prelude::*;

verus! {

/// Why a run stopped before it showed the server list.
#[derive(Debug, Clone, Copy, PartialEq, Eq, Structural)]
pub enum ClientError {
    /// The username or the password is empty.
    MissingCredentials,
    /// The login reply set no session cookie.
    AuthenticationFailed,
    /// A request did not complete.
    TransportError,
    /// A reply could not be read as expected.
    MalformedResponse,
    /// A player count is not an integer.
    NumericParseFailure,
}

impl ClientError {
    /// The text shown to the user for this error.
    pub open spec fn text(self) -> Seq<char> {
        match self {
            ClientError::MissingCredentials => "No username or password"@,
            ClientError::AuthenticationFailed => "username/password incorrect"@,
            ClientError::TransportError => "the request did not complete"@,
            ClientError::MalformedResponse => "the reply could not be read"@,
            ClientError::NumericParseFailure => "a player count is not a number"@,
        }
    }

    /// The text shown to the user for this error.
    pub fn message(&self) -> (r: &'static str)
        ensures
            r@ == self.text(),
    {
        match self {
            ClientError::MissingCredentials => "No username or password",
            ClientError::AuthenticationFailed => "username/password incorrect",
            ClientError::TransportError => "the request did not complete",
            ClientError::MalformedResponse => "the reply could not be read",
            ClientError::NumericParseFailure => "a player count is not a number",
        }
    }
}

} // verus!

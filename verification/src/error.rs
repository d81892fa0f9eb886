//! Errors of the connection service, and what a client is told of them.

use vstd::prelude::*;
use vstd::string::StringExecFns;

verus! {

/// Why a request to the connection service failed.
#[derive(Debug, PartialEq, Eq)]
pub enum ConnectionError {
    Authentication(String),
    Config(String),
    InternalServer(String),
    InvalidToken(String),
    Request(String),
    Serialization(String),
    Unknown(String),
}

impl Clone for ConnectionError {
    fn clone(&self) -> (r: Self)
        ensures
            r == *self,
    {
        match self {
            ConnectionError::Authentication(s) => ConnectionError::Authentication(s.clone()),
            ConnectionError::Config(s) => ConnectionError::Config(s.clone()),
            ConnectionError::InternalServer(s) => ConnectionError::InternalServer(s.clone()),
            ConnectionError::InvalidToken(s) => ConnectionError::InvalidToken(s.clone()),
            ConnectionError::Request(s) => ConnectionError::Request(s.clone()),
            ConnectionError::Serialization(s) => ConnectionError::Serialization(s.clone()),
            ConnectionError::Unknown(s) => ConnectionError::Unknown(s.clone()),
        }
    }
}

/// The status code for a request that was not authorized.
pub const UNAUTHORIZED: u16 = 401;

/// The status code for a failure of the server.
pub const INTERNAL_SERVER_ERROR: u16 = 500;

impl ConnectionError {
    /// What the error is about.
    pub open spec fn spec_detail(&self) -> String {
        match *self {
            ConnectionError::Authentication(s) => s,
            ConnectionError::Config(s) => s,
            ConnectionError::InternalServer(s) => s,
            ConnectionError::InvalidToken(s) => s,
            ConnectionError::Request(s) => s,
            ConnectionError::Serialization(s) => s,
            ConnectionError::Unknown(s) => s,
        }
    }

    /// How the message of the error begins.
    pub open spec fn spec_prefix(&self) -> Seq<char> {
        match *self {
            ConnectionError::Authentication(_) => "Authentication error: "@,
            ConnectionError::Config(_) => "Internal server error: "@,
            ConnectionError::InternalServer(_) => "Internal server error: "@,
            ConnectionError::InvalidToken(_) => "Internal token: "@,
            ConnectionError::Request(_) => "Error requesting data: "@,
            ConnectionError::Serialization(_) => "Error serializing or deserializing: "@,
            ConnectionError::Unknown(_) => "unknown error: "@,
        }
    }

    /// The message of the error: what kind it is, then what it is about.
    pub fn message(&self) -> (r: String)
        ensures
            r@ == self.spec_prefix() + self.spec_detail()@,
    {
        let (prefix, detail) = match self {
            ConnectionError::Authentication(s) => ("Authentication error: ", s),
            ConnectionError::Config(s) => ("Internal server error: ", s),
            ConnectionError::InternalServer(s) => ("Internal server error: ", s),
            ConnectionError::InvalidToken(s) => ("Internal token: ", s),
            ConnectionError::Request(s) => ("Error requesting data: ", s),
            ConnectionError::Serialization(s) => ("Error serializing or deserializing: ", s),
            ConnectionError::Unknown(s) => ("unknown error: ", s),
        };
        let mut text = String::from_str(prefix);
        text.append(detail.as_str());
        text
    }

    /// The status code and the text that a client gets for the error: a
    /// failed authentication and a failure of the server are told as
    /// they are, anything else as an unknown failure of the server.
    pub fn into_status(self) -> (r: (u16, String))
        ensures
            match self {
                ConnectionError::InternalServer(e) => r == (INTERNAL_SERVER_ERROR, e),
                ConnectionError::Authentication(e) => r == (UNAUTHORIZED, e),
                _ => r.0 == INTERNAL_SERVER_ERROR && r.1@ == "Unknown"@,
            },
    {
        match self {
            ConnectionError::InternalServer(e) => (INTERNAL_SERVER_ERROR, e),
            ConnectionError::Authentication(e) => (UNAUTHORIZED, e),
            _ => (INTERNAL_SERVER_ERROR, String::from_str("Unknown")),
        }
    }
}

} // verus!

//! The kinds of failure of a load test.

use vstd::prelude::*;

verus! {

/// Why a server address could not be parsed.
#[derive(Clone, Copy, Debug, PartialEq, Eq, Structural)]
pub enum AddressError {
    /// The address holds no `:` between host and port.
    MissingPort,
    /// The part before the last `:` is not a valid host.
    InvalidHost,
    /// The part after the last `:` is not a decimal number below 65536.
    InvalidPort,
}

/// A failure of a load test.
#[derive(Clone, Copy, Debug, PartialEq, Eq, Structural)]
pub enum Error {
    /// A malformed server address.
    InputParse(AddressError),
    /// The tcp connection could not be established.
    Connect,
    /// The http/2 handshake failed.
    Handshake,
    /// The request could not be sent.
    Send,
    /// The response headers or body could not be read.
    Receive,
    /// A background task panicked or was cancelled.
    TaskJoin,
    /// A statistic that needs at least one report was asked of an empty summary.
    EmptySummary,
}

impl Error {
    /// A short description of the failure.
    pub fn describe(&self) -> (r: &'static str) {
        match self {
            Error::InputParse(AddressError::MissingPort) => "server address must be given as `hostname:port`",
            Error::InputParse(AddressError::InvalidHost) => "invalid server hostname",
            Error::InputParse(AddressError::InvalidPort) => "invalid server port",
            Error::Connect => "could not connect to the server",
            Error::Handshake => "http/2 handshake failed",
            Error::Send => "could not send the request",
            Error::Receive => "could not read the response",
            Error::TaskJoin => "a background task failed",
            Error::EmptySummary => "the summary holds no reports",
        }
    }
}

} // verus!

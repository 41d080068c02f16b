//! The engine's error taxonomy. Fetch and store failures are produced
//! at the I/O boundary, logged, and swallowed there; configuration
//! errors are fatal before scheduling starts.

use vstd::prelude::*;

verus! {

/// A snapshot fetch failed: the network, a timeout, or a response
/// without the expected fields.
#[derive(Clone, Copy, Debug, PartialEq, Eq, Structural)]
pub enum FetchError {
    Network,
    Timeout,
    MalformedResponse,
}

impl FetchError {
    /// A short label for log lines.
    pub fn describe(&self) -> (s: &'static str)
        ensures
            *self == FetchError::Network ==> s@ == "network failure"@,
            *self == FetchError::Timeout ==> s@ == "timeout"@,
            *self == FetchError::MalformedResponse ==> s@ == "malformed response"@,
    {
        match self {
            FetchError::Network => "network failure",
            FetchError::Timeout => "timeout",
            FetchError::MalformedResponse => "malformed response",
        }
    }
}

/// A store operation failed: connecting, the protocol, or a batch that
/// was only partially written.
#[derive(Clone, Copy, Debug, PartialEq, Eq, Structural)]
pub enum StoreError {
    Connection,
    Protocol,
    PartialWrite,
}

impl StoreError {
    /// A short label for log lines.
    pub fn describe(&self) -> (s: &'static str)
        ensures
            *self == StoreError::Connection ==> s@ == "store connection failure"@,
            *self == StoreError::Protocol ==> s@ == "store protocol failure"@,
            *self == StoreError::PartialWrite ==> s@ == "partial write"@,
    {
        match self {
            StoreError::Connection => "store connection failure",
            StoreError::Protocol => "store protocol failure",
            StoreError::PartialWrite => "partial write",
        }
    }
}

/// A job was declared without a usable interval: fatal at startup.
#[derive(Clone, Copy, Debug, PartialEq, Eq, Structural)]
pub enum ConfigError {
    MissingInterval,
    InvalidInterval,
}

impl ConfigError {
    /// A short label for the startup failure message.
    pub fn describe(&self) -> (s: &'static str)
        ensures
            *self == ConfigError::MissingInterval ==> s@ == "missing required interval"@,
            *self == ConfigError::InvalidInterval ==> s@ == "interval must be positive"@,
    {
        match self {
            ConfigError::MissingInterval => "missing required interval",
            ConfigError::InvalidInterval => "interval must be positive",
        }
    }
}

} // verus!

//! Error taxonomy of the registry client.

use vstd::prelude::*;

verus! {

/// Every failure the library reports.
///
/// `Config` covers invalid build parameters; `Auth` covers unparsable
/// challenges, token-endpoint failures and undecodable stored credentials;
/// `AuthInfoMissing` names the registry index that had no credential entry;
/// `Protocol` covers unexpected statuses and malformed required headers;
/// `UnsupportedVersion` is raised when a registry does not speak the v2 API;
/// `DigestMismatch` carries the expected and computed hex digests;
/// `PathTraversal` carries the offending archive path, component by
/// component; `TransientIo` marks failures eligible for a bounded retry,
/// `FatalIo` those that are not.
#[derive(Debug)]
pub enum Error {
    Config(String),
    Auth(String),
    AuthInfoMissing(String),
    Protocol(String),
    UnsupportedVersion,
    DigestMismatch { expected: Vec<u8>, computed: Vec<u8> },
    PathTraversal(Vec<Vec<u8>>),
    TransientIo(String),
    FatalIo(String),
}

impl Error {
    /// True for the failures the fetch layer may retry; digest mismatches,
    /// traversal attempts and protocol errors are never retried.
    pub fn is_retryable(&self) -> (r: bool)
        ensures
            r == (self is TransientIo),
    {
        match self {
            Error::TransientIo(_) => true,
            _ => false,
        }
    }
}

} // verus!

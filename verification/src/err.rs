//! The error taxonomy of the driver.
//!
//! Server-reported failures are split into compile-time, runtime and
//! availability classes; everything that goes wrong inside the driver itself
//! (transport, authentication, token issuance) is a `Driver` error.  A
//! response whose error payload does not have the documented shape is
//! surfaced raw as `Error::Db`, carrying the unparsed result bytes.

use vstd::prelude::*;

verus! {

/// A server in the cluster is unavailable.
///
/// `OpFailed` reports an operation that certainly did not happen;
/// `OpIndeterminate` one whose outcome is unknown.
#[derive(Debug, Clone, PartialEq, Eq)]
pub enum Availability {
    OpFailed(Vec<u8>),
    OpIndeterminate(Vec<u8>),
}

/// All errors reported by the server that are unrelated to compilation.
#[derive(Debug, Clone, PartialEq, Eq)]
pub enum Runtime {
    /// The query contains a logical impossibility.
    QueryLogic(Vec<u8>),
    NonExistence(Vec<u8>),
    ResourceLimit(Vec<u8>),
    User(Vec<u8>),
    Internal(Vec<u8>),
    Timeout(Vec<u8>),
    Availability(Availability),
    Permission(Vec<u8>),
}

/// An error that occurred within the driver itself.
#[derive(Debug, Clone, PartialEq, Eq)]
pub enum Driver {
    /// The server rejected the supplied credentials.
    Auth(Vec<u8>),
    /// A handshake payload that could not be understood, carried raw.
    Protocol(Vec<u8>),
    /// A transport read or write failed.
    Io(Vec<u8>),
    /// A payload that should have been a well-formed envelope was not.
    Serialization(Vec<u8>),
    ConnectionBroken,
    /// The connection has issued every usable token.
    TokenOverflow,
    Other(Vec<u8>),
}

/// The most generic error of the driver.
#[derive(Debug, Clone, PartialEq, Eq)]
pub enum Error {
    /// The query never began executing.
    Compile(Vec<u8>),
    Runtime(Runtime),
    Driver(Driver),
    /// A server error payload of unexpected shape, carried unparsed.
    Db(Vec<u8>),
}

/// The one server-reported condition the dispatcher retries by re-sending
/// the whole write: the primary replica for a shard is not available.
pub open spec fn is_write_retryable(e: Error) -> bool {
    e matches Error::Runtime(Runtime::Availability(Availability::OpFailed(_)))
}

/// Runtime test for [`is_write_retryable`].
pub fn write_retryable(e: &Error) -> (r: bool)
    ensures
        r == is_write_retryable(*e),
{
    match e {
        Error::Runtime(Runtime::Availability(Availability::OpFailed(_))) => true,
        _ => false,
    }
}

} // verus!

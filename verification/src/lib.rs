//! The network core of a RethinkDB driver.
//!
//! This crate holds the part of the driver worth proving: the framed
//! request/response transport, the SCRAM-SHA-256 handshake, the connection
//! object with its token counter and pending-request table, the connection
//! pool's server ordering and checkout policy, the dispatcher that drives
//! one query through writes, reads and cursor continuations, and the
//! classifier that maps wire responses onto the error taxonomy.  The
//! query-builder layer hands in an already-serialized term; sockets and
//! threads live outside, feeding bytes and transport outcomes into the
//! state machines defined here.

pub mod args;
pub mod conn;
pub mod dispatch;
pub mod err;
pub mod frame;
pub mod handshake;
pub mod json;
pub mod opts;
pub mod pool;
pub mod query;
pub mod response;

use vstd::prelude::*;

verus! {

/// Wire constant: the protocol-generation magic value sent once, unframed,
/// at the start of every connection.
pub const VERSION_MAGIC: u32 = 0x34c2bdc3;

pub fn version_magic() -> (r: u32)
    ensures
        r == VERSION_MAGIC,
{
    VERSION_MAGIC
}

} // verus!

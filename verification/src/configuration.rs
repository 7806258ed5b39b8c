//! Server-level tuning parameters.
//!
//! A plain data record: the pool core never reads it. The server loop that
//! owns a [`crate::connection::ConnectionList`] sizes it from
//! `max_connections` and drives create/delete calls from the cadence fields.

use vstd::prelude::*;
use crate::security::Secret;

verus! {

/// Configuration for a server loop built around the connection pool.
pub struct Configuration {
    /// Sizes both the slot pool and any per-connection data table.
    pub max_connections: usize,
    /// Drop a connection after `timeout` updates without traffic; should be
    /// several lengths of `heartbeat`.
    pub timeout: usize,
    /// Timeout applied to connections that are reserved but not yet admitted.
    pub reserved_timeout: usize,
    /// Send a heartbeat message every `heartbeat` updates.
    pub heartbeat: usize,
    /// Admits every connection that presents the given secret.
    pub allow_all: Option<Secret>,
}

} // verus!

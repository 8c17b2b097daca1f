//! Verified core of a runtime for distributed programs written as a single
//! executable.
//!
//! A program built on this runtime spawns further processes, each running a
//! serialized start closure, and the processes talk to each other through
//! typed point-to-point channels addressed by process identifiers (pids).
//! This crate holds the logic of that runtime: process identity and the
//! connection tie-break, the length-prefixed wire codec and framing, the
//! channel-endpoint semantics (at most one endpoint per peer and direction,
//! FIFO delivery, orderly teardown), the reactor's connection table, the
//! spawn protocol, the monitor's supervision decisions, the bridge's event
//! aggregation, and the bootstrap role selection.
//!
//! Everything that touches the operating system — sockets, fork and exec,
//! pipes, threads — lives outside this crate and drives these functions with
//! plain values.

use vstd::prelude::*;

pub mod boot;
pub mod bridge;
pub mod channel;
pub mod codec;
pub mod digits;
pub mod events;
pub mod frame;
pub mod monitor;
pub mod pid;
pub mod reactor;
pub mod render;
pub mod resources;
pub mod runtime;
pub mod spawn;
pub mod status;
pub mod stream;

verus! {

/// Borrow the contents of an `Option` known to be `Some`.
pub fn borrow_unwrap_option<T>(x: &Option<T>) -> (r: &T)
    requires
        x.is_some(),
    ensures
        *r == x.unwrap(),
{
    x.as_ref().unwrap()
}

} // verus!

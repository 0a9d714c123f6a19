//! Bounded-concurrency reachability probing.
//!
//! The library decides everything about a scan of candidate addresses: how a
//! probe target is written, how a connection attempt's outcome becomes a
//! verdict, how many probes may be in flight, which address is launched next,
//! and which addresses end up in the result. Opening sockets, timers and tasks
//! belong to the caller, which reports back to a [`scan::Scan`].
pub mod laws;
pub mod limiter;
pub mod probe;
pub mod scan;

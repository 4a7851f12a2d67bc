//! Verified core of a multi-process stdio session manager.
//!
//! The library supervises long-lived worker processes that speak a
//! line-delimited JSON-RPC style protocol over stdin/stdout.  It owns the
//! decision logic: the registry of sessions keyed by identifier, the
//! classification of outbound texts into notifications and requests, and the
//! correlation of replies.  The host application performs the actual
//! spawning, pipe reading and event delivery, and feeds each outcome back in
//! as plain values.

pub mod assemble;
pub mod errors;
pub mod protocol;
pub mod records;
pub mod registry;
pub mod strorder;

//! Verified core of a TLS-terminating HTTP front end.
//!
//! The crate holds the decisions of the server: what a configured server
//! needs before it may listen, what the accept loop does with each accepted
//! or failed connection attempt, and how one connection moves from handshake
//! through a strictly sequential series of request/response exchanges to its
//! close. Sockets, handshakes and awaiting are left to the caller, which
//! reports what happened as events and carries out the actions it is handed.

pub mod error;
pub mod tls;
pub mod server;
pub mod connection;
pub mod trace;
pub mod supervisor;
pub mod laws;
pub mod fleet;

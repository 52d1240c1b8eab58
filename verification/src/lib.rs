//! A line-oriented chat relay: the wire protocol, the broadcast hub and the
//! decisions that server and client take for each connection, free of any
//! I/O.
//!
//! - `framer` cuts the bytes of a connection into lines.
//! - `text` trims lines and searches them.
//! - `wire` builds the lines and messages of the protocol.
//! - `hub` is the bounded fan-out queue that the sessions share.
//! - `session` is the server's side of one connection, as a state machine.
//! - `connection` joins a session to its place in the hub.
//! - `client` holds the client's decisions.
//! - `laws` proves what holds of all of them together.

pub mod client;
pub mod connection;
pub mod framer;
pub mod hub;
pub mod laws;
pub mod session;
pub mod text;
pub mod wire;

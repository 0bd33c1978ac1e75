//! A flow-controlled stream transport over one reliable, authenticated
//! channel: per-stream and per-connection credit windows, ordered and
//! finishable byte streams, a round-robin multiplexer, and the frame wire
//! form that carries them.
//!
//! Credit is extended eagerly: every read grants back, at once, as many bytes
//! as it took, on the stream and on the connection.
#[allow(unused_imports)]
use vstd::prelude::*;

pub mod connection;
pub mod endpoint;
pub mod error;
pub mod flow;
pub mod frame;
pub mod schedule;
pub mod stream;

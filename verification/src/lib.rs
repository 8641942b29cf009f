//! Server-side core of the VT6 terminal protocol: the wire codec for
//! length-prefixed messages, typed message facades, the per-connection state
//! machine and the handler chain that drives it.

pub mod client;
pub mod common;
pub mod draft;
pub mod msg;
pub mod server;

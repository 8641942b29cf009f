//! Types and definitions shared by VT6 servers and clients.

pub mod foundation;

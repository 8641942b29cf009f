//! The handlers for the foundation of the protocol and for the module
//! `core1`: the handshake on a new socket, the negotiation of modules, and
//! the registration of clients.

pub mod handshake;
pub mod msg;

pub use self::handshake::HandshakeHandler;
pub use self::msg::MessageHandler;
pub use self::msg::MessageHandlerExt;

//! Parts for VT6 servers: what the terminal knows of its clients and
//! screens, the state machine of a client connection, the handlers for the
//! messages that arrive on it, and the pool of all connections.

pub mod application;
pub mod auth;
pub mod connection;
pub mod core1;
pub mod dispatch;
pub mod handler;
pub mod notification;
pub mod registry;
pub mod reject;
pub mod selector;
pub mod send_buffer;


pub use self::application::Application;
pub use self::application::MessageConnector;
pub use self::application::StdoutConnector;
pub use self::auth::ClientCredentials;
pub use self::connection::Broadcast;
pub use self::connection::Connection;
pub use self::connection::ConnectionState;
pub use self::connection::ReceiveBuffer;
pub use self::dispatch::ConnectionPool;
pub use self::handler::Handler;
pub use self::handler::HandlerError;
pub use self::handler::HandshakeHandler;
pub use self::handler::MessageHandler;
pub use self::registry::Registry;
pub use self::reject::RejectHandler;
pub use self::auth::ClientIdentity;
pub use self::auth::ScreenCredentials;
pub use self::auth::ScreenIdentity;
pub use self::notification::Notification;
pub use self::selector::ClientSelector;
pub use self::send_buffer::SendBuffer;
pub use self::send_buffer::TxQueue;



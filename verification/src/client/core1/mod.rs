//! The client's side of the module `core1`.

pub mod client_id;

pub use self::client_id::ClientIDSuffix;
pub use self::client_id::RelativeClientID;

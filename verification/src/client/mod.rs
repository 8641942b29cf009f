//! Parts for VT6 clients.

pub mod core1;
pub mod env;
pub mod traits;

pub use self::env::Environment;
pub use self::env::EnvironmentError;
pub use self::env::EnvironmentRef;
pub use self::traits::DelayedResponseHandler;
pub use self::traits::Request;

//! Identifiers, argument codecs and the message codec of the foundation layer.

pub mod decimal;
pub mod decode_argument;
pub mod encode_argument;
pub mod identifiers;
pub mod text;

pub use self::decode_argument::DecodeArgument;
pub use self::encode_argument::EncodeArgument;
pub use self::encode_argument::EncodedArgument;
pub use self::identifiers::ClientID;
pub use self::identifiers::Identifier;
pub use self::identifiers::MessageType;
pub use self::identifiers::ModuleIdentifier;
pub use self::identifiers::ModuleVersion;
pub use self::identifiers::OwnedClientID;
pub use self::identifiers::ScopedIdentifier;

pub mod msg;

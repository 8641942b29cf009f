//! Parsing and formatting of messages.
//!
//! A message is a list of byte strings, the first of which is the message
//! type. On the wire it is written as `{`, the number of byte strings, `|`,
//! each byte string as its length, `:`, its bytes and `,`, and at last `}`.

pub mod display;
pub mod format;
pub mod grammar;
pub mod laws;
pub mod parse;
pub mod traits;

pub use self::format::BufferTooSmallError;
pub use self::format::MessageFormatter;
pub use self::parse::Message;
pub use self::parse::MessageIterator;
pub use self::parse::ParseError;
pub use self::parse::ParseErrorKind;
pub use self::traits::DecodeMessage;
pub use self::traits::EncodeMessage;

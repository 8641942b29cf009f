//! Notifications: what the application is told of the life of a connection.

use vstd::prelude::*;
use vstd::string::StringExecFns;
use crate::common::foundation::text::debug_quoted;
use crate::common::foundation::text::debug_quoted_text;
use crate::common::foundation::text::string_from_utf8_lossy;
use crate::common::foundation::text::utf8_lossy_text;

verus! {

/// A notification from the library to the application. Notifications carry
/// information and errors that are not fatal.
#[derive(Clone, Debug)]
pub enum Notification<'a> {
    /// A new client connection was accepted.
    ConnectionOpened,
    /// A client connection met an IO error, which is described by the text.
    ConnectionIOError(String),
    /// A client connection was closed.
    ConnectionClosed,
    /// These bytes are about to be dropped from a receive buffer, to
    /// recover from a parse error.
    IncomingBytesDiscarded(&'a [u8]),
}

impl<'a> Notification<'a> {
    /// The notification as text for people to read.
    pub open spec fn text(&self) -> Seq<char> {
        match self {
            Notification::ConnectionOpened => "client connection opened"@,
            Notification::ConnectionIOError(e) => "client connection encountered IO error: "@
                + e@,
            Notification::ConnectionClosed => "client connection closed"@,
            Notification::IncomingBytesDiscarded(buf) => "discarded invalid input: "@
                + debug_quoted_text(utf8_lossy_text(buf@)),
        }
    }

    /// Returns whether this notification is an error or only information.
    pub fn is_error(&self) -> (r: bool)
        ensures
            r == (self is ConnectionIOError),
    {
        match self {
            Notification::ConnectionOpened => false,
            Notification::ConnectionIOError(_) => true,
            Notification::ConnectionClosed => false,
            Notification::IncomingBytesDiscarded(_) => false,
        }
    }

    /// The notification as text for people to read.
    pub fn to_string(&self) -> (r: String)
        ensures
            r@ == self.text(),
    {
        match self {
            Notification::ConnectionOpened => String::from_str("client connection opened"),
            Notification::ConnectionIOError(e) => String::from_str(
                "client connection encountered IO error: ",
            ).concat(e.as_str()),
            Notification::ConnectionClosed => String::from_str("client connection closed"),
            Notification::IncomingBytesDiscarded(buf) => {
                let lossy = string_from_utf8_lossy(buf);
                let quoted = debug_quoted(lossy.as_str());
                String::from_str("discarded invalid input: ").concat(quoted.as_str())
            },
        }
    }
}

} // verus!

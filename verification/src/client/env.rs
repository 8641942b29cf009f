//! What a client learns from its parent process about the terminal that it
//! runs in. The parent hands the client a file descriptor on which one
//! `posix1.parent-hello` message waits.

use vstd::prelude::*;
use vstd::string::StringSliceAdditionalSpecFns;
use crate::common::foundation::encode_argument::append_bytes;
use crate::common::foundation::msg::grammar::read_message;
use crate::common::foundation::msg::parse::Message;
use crate::common::foundation::msg::parse::ParseError;
use crate::common::foundation::msg::parse::ParseErrorKind;
use crate::common::foundation::msg::traits::DecodeMessage;
use crate::msg::posix1::ParentHello;

verus! {

/// The number of bytes that are read from the parent at most.
pub const ENVIRONMENT_BUFFER_SIZE: usize = 1024;

/// What was read from the parent process.
#[derive(Clone, Debug)]
pub struct Environment {
    /// The bytes that were read.
    buf: Vec<u8>,
    /// Whether the file descriptor of the parent exists.
    has_vt6_terminal: bool,
}

/// The data in an [`Environment`], parsed.
#[derive(Clone, Copy, Debug)]
pub struct EnvironmentRef<'a> {
    hello: ParentHello<'a>,
}

/// The error of [`Environment::parse`].
#[derive(Clone, Copy, Debug)]
pub enum EnvironmentError<'a> {
    /// The client is not connected to a terminal that speaks VT6.
    NoVT6Terminal,
    /// What the parent has sent is no valid message.
    CorruptParentHello(ParseError<'a>),
    /// What the parent has sent is a message, but no valid
    /// `posix1.parent-hello`.
    InvalidParentHello(Message<'a>),
}

impl Environment {
    /// The bytes that were read from the parent.
    pub closed spec fn bytes(&self) -> Seq<u8> {
        self.buf@
    }

    /// Whether the file descriptor of the parent exists.
    pub closed spec fn has_terminal(&self) -> bool {
        self.has_vt6_terminal
    }

    /// The environment of a client whose parent has given it no file
    /// descriptor: it does not run in a terminal that speaks VT6.
    pub fn without_terminal() -> (r: Self)
        ensures
            !r.has_terminal(),
            r.bytes() == Seq::<u8>::empty(),
    {
        Environment { buf: Vec::new(), has_vt6_terminal: false }
    }

    /// The environment of a client that has read the given bytes from its
    /// parent.
    pub fn from_bytes(buf: Vec<u8>) -> (r: Self)
        ensures
            r.has_terminal(),
            r.bytes() == buf@,
    {
        Environment { buf, has_vt6_terminal: true }
    }

    /// Whether more must be read from the parent: what was read so far is
    /// the start of a message, and there is room for more.
    pub fn needs_more(&self) -> (r: bool)
        ensures
            r == (self.has_terminal() && self.bytes().len() < ENVIRONMENT_BUFFER_SIZE
                && read_message(self.bytes()) is Err && read_message(self.bytes())->Err_0.kind
                == ParseErrorKind::UnexpectedEOF),
    {
        if !self.has_vt6_terminal || self.buf.len() >= ENVIRONMENT_BUFFER_SIZE {
            return false;
        }
        match Message::parse(self.buf.as_slice()) {
            Ok(_) => false,
            Err(e) => e.is_incomplete(),
        }
    }

    /// Parses what was read from the parent. This can be done as often as
    /// it is needed.
    pub fn parse(&self) -> (r: Result<EnvironmentRef<'_>, EnvironmentError<'_>>)
        ensures
            match r {
                Ok(env) => self.has_terminal() && read_message(self.bytes()) is Ok
                    && ParentHello::accepts(read_message(self.bytes())->Ok_0.items)
                    && env.hello_items() == read_message(self.bytes())->Ok_0.items,
                Err(EnvironmentError::NoVT6Terminal) => !self.has_terminal(),
                Err(EnvironmentError::CorruptParentHello(e)) => self.has_terminal() && read_message(
                    self.bytes(),
                ) is Err && e.kind == read_message(self.bytes())->Err_0.kind && e.offset
                    == read_message(self.bytes())->Err_0.offset,
                Err(EnvironmentError::InvalidParentHello(m)) => self.has_terminal() && read_message(
                    self.bytes(),
                ) is Ok && !ParentHello::accepts(read_message(self.bytes())->Ok_0.items)
                    && m.items() == read_message(self.bytes())->Ok_0.items,
            },
    {
        if !self.has_vt6_terminal {
            return Err(EnvironmentError::NoVT6Terminal);
        }
        let m = match Message::parse(self.buf.as_slice()) {
            Ok((m, _)) => m,
            Err(e) => {
                return Err(EnvironmentError::CorruptParentHello(e));
            },
        };
        match ParentHello::decode_message(&m) {
            Some(hello) => Ok(EnvironmentRef { hello }),
            None => Err(EnvironmentError::InvalidParentHello(m)),
        }
    }
}

impl<'a> EnvironmentRef<'a> {
    /// The byte strings of the message of the parent.
    pub closed spec fn hello_items(&self) -> Seq<Seq<u8>> {
        self.hello.decoded_items()
    }

    /// Returns the path of the terminal's server socket in the file system.
    pub fn server_socket_path(&self) -> (r: &'a [u8])
        ensures
            self.hello_items().len() == 3,
            r@ == self.hello_items()[2],
    {
        self.hello.server_socket_path
    }

    /// Returns the secret with which the client can authenticate with the
    /// terminal.
    pub fn client_secret(&self) -> (r: &'a str)
        ensures
            self.hello_items().len() == 3,
            r.spec_bytes() == self.hello_items()[1],
    {
        self.hello.client_secret
    }
}

impl<'a> EnvironmentError<'a> {
    /// The error as text for people to read.
    pub open spec fn text(&self) -> Seq<u8> {
        match *self {
            EnvironmentError::NoVT6Terminal => "not connected to a VT6-capable terminal".spec_bytes(),
            EnvironmentError::CorruptParentHello(e) => "cannot parse ParentHello: ".spec_bytes()
                + crate::common::foundation::msg::parse::parse_error_text(e.offset, e.kind),
            EnvironmentError::InvalidParentHello(m) => "invalid ParentHello: ".spec_bytes()
                + crate::common::foundation::msg::display::render_message(
                m.mtype().bytes(),
                m.args(),
            ),
        }
    }

    /// The error as text for people to read.
    pub fn to_string(&self) -> (r: String)
        ensures
            vstd::utf8::encode_utf8(r@) == self.text(),
    {
        let mut out: Vec<u8> = Vec::new();
        match self {
            EnvironmentError::NoVT6Terminal => {
                append_bytes(&mut out, "not connected to a VT6-capable terminal".as_bytes());
                proof {
                    vstd::utf8::encode_utf8_valid_utf8("not connected to a VT6-capable terminal"@);
                }
            },
            EnvironmentError::CorruptParentHello(e) => {
                append_bytes(&mut out, "cannot parse ParentHello: ".as_bytes());
                let shown = e.to_string();
                append_bytes(&mut out, shown.as_str().as_bytes());
                proof {
                    vstd::utf8::encode_utf8_valid_utf8("cannot parse ParentHello: "@);
                    vstd::utf8::encode_utf8_valid_utf8(shown@);
                    vstd::utf8::valid_utf8_concat(
                        "cannot parse ParentHello: ".spec_bytes(),
                        vstd::utf8::encode_utf8(shown@),
                    );
                }
            },
            EnvironmentError::InvalidParentHello(msg) => {
                append_bytes(&mut out, "invalid ParentHello: ".as_bytes());
                let shown = msg.to_string();
                append_bytes(&mut out, shown.as_str().as_bytes());
                proof {
                    vstd::utf8::encode_utf8_valid_utf8("invalid ParentHello: "@);
                    vstd::utf8::encode_utf8_valid_utf8(shown@);
                    vstd::utf8::valid_utf8_concat(
                        "invalid ParentHello: ".spec_bytes(),
                        vstd::utf8::encode_utf8(shown@),
                    );
                }
            },
        }
        assert(out@ =~= self.text());
        crate::common::foundation::text::string_from_utf8_lossy(out.as_slice())
    }
}

} // verus!

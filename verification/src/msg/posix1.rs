//! The messages of the module `posix1`, which span the handshake on a new
//! socket.

use vstd::prelude::*;
use vstd::string::StringSliceAdditionalSpecFns;
use vstd::utf8::valid_utf8;
use crate::common::foundation::encode_argument::EncodeArgument;
use crate::common::foundation::identifiers::is_client_id;
use crate::common::foundation::identifiers::ClientID;
use crate::common::foundation::msg::format::BufferTooSmallError;
use crate::common::foundation::msg::format::MessageFormatter;
use crate::common::foundation::msg::parse::Message;
use crate::common::foundation::msg::traits::DecodeMessage;
use crate::common::foundation::msg::traits::EncodeMessage;
use crate::msg::has_type;
use crate::msg::optional_bytes;

verus! {

/// A `posix1.client-hello` message: a client asks for a socket that carries messages.
#[derive(Clone, Copy, Debug)]
pub struct ClientHello<'a> {
    pub secret: &'a str,
}

impl<'a> DecodeMessage<'a> for ClientHello<'a> {
    open spec fn accepts(items: Seq<Seq<u8>>) -> bool {
        &&& items.len() == 2
        &&& items[0] == "posix1.client-hello".spec_bytes()
        &&& valid_utf8(items[1])
    }

    open spec fn decoded_items(&self) -> Seq<Seq<u8>> {
        seq!["posix1.client-hello".spec_bytes(), self.secret.spec_bytes()]
    }

    fn decode_message(msg: &Message<'a>) -> (r: Option<Self>) {
        if !has_type(msg, "posix1.client-hello") {
            return None;
        }
        match msg.arguments().exactly1::<&'a str>() {
            Some(secret) => {
                let decoded = ClientHello { secret };
                assert(decoded.decoded_items() =~= msg.items()) by {
                    let items = msg.items();
                    let args = msg.args();
                    assert(items.len() == args.len() + 1);
                    assert forall|i: int| 0 <= i < args.len() implies items[i + 1] == args[i] by {}
                    assert forall|i: int| 0 <= i < items.len() implies decoded.decoded_items()[i]
                        == items[i] by {
                        if i > 0 {
                            assert(items[i] == args[i - 1]);
                        }
                    }
                }
                Some(decoded)
            },
            None => None,
        }
    }
}

impl<'a> EncodeMessage for ClientHello<'a> {
    open spec fn items(&self) -> Seq<Seq<u8>> {
        seq!["posix1.client-hello".spec_bytes(), self.secret.spec_bytes()]
    }

    fn encode(&self, buf: &mut [u8]) -> (r: Result<usize, BufferTooSmallError>) {
        let mut f = MessageFormatter::new(buf, "posix1.client-hello", 1);
        f.add_argument(self.secret);
        assert(f.items@ =~= self.items());
        f.finalize()
    }
}

/// A `posix1.parent-hello` message: what a client learns from its parent
/// about itself and the terminal.
#[derive(Clone, Copy, Debug)]
pub struct ParentHello<'a> {
    pub client_secret: &'a str,
    pub server_socket_path: &'a [u8],
}

impl<'a> DecodeMessage<'a> for ParentHello<'a> {
    open spec fn accepts(items: Seq<Seq<u8>>) -> bool {
        &&& items.len() == 3
        &&& items[0] == "posix1.parent-hello".spec_bytes()
        &&& valid_utf8(items[1])
    }

    open spec fn decoded_items(&self) -> Seq<Seq<u8>> {
        seq![
            "posix1.parent-hello".spec_bytes(),
            self.client_secret.spec_bytes(),
            self.server_socket_path@,
        ]
    }

    fn decode_message(msg: &Message<'a>) -> (r: Option<Self>) {
        if !has_type(msg, "posix1.parent-hello") {
            return None;
        }
        match msg.arguments().exactly2::<&'a str, &'a [u8]>() {
            Some((client_secret, server_socket_path)) => {
                let decoded = ParentHello { client_secret, server_socket_path };
                assert(decoded.decoded_items() =~= msg.items()) by {
                    let items = msg.items();
                    let args = msg.args();
                    assert(items.len() == args.len() + 1);
                    assert forall|i: int| 0 <= i < args.len() implies items[i + 1] == args[i] by {}
                    assert forall|i: int| 0 <= i < items.len() implies decoded.decoded_items()[i]
                        == items[i] by {
                        if i > 0 {
                            assert(items[i] == args[i - 1]);
                        }
                    }
                }
                Some(decoded)
            },
            None => None,
        }
    }
}

impl<'a> EncodeMessage for ParentHello<'a> {
    open spec fn items(&self) -> Seq<Seq<u8>> {
        seq![
            "posix1.parent-hello".spec_bytes(),
            self.client_secret.spec_bytes(),
            self.server_socket_path@,
        ]
    }

    fn encode(&self, buf: &mut [u8]) -> (r: Result<usize, BufferTooSmallError>) {
        let mut f = MessageFormatter::new(buf, "posix1.parent-hello", 2);
        f.add_argument(self.client_secret);
        f.add_argument(self.server_socket_path);
        assert(f.items@ =~= self.items());
        f.finalize()
    }
}

/// A `posix1.server-hello` message: the terminal tells a client who it is.
#[derive(Clone, Copy, Debug)]
pub struct ServerHello<'a> {
    pub client_id: ClientID<'a>,
    pub stdin_screen_id: Option<&'a str>,
    pub stdout_screen_id: Option<&'a str>,
    pub stderr_screen_id: Option<&'a str>,
}

impl<'a> DecodeMessage<'a> for ServerHello<'a> {
    open spec fn accepts(items: Seq<Seq<u8>>) -> bool {
        &&& items.len() == 5
        &&& items[0] == "posix1.server-hello".spec_bytes()
        &&& is_client_id(items[1])
        &&& items[2].len() == 0 || valid_utf8(items[2])
        &&& items[3].len() == 0 || valid_utf8(items[3])
        &&& items[4].len() == 0 || valid_utf8(items[4])
    }

    open spec fn decoded_items(&self) -> Seq<Seq<u8>> {
        seq![
            "posix1.server-hello".spec_bytes(),
            self.client_id.bytes(),
            optional_bytes(self.stdin_screen_id),
            optional_bytes(self.stdout_screen_id),
            optional_bytes(self.stderr_screen_id),
        ]
    }

    fn decode_message(msg: &Message<'a>) -> (r: Option<Self>) {
        if !has_type(msg, "posix1.server-hello") {
            return None;
        }
        match msg.arguments().exactly4::<
            ClientID<'a>,
            Option<&'a str>,
            Option<&'a str>,
            Option<&'a str>,
        >() {
            Some((client_id, stdin_screen_id, stdout_screen_id, stderr_screen_id)) => {
                let decoded = ServerHello {
                    client_id,
                    stdin_screen_id,
                    stdout_screen_id,
                    stderr_screen_id,
                };
                assert(decoded.decoded_items() =~= msg.items()) by {
                    let items = msg.items();
                    let args = msg.args();
                    assert(items.len() == args.len() + 1);
                    assert forall|i: int| 0 <= i < args.len() implies items[i + 1] == args[i] by {}
                    assert forall|i: int| 0 <= i < items.len() implies decoded.decoded_items()[i]
                        == items[i] by {
                        if i > 0 {
                            assert(items[i] == args[i - 1]);
                        }
                    }
                }
                Some(decoded)
            },
            None => None,
        }
    }
}

impl<'a> EncodeMessage for ServerHello<'a> {
    open spec fn items(&self) -> Seq<Seq<u8>> {
        seq![
            "posix1.server-hello".spec_bytes(),
            self.client_id.bytes(),
            optional_bytes(self.stdin_screen_id),
            optional_bytes(self.stdout_screen_id),
            optional_bytes(self.stderr_screen_id),
        ]
    }

    fn encode(&self, buf: &mut [u8]) -> (r: Result<usize, BufferTooSmallError>) {
        let mut f = MessageFormatter::new(buf, "posix1.server-hello", 4);
        f.add_argument(&self.client_id);
        f.add_argument(&self.stdin_screen_id);
        f.add_argument(&self.stdout_screen_id);
        f.add_argument(&self.stderr_screen_id);
        assert(f.items@ =~= self.items());
        f.finalize()
    }
}

/// A `posix1.stdin-hello` message: a client asks for a socket that carries the standard input of a screen.
#[derive(Clone, Copy, Debug)]
pub struct StdinHello<'a> {
    pub secret: &'a str,
}

impl<'a> DecodeMessage<'a> for StdinHello<'a> {
    open spec fn accepts(items: Seq<Seq<u8>>) -> bool {
        &&& items.len() == 2
        &&& items[0] == "posix1.stdin-hello".spec_bytes()
        &&& valid_utf8(items[1])
    }

    open spec fn decoded_items(&self) -> Seq<Seq<u8>> {
        seq!["posix1.stdin-hello".spec_bytes(), self.secret.spec_bytes()]
    }

    fn decode_message(msg: &Message<'a>) -> (r: Option<Self>) {
        if !has_type(msg, "posix1.stdin-hello") {
            return None;
        }
        match msg.arguments().exactly1::<&'a str>() {
            Some(secret) => {
                let decoded = StdinHello { secret };
                assert(decoded.decoded_items() =~= msg.items()) by {
                    let items = msg.items();
                    let args = msg.args();
                    assert(items.len() == args.len() + 1);
                    assert forall|i: int| 0 <= i < args.len() implies items[i + 1] == args[i] by {}
                    assert forall|i: int| 0 <= i < items.len() implies decoded.decoded_items()[i]
                        == items[i] by {
                        if i > 0 {
                            assert(items[i] == args[i - 1]);
                        }
                    }
                }
                Some(decoded)
            },
            None => None,
        }
    }
}

impl<'a> EncodeMessage for StdinHello<'a> {
    open spec fn items(&self) -> Seq<Seq<u8>> {
        seq!["posix1.stdin-hello".spec_bytes(), self.secret.spec_bytes()]
    }

    fn encode(&self, buf: &mut [u8]) -> (r: Result<usize, BufferTooSmallError>) {
        let mut f = MessageFormatter::new(buf, "posix1.stdin-hello", 1);
        f.add_argument(self.secret);
        assert(f.items@ =~= self.items());
        f.finalize()
    }
}

/// A `posix1.stdout-hello` message: a client asks for a socket that carries the standard output of a screen.
#[derive(Clone, Copy, Debug)]
pub struct StdoutHello<'a> {
    pub secret: &'a str,
}

impl<'a> DecodeMessage<'a> for StdoutHello<'a> {
    open spec fn accepts(items: Seq<Seq<u8>>) -> bool {
        &&& items.len() == 2
        &&& items[0] == "posix1.stdout-hello".spec_bytes()
        &&& valid_utf8(items[1])
    }

    open spec fn decoded_items(&self) -> Seq<Seq<u8>> {
        seq!["posix1.stdout-hello".spec_bytes(), self.secret.spec_bytes()]
    }

    fn decode_message(msg: &Message<'a>) -> (r: Option<Self>) {
        if !has_type(msg, "posix1.stdout-hello") {
            return None;
        }
        match msg.arguments().exactly1::<&'a str>() {
            Some(secret) => {
                let decoded = StdoutHello { secret };
                assert(decoded.decoded_items() =~= msg.items()) by {
                    let items = msg.items();
                    let args = msg.args();
                    assert(items.len() == args.len() + 1);
                    assert forall|i: int| 0 <= i < args.len() implies items[i + 1] == args[i] by {}
                    assert forall|i: int| 0 <= i < items.len() implies decoded.decoded_items()[i]
                        == items[i] by {
                        if i > 0 {
                            assert(items[i] == args[i - 1]);
                        }
                    }
                }
                Some(decoded)
            },
            None => None,
        }
    }
}

impl<'a> EncodeMessage for StdoutHello<'a> {
    open spec fn items(&self) -> Seq<Seq<u8>> {
        seq!["posix1.stdout-hello".spec_bytes(), self.secret.spec_bytes()]
    }

    fn encode(&self, buf: &mut [u8]) -> (r: Result<usize, BufferTooSmallError>) {
        let mut f = MessageFormatter::new(buf, "posix1.stdout-hello", 1);
        f.add_argument(self.secret);
        assert(f.items@ =~= self.items());
        f.finalize()
    }
}

} // verus!

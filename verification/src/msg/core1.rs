//! The messages of the module `core1`.

use vstd::prelude::*;
use vstd::string::StringSliceAdditionalSpecFns;
use vstd::utf8::valid_utf8;
use crate::common::foundation::encode_argument::EncodeArgument;
use crate::common::foundation::identifiers::is_client_id;
use crate::common::foundation::identifiers::ClientID;
use crate::common::foundation::msg::format::BufferTooSmallError;
use crate::common::foundation::msg::format::MessageFormatter;
use crate::common::foundation::msg::parse::Message;
use crate::common::foundation::msg::traits::DecodeMessage;
use crate::common::foundation::msg::traits::EncodeMessage;
use crate::msg::has_type;
use crate::msg::optional_bytes;

verus! {

/// A `core1.client-make` message: a client registers a new client below itself.
#[derive(Clone, Copy, Debug)]
pub struct ClientMake<'a> {
    pub client_id: ClientID<'a>,
    pub stdin_screen_id: Option<&'a str>,
    pub stdout_screen_id: Option<&'a str>,
    pub stderr_screen_id: Option<&'a str>,
}

impl<'a> DecodeMessage<'a> for ClientMake<'a> {
    open spec fn accepts(items: Seq<Seq<u8>>) -> bool {
        &&& items.len() == 5
        &&& items[0] == "core1.client-make".spec_bytes()
        &&& is_client_id(items[1])
        &&& items[2].len() == 0 || valid_utf8(items[2])
        &&& items[3].len() == 0 || valid_utf8(items[3])
        &&& items[4].len() == 0 || valid_utf8(items[4])
    }

    open spec fn decoded_items(&self) -> Seq<Seq<u8>> {
        seq![
            "core1.client-make".spec_bytes(),
            self.client_id.bytes(),
            optional_bytes(self.stdin_screen_id),
            optional_bytes(self.stdout_screen_id),
            optional_bytes(self.stderr_screen_id),
        ]
    }

    fn decode_message(msg: &Message<'a>) -> (r: Option<Self>) {
        if !has_type(msg, "core1.client-make") {
            return None;
        }
        match msg.arguments().exactly4::<
            ClientID<'a>,
            Option<&'a str>,
            Option<&'a str>,
            Option<&'a str>,
        >() {
            Some((client_id, stdin_screen_id, stdout_screen_id, stderr_screen_id)) => {
                let decoded = ClientMake {
                    client_id,
                    stdin_screen_id,
                    stdout_screen_id,
                    stderr_screen_id,
                };
                assert(decoded.decoded_items() =~= msg.items()) by {
                    let items = msg.items();
                    let args = msg.args();
                    assert(items.len() == args.len() + 1);
                    assert forall|i: int| 0 <= i < args.len() implies items[i + 1] == args[i] by {}
                    assert forall|i: int| 0 <= i < items.len() implies decoded.decoded_items()[i]
                        == items[i] by {
                        if i > 0 {
                            assert(items[i] == args[i - 1]);
                        }
                    }
                }
                Some(decoded)
            },
            None => None,
        }
    }
}

impl<'a> EncodeMessage for ClientMake<'a> {
    open spec fn items(&self) -> Seq<Seq<u8>> {
        seq![
            "core1.client-make".spec_bytes(),
            self.client_id.bytes(),
            optional_bytes(self.stdin_screen_id),
            optional_bytes(self.stdout_screen_id),
            optional_bytes(self.stderr_screen_id),
        ]
    }

    fn encode(&self, buf: &mut [u8]) -> (r: Result<usize, BufferTooSmallError>) {
        let mut f = MessageFormatter::new(buf, "core1.client-make", 4);
        f.add_argument(&self.client_id);
        f.add_argument(&self.stdin_screen_id);
        f.add_argument(&self.stdout_screen_id);
        f.add_argument(&self.stderr_screen_id);
        assert(f.items@ =~= self.items());
        f.finalize()
    }
}

/// A `core1.client-new` message: the answer to `core1.client-make`, with the secret of the new client.
#[derive(Clone, Copy, Debug)]
pub struct ClientNew<'a> {
    pub secret: &'a str,
}

impl<'a> DecodeMessage<'a> for ClientNew<'a> {
    open spec fn accepts(items: Seq<Seq<u8>>) -> bool {
        &&& items.len() == 2
        &&& items[0] == "core1.client-new".spec_bytes()
        &&& valid_utf8(items[1])
    }

    open spec fn decoded_items(&self) -> Seq<Seq<u8>> {
        seq!["core1.client-new".spec_bytes(), self.secret.spec_bytes()]
    }

    fn decode_message(msg: &Message<'a>) -> (r: Option<Self>) {
        if !has_type(msg, "core1.client-new") {
            return None;
        }
        match msg.arguments().exactly1::<&'a str>() {
            Some(secret) => {
                let decoded = ClientNew { secret };
                assert(decoded.decoded_items() =~= msg.items()) by {
                    let items = msg.items();
                    let args = msg.args();
                    assert(items.len() == args.len() + 1);
                    assert forall|i: int| 0 <= i < args.len() implies items[i + 1] == args[i] by {}
                    assert forall|i: int| 0 <= i < items.len() implies decoded.decoded_items()[i]
                        == items[i] by {
                        if i > 0 {
                            assert(items[i] == args[i - 1]);
                        }
                    }
                }
                Some(decoded)
            },
            None => None,
        }
    }
}

impl<'a> EncodeMessage for ClientNew<'a> {
    open spec fn items(&self) -> Seq<Seq<u8>> {
        seq!["core1.client-new".spec_bytes(), self.secret.spec_bytes()]
    }

    fn encode(&self, buf: &mut [u8]) -> (r: Result<usize, BufferTooSmallError>) {
        let mut f = MessageFormatter::new(buf, "core1.client-new", 1);
        f.add_argument(self.secret);
        assert(f.items@ =~= self.items());
        f.finalize()
    }
}

/// A `core1.client-end` message: a client was ended.
#[derive(Clone, Copy, Debug)]
pub struct ClientEnd<'a> {
    pub client_id: ClientID<'a>,
}

impl<'a> DecodeMessage<'a> for ClientEnd<'a> {
    open spec fn accepts(items: Seq<Seq<u8>>) -> bool {
        &&& items.len() == 2
        &&& items[0] == "core1.client-end".spec_bytes()
        &&& is_client_id(items[1])
    }

    open spec fn decoded_items(&self) -> Seq<Seq<u8>> {
        seq!["core1.client-end".spec_bytes(), self.client_id.bytes()]
    }

    fn decode_message(msg: &Message<'a>) -> (r: Option<Self>) {
        if !has_type(msg, "core1.client-end") {
            return None;
        }
        match msg.arguments().exactly1::<ClientID<'a>>() {
            Some(client_id) => {
                let decoded = ClientEnd { client_id };
                assert(decoded.decoded_items() =~= msg.items()) by {
                    let items = msg.items();
                    let args = msg.args();
                    assert(items.len() == args.len() + 1);
                    assert forall|i: int| 0 <= i < args.len() implies items[i + 1] == args[i] by {}
                    assert forall|i: int| 0 <= i < items.len() implies decoded.decoded_items()[i]
                        == items[i] by {
                        if i > 0 {
                            assert(items[i] == args[i - 1]);
                        }
                    }
                }
                Some(decoded)
            },
            None => None,
        }
    }
}

impl<'a> EncodeMessage for ClientEnd<'a> {
    open spec fn items(&self) -> Seq<Seq<u8>> {
        seq!["core1.client-end".spec_bytes(), self.client_id.bytes()]
    }

    fn encode(&self, buf: &mut [u8]) -> (r: Result<usize, BufferTooSmallError>) {
        let mut f = MessageFormatter::new(buf, "core1.client-end", 1);
        f.add_argument(&self.client_id);
        assert(f.items@ =~= self.items());
        f.finalize()
    }
}

/// A `core1.lifetime-end` message: the lifetime of a client below the sender has ended.
#[derive(Clone, Copy, Debug)]
pub struct LifetimeEnd<'a> {
    pub client_id: ClientID<'a>,
}

impl<'a> DecodeMessage<'a> for LifetimeEnd<'a> {
    open spec fn accepts(items: Seq<Seq<u8>>) -> bool {
        &&& items.len() == 2
        &&& items[0] == "core1.lifetime-end".spec_bytes()
        &&& is_client_id(items[1])
    }

    open spec fn decoded_items(&self) -> Seq<Seq<u8>> {
        seq!["core1.lifetime-end".spec_bytes(), self.client_id.bytes()]
    }

    fn decode_message(msg: &Message<'a>) -> (r: Option<Self>) {
        if !has_type(msg, "core1.lifetime-end") {
            return None;
        }
        match msg.arguments().exactly1::<ClientID<'a>>() {
            Some(client_id) => {
                let decoded = LifetimeEnd { client_id };
                assert(decoded.decoded_items() =~= msg.items()) by {
                    let items = msg.items();
                    let args = msg.args();
                    assert(items.len() == args.len() + 1);
                    assert forall|i: int| 0 <= i < args.len() implies items[i + 1] == args[i] by {}
                    assert forall|i: int| 0 <= i < items.len() implies decoded.decoded_items()[i]
                        == items[i] by {
                        if i > 0 {
                            assert(items[i] == args[i - 1]);
                        }
                    }
                }
                Some(decoded)
            },
            None => None,
        }
    }
}

impl<'a> EncodeMessage for LifetimeEnd<'a> {
    open spec fn items(&self) -> Seq<Seq<u8>> {
        seq!["core1.lifetime-end".spec_bytes(), self.client_id.bytes()]
    }

    fn encode(&self, buf: &mut [u8]) -> (r: Result<usize, BufferTooSmallError>) {
        let mut f = MessageFormatter::new(buf, "core1.lifetime-end", 1);
        f.add_argument(&self.client_id);
        assert(f.items@ =~= self.items());
        f.finalize()
    }
}

} // verus!

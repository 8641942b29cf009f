//! Typed forms of the messages that the terminal and its clients exchange.

use vstd::prelude::*;
use vstd::string::StringSliceAdditionalSpecFns;
use crate::common::foundation::decimal::decimal_digits;
use crate::common::foundation::decimal::decimal_size;
use crate::common::foundation::decimal::write_decimal;
use crate::common::foundation::decode_argument::DecodeArgument;
use crate::common::foundation::encode_argument::append_bytes;
use crate::common::foundation::encode_argument::zeroes;
use crate::common::foundation::encode_argument::EncodeArgument;
use crate::common::foundation::identifiers::bytes_equal;
use crate::common::foundation::identifiers::have_bytes;
use crate::common::foundation::identifiers::have_str;
use crate::common::foundation::identifiers::is_message_type;
use crate::common::foundation::identifiers::nope_bytes;
use crate::common::foundation::identifiers::nope_str;
use crate::common::foundation::identifiers::split_module_identifier;
use crate::common::foundation::identifiers::split_module_version;
use crate::common::foundation::identifiers::want_bytes;
use crate::common::foundation::identifiers::want_str;
use crate::common::foundation::identifiers::MessageType;
use crate::common::foundation::identifiers::ModuleIdentifier;
use crate::common::foundation::identifiers::ModuleVersion;
use crate::common::foundation::msg::format::BufferTooSmallError;
use crate::common::foundation::msg::format::MessageFormatter;
use crate::common::foundation::msg::parse::Message;
use crate::common::foundation::msg::traits::DecodeMessage;
use crate::common::foundation::msg::traits::EncodeMessage;

pub mod core1;
pub mod posix1;

verus! {

/// Whether the message is of the type with the given name.
pub fn has_type(msg: &Message<'_>, name: &str) -> (r: bool)
    ensures
        r == (msg.mtype().bytes() == name.spec_bytes()),
{
    bytes_equal(msg.parsed_type().as_str().as_bytes(), name.as_bytes())
}

/// The bytes that stand for an optional string: none for an absent one.
pub open spec fn optional_bytes(value: Option<&str>) -> Seq<u8> {
    match value {
        None => Seq::empty(),
        Some(s) => s.spec_bytes(),
    }
}

/// A `want` message: the client asks whether the terminal supports a module.
#[derive(Clone, Copy, Debug)]
pub struct Want<'a>(pub ModuleIdentifier<'a>);

impl<'a> DecodeMessage<'a> for Want<'a> {
    open spec fn accepts(items: Seq<Seq<u8>>) -> bool {
        &&& items.len() == 2
        &&& items[0] == want_bytes()
        &&& split_module_identifier(items[1]) is Some
    }

    open spec fn decoded_items(&self) -> Seq<Seq<u8>> {
        seq![want_bytes(), self.0.bytes()]
    }

    fn decode_message(msg: &Message<'a>) -> (r: Option<Self>) {
        if !has_type(msg, want_str()) {
            return None;
        }
        match msg.arguments().exactly1::<ModuleIdentifier<'a>>() {
            Some(ident) => {
                let decoded = Want(ident);
                assert(decoded.decoded_items() =~= msg.items());
                Some(decoded)
            },
            None => None,
        }
    }
}

impl<'a> EncodeMessage for Want<'a> {
    open spec fn items(&self) -> Seq<Seq<u8>> {
        seq![want_bytes(), self.0.bytes()]
    }

    fn encode(&self, buf: &mut [u8]) -> (r: Result<usize, BufferTooSmallError>) {
        let mut f = MessageFormatter::new(buf, want_str(), 1);
        f.add_argument(&self.0);
        assert(f.items@ =~= self.items());
        f.finalize()
    }
}

/// A `have` message: the terminal's answer to `want`. It names the module
/// with the minor version that is supported, or the module alone if it is
/// not supported.
#[derive(Clone, Copy, Debug)]
pub enum Have<'a> {
    ThisModule(ModuleVersion<'a>),
    NotThisModule(ModuleIdentifier<'a>),
}

impl<'a> Have<'a> {
    /// The argument of the message.
    pub open spec fn argument(&self) -> Seq<u8> {
        match *self {
            Have::ThisModule(v) => v.bytes(),
            Have::NotThisModule(m) => m.bytes(),
        }
    }
}

impl<'a> DecodeMessage<'a> for Have<'a> {
    open spec fn accepts(items: Seq<Seq<u8>>) -> bool {
        &&& items.len() == 2
        &&& items[0] == have_bytes()
        &&& split_module_version(items[1]) is Some || split_module_identifier(items[1]) is Some
    }

    open spec fn decoded_items(&self) -> Seq<Seq<u8>> {
        seq![have_bytes(), self.argument()]
    }

    fn decode_message(msg: &Message<'a>) -> (r: Option<Self>) {
        if !has_type(msg, have_str()) {
            return None;
        }
        let arg = match msg.arguments().exactly1::<&'a [u8]>() {
            Some(arg) => arg,
            None => {
                return None;
            },
        };
        let decoded = match ModuleVersion::decode_argument(arg) {
            Some(version) => Have::ThisModule(version),
            None => match ModuleIdentifier::decode_argument(arg) {
                Some(module) => Have::NotThisModule(module),
                None => {
                    return None;
                },
            },
        };
        assert(decoded.decoded_items() =~= msg.items());
        Some(decoded)
    }
}

impl<'a> EncodeMessage for Have<'a> {
    open spec fn items(&self) -> Seq<Seq<u8>> {
        seq![have_bytes(), self.argument()]
    }

    fn encode(&self, buf: &mut [u8]) -> (r: Result<usize, BufferTooSmallError>) {
        let mut f = MessageFormatter::new(buf, have_str(), 1);
        match *self {
            Have::ThisModule(ref v) => f.add_argument(v),
            Have::NotThisModule(ref m) => f.add_argument(m),
        }
        assert(f.items@ =~= self.items());
        f.finalize()
    }
}

/// A `nope` message: the terminal refuses a message of the given type.
#[derive(Clone, Copy, Debug)]
pub struct Nope<'a>(pub MessageType<'a>);

impl<'a> DecodeMessage<'a> for Nope<'a> {
    open spec fn accepts(items: Seq<Seq<u8>>) -> bool {
        &&& items.len() == 2
        &&& items[0] == nope_bytes()
        &&& is_message_type(items[1])
    }

    open spec fn decoded_items(&self) -> Seq<Seq<u8>> {
        seq![nope_bytes(), self.0.bytes()]
    }

    fn decode_message(msg: &Message<'a>) -> (r: Option<Self>) {
        if !has_type(msg, nope_str()) {
            return None;
        }
        match msg.arguments().exactly1::<MessageType<'a>>() {
            Some(mt) => {
                let decoded = Nope(mt);
                assert(decoded.decoded_items() =~= msg.items());
                Some(decoded)
            },
            None => None,
        }
    }
}

impl<'a> EncodeMessage for Nope<'a> {
    open spec fn items(&self) -> Seq<Seq<u8>> {
        seq![nope_bytes(), self.0.bytes()]
    }

    fn encode(&self, buf: &mut [u8]) -> (r: Result<usize, BufferTooSmallError>) {
        let mut f = MessageFormatter::new(buf, nope_str(), 1);
        f.add_argument(&self.0);
        assert(f.items@ =~= self.items());
        f.finalize()
    }
}

/// A module identifier with a minor version, as it is written: the module
/// identifier, a dot, and the numeral of the minor version.
pub open spec fn versioned_module(module: Seq<u8>, minor: u16) -> Seq<u8> {
    module + seq![0x2eu8] + decimal_digits(minor as nat)
}

/// The `have` message that answers a request for a module: with the minor
/// version where the module is supported, and with the module alone where it
/// is not.
#[derive(Clone, Copy, Debug)]
pub struct HaveReply<'a> {
    pub module: ModuleIdentifier<'a>,
    pub supported: Option<u16>,
}

impl<'a> HaveReply<'a> {
    /// The argument of the message.
    pub open spec fn argument(&self) -> Seq<u8> {
        match self.supported {
            Some(minor) => versioned_module(self.module.bytes(), minor),
            None => self.module.bytes(),
        }
    }
}

impl<'a> EncodeMessage for HaveReply<'a> {
    open spec fn items(&self) -> Seq<Seq<u8>> {
        seq![have_bytes(), self.argument()]
    }

    fn encode(&self, buf: &mut [u8]) -> (r: Result<usize, BufferTooSmallError>) {
        let mut f = MessageFormatter::new(buf, have_str(), 1);
        match self.supported {
            Some(minor) => {
                let mut arg: Vec<u8> = Vec::new();
                append_bytes(&mut arg, self.module.as_str().as_bytes());
                arg.push(0x2e);
                let mut digits = zeroes(decimal_size(minor as u128));
                write_decimal(minor as u128, digits.as_mut_slice());
                append_bytes(&mut arg, digits.as_slice());
                assert(arg@ =~= self.argument());
                f.add_argument(arg.as_slice());
            },
            None => f.add_argument(&self.module),
        }
        assert(f.items@ =~= self.items());
        f.finalize()
    }
}

/// A module identifier with a minor version reads as a module version, with
/// the name and major version of the module identifier.
pub proof fn lemma_versioned_module_is_module_version(module: Seq<u8>, minor: u16)
    requires
        split_module_identifier(module) is Some,
    ensures
        split_module_version(versioned_module(module, minor)) == Some(
            crate::common::foundation::identifiers::VersionParts {
                name: split_module_identifier(module)->0.name,
                major: split_module_identifier(module)->0.major,
                minor,
            },
        ),
{
    let s = versioned_module(module, minor);
    let digits = decimal_digits(minor as nat);
    crate::common::foundation::identifiers::lemma_kinds_are_disjoint(module);
    crate::common::foundation::identifiers::lemma_find_byte(module, 0x2e, 0);
    crate::common::foundation::identifiers::lemma_module_identifier_parts(module);
    // a module identifier holds no dot
    assert forall|i: int| 0 <= i < module.len() implies #[trigger] s[i] != 0x2e by {
        assert(s[i] == module[i]);
        assert(crate::common::foundation::identifiers::ident_byte(module[i]));
    }
    assert(s[module.len() as int] == 0x2e);
    crate::common::foundation::identifiers::lemma_find_byte_is(s, 0x2e, 0, module.len() as int);
    assert(s.subrange(0, module.len() as int) =~= module);
    assert(s.subrange(module.len() as int + 1, s.len() as int) =~= digits);
    crate::common::foundation::decimal::lemma_decimal_value_of_digits(minor as nat);
}

} // verus!

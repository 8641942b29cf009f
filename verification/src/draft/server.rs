//! The server's side of the draft: the negotiation of modules by name and
//! major versions, and the properties of the module `core`.

use vstd::prelude::*;
use vstd::string::StringSliceAdditionalSpecFns;
use crate::common::foundation::text::str_from_utf8;
use crate::common::foundation::decode_argument::DecodeArgument;
use crate::common::foundation::encode_argument::EncodeArgument;
use crate::common::foundation::identifiers::bytes_equal;
use crate::common::foundation::identifiers::have_bytes;
use crate::common::foundation::identifiers::have_str;
use crate::common::foundation::msg::grammar::encode_message;
use crate::common::foundation::msg::format::MessageFormatter;
use crate::common::foundation::msg::parse::MessageIterator;
use crate::draft::is_identifier;
use crate::draft::is_scoped_identifier;
use crate::draft::module_version::ModuleVersion;
use crate::draft::msg::Message;

verus! {

/// `std::time::Instant`: a point in time, of which nothing is known here.
#[verifier::external_type_specification]
#[verifier::external_body]
pub struct ExInstant(std::time::Instant);

/// `Instant::now`: the time of the call. Nothing is said of it: each call
/// gives another time.
#[verifier::external_body]
fn now() -> std::time::Instant {
    std::time::Instant::now()
}

/// What a stream of bytes between client and server carries.
#[derive(Clone, Copy, Debug, PartialEq, Eq, Structural)]
pub enum StreamMode {
    /// Messages, in both directions.
    Message,
    /// The standard streams of the client.
    Stdio,
    /// The standard input of the client.
    Stdin,
    /// The standard output of the client.
    Stdout,
}

/// The state of a stream of bytes: what it carries, and since when.
#[derive(Clone, Copy, Debug)]
pub struct StreamState {
    /// The mode that this stream is in.
    pub mode: StreamMode,
    /// When the mode was entered.
    pub entered: std::time::Instant,
}

impl StreamState {
    /// The state of a stream that enters the given mode at the time of the
    /// call.
    pub fn enter(mode: StreamMode) -> (r: StreamState)
        ensures
            r.mode == mode,
    {
        StreamState { mode, entered: now() }
    }
}

/// The state of a connection, as far as the handlers of the draft need it.
///
/// What a connection answers when it is asked is a matter of its state: the
/// spec functions name the answers, and a handler's contract says what the
/// handler does for each of them.
pub trait Connection {
    /// The mode that the stream of this connection is in.
    spec fn stream_mode(&self) -> StreamMode;

    /// The version of the module that was agreed to on this connection, if
    /// any.
    spec fn enabled(&self, name: &str) -> Option<ModuleVersion>;

    /// The greatest length in bytes of a message from the client.
    spec fn client_limit(&self) -> usize;

    /// The greatest length in bytes of a message to the client.
    spec fn server_limit(&self) -> usize;

    /// The state of the stream of this connection. A new connection is in
    /// the mode `Message`.
    fn stream_state(&self) -> (r: StreamState)
        ensures
            r.mode == self.stream_mode(),
    ;

    /// Puts the stream of this connection into another state.
    fn set_stream_state(&mut self, new: StreamState)
        ensures
            final(self).stream_mode() == new.mode,
    ;

    /// Takes note that the server has agreed to use the module in the given
    /// version on this connection. A module is agreed to once: the caller
    /// sees to it that it was not agreed to before.
    fn enable_module(&mut self, name: &str, version: ModuleVersion)
        requires
            old(self).enabled(name) is None,
        ensures
            final(self).enabled(name) == Some(version),
    ;

    /// The version of the module that was agreed to on this connection, if
    /// any.
    fn is_module_enabled(&self, name: &str) -> (r: Option<ModuleVersion>)
        ensures
            r == self.enabled(name),
    ;

    /// The greatest length in bytes of a message that this connection
    /// takes from the client.
    fn max_client_message_length(&self) -> (r: usize)
        ensures
            r == self.client_limit(),
    ;

    /// The greatest length in bytes of a message that this connection
    /// sends to the client.
    fn max_server_message_length(&self) -> (r: usize)
        ensures
            r == self.server_limit(),
    ;
}

/// A handler that stands in a chain before the handler of the module
/// `core`, or is that handler.
pub trait EarlyHandler<C: Connection> {
    /// What this handler promises of `handle`: of the result `r`, of the
    /// connection, which was `conn` and is `left`, and of the buffer, which
    /// was `before` and is `after`. A handler that promises nothing leaves
    /// this as it is.
    open spec fn takes(
        &self,
        msg: &Message<'_>,
        conn: &C,
        left: &C,
        r: Option<usize>,
        before: Seq<u8>,
        after: Seq<u8>,
    ) -> bool {
        true
    }

    /// Handles a message. The answer is written to the front of
    /// `send_buffer`; the result is its length. `None` says that the message
    /// is not valid or that no handler knows it.
    fn handle(&self, msg: &Message<'_>, conn: &mut C, send_buffer: &mut [u8]) -> (r: Option<usize>)
        ensures
            self.takes(msg, old(conn), final(conn), r, old(send_buffer)@, final(send_buffer)@),
    ;
}

/// A handler that stands in a chain behind the handler of the module
/// `core`, which decodes the messages of that module for it.
pub trait Handler<C: Connection> {
    /// The minor version in which the module can be used in the given major
    /// version on the connection, if it can be used in it.
    spec fn usable(&self, name: &str, major_version: u16, conn: &C) -> Option<u16>;

    /// What this handler promises of `handle`: of the result `r`, of the
    /// connection, which was `conn` and is `left`, and of the buffer, which
    /// was `before` and is `after`. A handler that promises nothing leaves
    /// this as it is.
    open spec fn handles(
        &self,
        msg: &Message<'_>,
        conn: &C,
        left: &C,
        r: Option<usize>,
        before: Seq<u8>,
        after: Seq<u8>,
    ) -> bool {
        true
    }

    /// What this handler promises of `subscribe_to_property` for the
    /// property of that name, in the same terms.
    open spec fn subscribes(
        &self,
        name: Seq<u8>,
        conn: &C,
        left: &C,
        r: Option<usize>,
        before: Seq<u8>,
        after: Seq<u8>,
    ) -> bool {
        true
    }

    /// What this handler promises of `set_property` for the property of
    /// that name and the value that is asked for, in the same terms.
    open spec fn sets(
        &self,
        name: Seq<u8>,
        requested_value: Seq<u8>,
        conn: &C,
        left: &C,
        r: Option<usize>,
        before: Seq<u8>,
        after: Seq<u8>,
    ) -> bool {
        true
    }

    /// Handles a message. The answer is written to the front of
    /// `send_buffer`; the result is its length. `None` says that the message
    /// is not valid or that no handler knows it.
    fn handle(&self, msg: &Message<'_>, conn: &mut C, send_buffer: &mut [u8]) -> (r: Option<usize>)
        ensures
            self.handles(msg, old(conn), final(conn), r, old(send_buffer)@, final(send_buffer)@),
    ;

    /// Whether the module can be used in the given major version on this
    /// connection, and if so, in which minor version.
    fn can_use_module(&self, name: &str, major_version: u16, conn: &C) -> (r: Option<u16>)
        ensures
            r == self.usable(name, major_version, conn),
    ;

    /// Handles a `core.sub` message for the property: writes a `core.pub`
    /// message with the value of the property.
    fn subscribe_to_property(&self, name: &str, conn: &mut C, send_buffer: &mut [u8]) -> (r: Option<
        usize,
    >)
        ensures
            self.subscribes(
                name.spec_bytes(),
                old(conn),
                final(conn),
                r,
                old(send_buffer)@,
                final(send_buffer)@,
            ),
    ;

    /// Handles a `core.set` message for the property: sets the property, if
    /// it can be set, and writes a `core.pub` message with the value that
    /// the property has then.
    fn set_property(
        &self,
        name: &str,
        requested_value: &[u8],
        conn: &mut C,
        send_buffer: &mut [u8],
    ) -> (r: Option<usize>)
        ensures
            self.sets(
                name.spec_bytes(),
                requested_value@,
                old(conn),
                final(conn),
                r,
                old(send_buffer)@,
                final(send_buffer)@,
            ),
    ;
}

/// Whether a call that had `before` as its buffer, left it as `after` and
/// returned `r` has written the message of the given byte strings: to the
/// front of the buffer, if the buffer is long enough for it, with the
/// length of the message as its result.
pub open spec fn is_answer(
    r: Option<usize>,
    before: Seq<u8>,
    after: Seq<u8>,
    items: Seq<Seq<u8>>,
) -> bool {
    &&& after.len() == before.len()
    &&& r is Some <==> encode_message(items).len() <= before.len()
    &&& r is Some ==> r->0 == encode_message(items).len() && after.subrange(0, r->0 as int)
        == encode_message(items)
}

/// Writes a message without arguments to the front of `buffer`. The result
/// is the length of the message, or `None` if the buffer is too small for
/// it.
pub fn write_bare(buffer: &mut [u8], message_type: &str) -> (r: Option<usize>)
    ensures
        is_answer(r, old(buffer)@, final(buffer)@, seq![message_type.spec_bytes()]),
{
    proof {
        assert(buffer.len() <= usize::MAX);
    }
    let ghost whole = encode_message(seq![message_type.spec_bytes()]);
    let ghost tail = old(buffer)@.subrange(whole.len() as int, old(buffer)@.len() as int);
    let f = MessageFormatter::new(buffer, message_type, 0);
    match f.finalize() {
        Ok(size) => {
            assert(size == whole.len());
            assert(buffer@ == whole + tail);
            assert((whole + tail).subrange(0, size as int) =~= whole);
            Some(size)
        },
        Err(_) => None,
    }
}

/// The byte strings of the answer to a `want` message for the module: with
/// the version that is agreed to, or without module and version if none is.
pub open spec fn have_answer(name: Seq<u8>, version: Option<ModuleVersion>) -> Seq<Seq<u8>> {
    match version {
        Some(version) => seq![have_bytes(), name, version.wire()],
        None => seq![have_bytes()],
    }
}

/// Writes the answer to a `want` message for the module to the front of
/// `buffer`. The result is the length of the message, or `None` if the
/// buffer is too small for it.
pub fn write_have(buffer: &mut [u8], name: &str, version: Option<ModuleVersion>) -> (r: Option<
    usize,
>)
    ensures
        is_answer(r, old(buffer)@, final(buffer)@, have_answer(name.spec_bytes(), version)),
{
    let version = match version {
        Some(version) => version,
        None => {
            return write_bare(buffer, have_str());
        },
    };
    proof {
        assert(buffer.len() <= usize::MAX);
    }
    let ghost whole = encode_message(have_answer(name.spec_bytes(), Some(version)));
    let ghost tail = old(buffer)@.subrange(whole.len() as int, old(buffer)@.len() as int);
    let mut f = MessageFormatter::new(buffer, have_str(), 2);
    f.add_argument(name);
    f.add_argument(&version);
    assert(f.items@ =~= have_answer(name.spec_bytes(), Some(version)));
    match f.finalize() {
        Ok(size) => {
            assert(size == whole.len());
            assert(buffer@ == whole + tail);
            assert((whole + tail).subrange(0, size as int) =~= whole);
            Some(size)
        },
        Err(_) => None,
    }
}

/// The byte strings of a `core.pub` message.
pub open spec fn publish_items(name: Seq<u8>, value: Seq<u8>) -> Seq<Seq<u8>> {
    seq!["core.pub".spec_bytes(), name, value]
}

/// Writes a `core.pub` message for the property to the front of `buffer`.
/// The result is the length of the message, or `None` if the buffer is too
/// small for it.
pub fn publish_property<T: EncodeArgument + ?Sized>(
    buffer: &mut [u8],
    property_name: &str,
    property_value: &T,
) -> (r: Option<usize>)
    ensures
        final(buffer)@.len() == old(buffer)@.len(),
        r is Some <==> crate::common::foundation::msg::grammar::encode_message(
            publish_items(property_name.spec_bytes(), property_value.wire()),
        ).len() <= old(buffer)@.len(),
        r is Some ==> r->0 == crate::common::foundation::msg::grammar::encode_message(
            publish_items(property_name.spec_bytes(), property_value.wire()),
        ).len() && final(buffer)@.subrange(0, r->0 as int)
            == crate::common::foundation::msg::grammar::encode_message(
            publish_items(property_name.spec_bytes(), property_value.wire()),
        ),
{
    proof {
        assert(buffer.len() <= usize::MAX);
    }
    let mut f = MessageFormatter::new(buffer, "core.pub", 2);
    f.add_argument(property_name);
    f.add_argument(property_value);
    assert(f.items@ =~= publish_items(property_name.spec_bytes(), property_value.wire()));
    let ghost whole = crate::common::foundation::msg::grammar::encode_message(
        publish_items(property_name.spec_bytes(), property_value.wire()),
    );
    let ghost tail = old(buffer)@.subrange(whole.len() as int, old(buffer)@.len() as int);
    match f.finalize() {
        Ok(size) => {
            assert(size == whole.len());
            assert(buffer@ == whole + tail);
            assert((whole + tail).subrange(0, size as int) =~= whole);
            Some(size)
        },
        Err(_) => None,
    }
}

/// The version that a `want` message is answered with.
pub ghost struct Choice {
    pub version: ModuleVersion,
    /// Whether the version is agreed to only now and has to be stored.
    pub store: bool,
}

/// Whether the major version at `i` is the one to take: the module can be
/// used in it, no major version that can be used is greater, and of equal
/// ones it is the first.
pub open spec fn is_best(majors: Seq<u16>, usable: Seq<Option<u16>>, i: int) -> bool {
    &&& 0 <= i < majors.len()
    &&& usable[i] is Some
    &&& forall|j: int| 0 <= j < majors.len() && usable[j] is Some ==> majors[j] <= majors[i]
    &&& forall|j: int| 0 <= j < i && usable[j] is Some ==> majors[j] < majors[i]
}

/// The choice among the major versions that a client has asked for.
/// `usable` says for each of them whether the module can be used in it, and
/// in which minor version.
///
/// Where the module was agreed to before, the answer is the same again if
/// the client asks for the major version that was agreed to, and negative if
/// not. Else the answer is the greatest major version that can be used.
pub fn pick_version(agreed: Option<ModuleVersion>, majors: &[u16], usable: &[Option<u16>]) -> (r:
    Option<(ModuleVersion, bool)>)
    requires
        majors@.len() == usable@.len(),
        forall|i: int| 0 <= i < majors@.len() ==> #[trigger] majors@[i] >= 1,
    ensures
        match (agreed, r) {
            (Some(version), Some((picked, store))) => picked == version && !store && exists|
                i: int,
            |
                0 <= i < majors@.len() && majors@[i] == version.major,
            (Some(version), None) => forall|i: int|
                0 <= i < majors@.len() ==> #[trigger] majors@[i] != version.major,
            (None, Some((picked, store))) => store && exists|i: int|
                is_best(majors@, usable@, i) && picked.major == majors@[i] && usable@[i] == Some(
                    picked.minor,
                ),
            (None, None) => forall|i: int| 0 <= i < majors@.len() ==> #[trigger] usable@[i] is None,
        },
{
    let n = majors.len();
    //did we agree to this module already?
    if let Some(agreed_version) = agreed {
        //answer consistently: positively if the same major version is
        //requested again, otherwise negatively
        let mut i: usize = 0;
        while i < n
            invariant
                agreed == Some(agreed_version),
                n == majors@.len(),
                i <= n,
                forall|j: int| 0 <= j < i ==> #[trigger] majors@[j] != agreed_version.major,
            decreases n - i,
        {
            if majors[i] == agreed_version.major {
                assert(majors@[i as int] == agreed_version.major);
                return Some((agreed_version, false));
            }
            i = i + 1;
        }
        return None;
    }
    //find the highest major version that we can agree to

    let mut best_major: u16 = 0;
    let mut best_minor: u16 = 0;
    let ghost mut best: int = -1;
    let mut i: usize = 0;
    while i < n
        invariant
            n == majors@.len(),
            n == usable@.len(),
            i <= n,
            forall|j: int| 0 <= j < majors@.len() ==> #[trigger] majors@[j] >= 1,
            best_major == 0 ==> best == -1 && forall|j: int|
                0 <= j < i ==> #[trigger] usable@[j] is None,
            best_major != 0 ==> 0 <= best < i && majors@[best] == best_major && usable@[best]
                == Some(best_minor) && (forall|j: int|
                0 <= j < i && usable@[j] is Some ==> majors@[j] <= majors@[best]) && (forall|j: int|
                0 <= j < best && usable@[j] is Some ==> majors@[j] < majors@[best]),
        decreases n - i,
    {
        if majors[i] > best_major {
            if let Some(minor_version) = usable[i] {
                best_major = majors[i];
                best_minor = minor_version;
                proof {
                    best = i as int;
                }
            }
        }
        i = i + 1;
    }
    if best_major == 0 {
        None
    } else {
        proof {
            assert(is_best(majors@, usable@, best));
        }
        Some((ModuleVersion { major: best_major, minor: best_minor }, true))
    }
}

/// Whether the byte string is the canonical numeral of a major version: of
/// a number between 1 and 65535.
pub open spec fn is_major(arg: Seq<u8>) -> bool {
    <u16 as DecodeArgument>::decodable(arg) && !<u16 as DecodeArgument>::decodes_to(arg, 0)
}

/// The major versions in the arguments of a `want` message: all the
/// arguments, if there is at least one and each is the numeral of a major
/// version.
pub fn parse_major_versions(args: MessageIterator<'_>) -> (r: Option<Vec<u16>>)
    requires
        args.wf(),
    ensures
        r is None ==> args.remaining().len() == 0 || exists|i: int|
            0 <= i < args.remaining().len() && !is_major(#[trigger] args.remaining()[i]),
        r is Some ==> args.remaining().len() > 0 && r->0@.len() == args.remaining().len()
            && forall|i: int|
            0 <= i < r->0@.len() ==> (#[trigger] r->0@[i]) >= 1 && is_major(args.remaining()[i])
                && <u16 as DecodeArgument>::decodes_to(args.remaining()[i], r->0@[i]),
{
    let mut iter = args;
    if iter.len() == 0 {
        return None;
    }
    let mut majors: Vec<u16> = Vec::new();
    let ghost all = args.remaining();
    assert(all.subrange(0, all.len() as int) =~= all);
    while iter.len() > 0
        invariant
            iter.wf(),
            all == args.remaining(),
            majors@.len() + iter.remaining().len() == all.len(),
            iter.remaining() == all.subrange(majors@.len() as int, all.len() as int),
            forall|i: int|
                0 <= i < majors@.len() ==> (#[trigger] majors@[i]) >= 1 && is_major(all[i])
                    && <u16 as DecodeArgument>::decodes_to(all[i], majors@[i]),
        decreases iter.remaining().len(),
    {
        let ghost k = majors@.len() as int;
        let ghost before = iter.remaining();
        let arg = match iter.next() {
            Some(arg) => arg,
            None => {
                return None;
            },
        };
        assert(arg@ == all[k]) by {
            assert(before[0] == all[k]);
        }
        let major = match u16::decode_argument(arg) {
            Some(major) => major,
            None => {
                assert(!is_major(all[k]));
                return None;
            },
        };
        if major == 0 {
            assert(!is_major(all[k]));
            return None;
        }
        majors.push(major);
        proof {
            assert(is_major(all[k]));
            assert(iter.remaining() =~= all.subrange(majors@.len() as int, all.len() as int));
        }
    }
    Some(majors)
}

/// Keeps track of the modules that the server has agreed to on one
/// connection.
#[derive(Clone, Debug)]
pub struct Tracker {
    agreed_modules: Vec<(String, ModuleVersion)>,
}

impl Tracker {
    /// The version of the module in the list, if the list holds the module.
    pub open spec fn lookup(list: Seq<(String, ModuleVersion)>, name: Seq<u8>) -> Option<
        ModuleVersion,
    >
        decreases list.len(),
    {
        if list.len() == 0 {
            None
        } else if vstd::utf8::encode_utf8(list[0].0@) == name {
            Some(list[0].1)
        } else {
            Self::lookup(list.drop_first(), name)
        }
    }

    /// The modules that were agreed to, with their versions.
    pub closed spec fn modules(&self) -> Seq<(String, ModuleVersion)> {
        self.agreed_modules@
    }

    /// The version of the module that was agreed to, if any.
    pub open spec fn enabled(&self, name: Seq<u8>) -> Option<ModuleVersion> {
        Self::lookup(self.modules(), name)
    }

    /// A tracker that holds no module.
    pub fn new() -> (r: Tracker)
        ensures
            r.modules() == Seq::<(String, ModuleVersion)>::empty(),
    {
        Tracker { agreed_modules: Vec::new() }
    }

    /// Takes note that the server has agreed to use the module in the given
    /// version. A module is agreed to once.
    pub fn enable_module(&mut self, name: &str, version: ModuleVersion)
        requires
            old(self).enabled(name.spec_bytes()) is None,
        ensures
            final(self).enabled(name.spec_bytes()) == Some(version),
            forall|other: Seq<u8>|
                other != name.spec_bytes() ==> final(self).enabled(other) == old(self).enabled(
                    other,
                ),
    {
        self.agreed_modules.push((name.to_owned(), version));
        proof {
            let before = old(self).modules();
            let added = (self.agreed_modules@.last().0, version);
            assert(self.modules() =~= before.push(added));
            assert forall|other: Seq<u8>| true implies Self::lookup(
                before.push(added),
                other,
            ) == (if Self::lookup(before, other) is Some {
                Self::lookup(before, other)
            } else if other == name.spec_bytes() {
                Some(version)
            } else {
                None
            }) by {
                Self::lemma_lookup_push(before, added, other);
            }
        }
    }

    /// Looking up in a list with one more entry at its end.
    proof fn lemma_lookup_push(
        list: Seq<(String, ModuleVersion)>,
        added: (String, ModuleVersion),
        name: Seq<u8>,
    )
        ensures
            Self::lookup(list.push(added), name) == (if Self::lookup(list, name) is Some {
                Self::lookup(list, name)
            } else if vstd::utf8::encode_utf8(added.0@) == name {
                Some(added.1)
            } else {
                None
            }),
        decreases list.len(),
    {
        reveal_with_fuel(Tracker::lookup, 3);
        if list.len() == 0 {
            assert(list.push(added).drop_first() =~= Seq::<(String, ModuleVersion)>::empty());
            assert(list.push(added)[0] == added);
        } else {
            assert(list.push(added).drop_first() =~= list.drop_first().push(added));
            assert(list.push(added)[0] == list[0]);
            Self::lemma_lookup_push(list.drop_first(), added, name);
        }
    }

    /// The version of the module that was agreed to, if any.
    pub fn is_module_enabled(&self, name: &str) -> (r: Option<ModuleVersion>)
        ensures
            r == self.enabled(name.spec_bytes()),
    {
        let n = self.agreed_modules.len();
        let mut i: usize = 0;
        assert(self.agreed_modules@.subrange(0, n as int) =~= self.agreed_modules@);
        while i < n
            invariant
                n == self.agreed_modules@.len(),
                i <= n,
                self.enabled(name.spec_bytes()) == Self::lookup(
                    self.agreed_modules@.subrange(i as int, n as int),
                    name.spec_bytes(),
                ),
            decreases n - i,
        {
            let ghost rest = self.agreed_modules@.subrange(i as int, n as int);
            proof {
                assert(rest.drop_first() =~= self.agreed_modules@.subrange(i + 1, n as int));
                assert(rest[0] == self.agreed_modules@[i as int]);
            }
            if same_text(self.agreed_modules[i].0.as_str(), name) {
                return Some(self.agreed_modules[i].1);
            }
            i = i + 1;
        }
        proof {
            assert(self.agreed_modules@.subrange(0, n as int) =~= self.agreed_modules@);
        }
        None
    }
}

/// Whether two strings are written the same.
pub fn same_text(a: &str, b: &str) -> (r: bool)
    ensures
        r == (a.spec_bytes() == b.spec_bytes()),
{
    bytes_equal(a.as_bytes(), b.as_bytes())
}

/// Whether the arguments of a `want` message are valid: the name of a
/// module, and behind it at least one major version.
pub open spec fn is_valid_want(args: Seq<Seq<u8>>) -> bool {
    &&& args.len() >= 2
    &&& crate::draft::is_draft_identifier(args[0])
    &&& forall|i: int| 1 <= i < args.len() ==> is_major(#[trigger] args[i])
}

/// Whether the arguments of a `core.sub` message are valid: the name of one
/// property.
pub open spec fn is_valid_sub(args: Seq<Seq<u8>>) -> bool {
    &&& args.len() == 1
    &&& crate::draft::split_draft_scoped(args[0]) is Some
}

/// Whether the arguments of a `core.set` message are valid: the name of one
/// property, and a value.
pub open spec fn is_valid_set(args: Seq<Seq<u8>>) -> bool {
    &&& args.len() == 2
    &&& crate::draft::split_draft_scoped(args[0]) is Some
}

/// Whether the module `core` was agreed to in its major version 1 on the
/// connection.
pub open spec fn core1_agreed<C: Connection>(conn: &C) -> bool {
    conn.enabled("core") is Some && conn.enabled("core")->0.major == 1
}

/// Whether the module `posix` was agreed to in its major version 1 on the
/// connection.
pub open spec fn posix1_agreed<C: Connection>(conn: &C) -> bool {
    conn.enabled("posix") is Some && conn.enabled("posix")->0.major == 1
}

/// The value of a property that the handler of the module `core` holds
/// itself: the limits of the connection on the length of a message.
pub open spec fn core_property<C: Connection>(name: Seq<u8>, conn: &C) -> Option<usize> {
    if name == "core.server-msg-bytes-max".spec_bytes() {
        Some(conn.server_limit())
    } else if name == "core.client-msg-bytes-max".spec_bytes() {
        Some(conn.client_limit())
    } else {
        None
    }
}

/// What holds of the answer to a request for the property of that name,
/// where the handler of the module `core` holds the property itself: it
/// publishes the value that the property has, and leaves the connection as
/// it is. Any other property is left to the next handlers. `conn` is the
/// connection before the request and `left` the connection after it.
pub open spec fn publishes<C: Connection>(
    name: Seq<u8>,
    conn: &C,
    left: &C,
    r: Option<usize>,
    before: Seq<u8>,
    after: Seq<u8>,
) -> bool {
    core_property(name, conn) is Some ==> left == conn && is_answer(
        r,
        before,
        after,
        publish_items(name, core_property(name, conn)->0.wire()),
    )
}

/// Whether `pick` is the choice among the major versions that a client has
/// asked for: where the module was agreed to before, that version again if
/// its major version is asked for, and none if it is not; else the greatest
/// major version that can be used, with its minor version.
pub open spec fn is_pick(
    agreed: Option<ModuleVersion>,
    majors: Seq<u16>,
    usable: Seq<Option<u16>>,
    pick: Option<ModuleVersion>,
) -> bool {
    match agreed {
        Some(version) => if exists|i: int| 0 <= i < majors.len() && majors[i] == version.major {
            pick == Some(version)
        } else {
            pick is None
        },
        None => match pick {
            Some(picked) => exists|i: int|
                is_best(majors, usable, i) && picked.major == majors[i] && usable[i] == Some(
                    picked.minor,
                ),
            None => forall|i: int| 0 <= i < majors.len() ==> #[trigger] usable[i] is None,
        },
    }
}

/// The handler of the module `core` in the draft. It answers `want`
/// messages, for which it asks the handlers behind it which modules they
/// can use, and decodes the messages `core.sub` and `core.set` for them.
#[derive(Clone, Copy, Debug)]
pub struct CoreHandler<H> {
    next: H,
}

impl<H> CoreHandler<H> {
    /// The next handler in the chain.
    pub closed spec fn next_handler(&self) -> H {
        self.next
    }

    /// Makes the handler. The argument is the next handler in the chain.
    pub fn new(next: H) -> (r: Self)
        ensures
            r.next_handler() == next,
    {
        CoreHandler { next }
    }

    /// Whether the module `core` was agreed to in its major version 1 on
    /// this connection.
    fn has_core1<C: Connection>(conn: &C) -> (r: bool)
        ensures
            r == core1_agreed(conn),
    {
        match conn.is_module_enabled("core") {
            Some(version) => version.major == 1,
            None => false,
        }
    }

    /// Whether `pick` is the version that this handler agrees to for a
    /// `want` message with the given arguments on the connection. `name` is
    /// the module and `majors` are the major versions that the arguments
    /// hold.
    pub open spec fn picks<C: Connection>(
        &self,
        args: Seq<Seq<u8>>,
        conn: &C,
        name: &str,
        majors: Seq<u16>,
        pick: Option<ModuleVersion>,
    ) -> bool where H: Handler<C> {
        &&& args.len() >= 1
        &&& name.spec_bytes() == args[0]
        &&& majors.len() == args.len() - 1
        &&& forall|i: int|
            0 <= i < majors.len() ==> <u16 as DecodeArgument>::decodes_to(
                args[i + 1],
                #[trigger] majors[i],
            )
        &&& is_pick(
            conn.enabled(name),
            majors,
            Seq::new(
                majors.len(),
                |i: int| <Self as Handler<C>>::usable(self, name, majors[i], conn),
            ),
            pick,
        )
    }

    /// What holds of the answer to a `want` message with the given
    /// arguments. A valid message is answered with `have`, the module and
    /// the version that the handler agrees to, or with `have` alone if it
    /// agrees to none. A version that is agreed to only now is noted on the
    /// connection; where nothing new is agreed to, the connection stays as
    /// it is. A message that is not valid gets no answer. `conn` is the
    /// connection before the message and `left` the connection after it.
    pub open spec fn want_outcome<C: Connection>(
        &self,
        args: Seq<Seq<u8>>,
        conn: &C,
        left: &C,
        r: Option<usize>,
        before: Seq<u8>,
        after: Seq<u8>,
    ) -> bool where H: Handler<C> {
        if is_valid_want(args) {
            exists|name: &str, majors: Seq<u16>, pick: Option<ModuleVersion>|
                #[trigger] self.picks(args, conn, name, majors, pick) && is_answer(
                    r,
                    before,
                    after,
                    have_answer(args[0], pick),
                ) && if pick is None || conn.enabled(name) is Some {
                    left == conn
                } else {
                    left.enabled(name) == pick
                }
        } else {
            r is None
        }
    }

    /// What holds of the answer to a request for the property of that
    /// name: to subscribe to it, or to set it to the value that is asked
    /// for. Of the properties that this handler holds itself it publishes
    /// the value, whatever is asked for; any other property is left to the
    /// next handlers.
    pub open spec fn property_outcome<C: Connection>(
        &self,
        name: Seq<u8>,
        requested_value: Option<Seq<u8>>,
        conn: &C,
        left: &C,
        r: Option<usize>,
        before: Seq<u8>,
        after: Seq<u8>,
    ) -> bool where H: Handler<C> {
        if core_property(name, conn) is Some {
            publishes(name, conn, left, r, before, after)
        } else {
            match requested_value {
                Some(value) => self.next_handler().sets(name, value, conn, left, r, before, after),
                None => self.next_handler().subscribes(name, conn, left, r, before, after),
            }
        }
    }

    /// What holds of the answer to a message: the messages `want`,
    /// `core.sub` and `core.set` are this handler's, the last two once the
    /// module `core` is agreed to in its major version 1; any other message
    /// is left to the next handlers.
    pub open spec fn outcome<C: Connection>(
        &self,
        msg: &Message<'_>,
        conn: &C,
        left: &C,
        r: Option<usize>,
        before: Seq<u8>,
        after: Seq<u8>,
    ) -> bool where H: Handler<C> {
        if msg.module_bytes().len() == 0 && msg.member_bytes() == "want".spec_bytes() {
            self.want_outcome(msg.args(), conn, left, r, before, after)
        } else if core1_agreed(conn) && msg.module_bytes() == "core".spec_bytes()
            && msg.member_bytes() == "sub".spec_bytes() {
            if is_valid_sub(msg.args()) {
                self.property_outcome(msg.args()[0], None, conn, left, r, before, after)
            } else {
                r is None
            }
        } else if core1_agreed(conn) && msg.module_bytes() == "core".spec_bytes()
            && msg.member_bytes() == "set".spec_bytes() {
            if is_valid_set(msg.args()) {
                self.property_outcome(
                    msg.args()[0],
                    Some(msg.args()[1]),
                    conn,
                    left,
                    r,
                    before,
                    after,
                )
            } else {
                r is None
            }
        } else {
            self.next_handler().handles(msg, conn, left, r, before, after)
        }
    }

    /// Handles a `want` message: answers with `have`, the name of the
    /// module and the version that was agreed to, or with `have` alone if
    /// the module can be used in none of the versions. `None` says that the
    /// message is not valid.
    fn handle_want<C: Connection>(&self, msg: &Message<'_>, conn: &mut C, send_buffer: &mut [u8]) -> (r:
        Option<usize>) where H: Handler<C>
        ensures
            self.want_outcome(
                msg.args(),
                old(conn),
                final(conn),
                r,
                old(send_buffer)@,
                final(send_buffer)@,
            ),
    {
        //validate arguments: first argument is module name
        let mut args_iter = msg.arguments();
        let ghost all = msg.args();
        let ghost conn_before = *conn;
        let module_name = match args_iter.next() {
            Some(arg) => match str_from_utf8(arg) {
                Some(name) => name,
                None => {
                    proof {
                        if is_valid_want(all) {
                            crate::draft::lemma_draft_identifier_is_ascii(all[0]);
                            crate::common::foundation::text::lemma_ascii_is_utf8(all[0]);
                        }
                    }
                    return None;
                },
            },
            None => {
                return None;
            },
        };
        if !is_identifier(module_name) {
            return None;
        }
        //validate arguments: remaining arguments are major versions, need at
        //least one

        let ghost rest = args_iter.remaining();
        proof {
            assert(rest == all.drop_first());
            assert(all[0] == module_name.spec_bytes());
        }
        let majors = match parse_major_versions(args_iter) {
            Some(majors) => majors,
            None => {
                proof {
                    if rest.len() > 0 {
                        let i = choose|i: int| 0 <= i < rest.len() && !is_major(#[trigger] rest[i]);
                        assert(all[i + 1] == rest[i]);
                    }
                }
                return None;
            },
        };
        proof {
            assert forall|i: int| 1 <= i < all.len() implies is_major(#[trigger] all[i]) by {
                assert(all[i] == rest[i - 1]);
                assert(majors@[i - 1] >= 1);
            }
            assert(is_valid_want(all));
        }
        let agreed = conn.is_module_enabled(module_name);
        let mut usable: Vec<Option<u16>> = Vec::new();
        let mut i: usize = 0;
        while i < majors.len()
            invariant
                i <= majors@.len(),
                usable@.len() == i,
                *conn == conn_before,
                forall|j: int|
                    0 <= j < i ==> #[trigger] usable@[j] == <Self as Handler<C>>::usable(
                        self,
                        module_name,
                        majors@[j],
                        &conn_before,
                    ),
            decreases majors@.len() - i,
        {
            usable.push(<Self as Handler<C>>::can_use_module(self, module_name, majors[i], conn));
            i = i + 1;
        }
        let picked = pick_version(agreed, majors.as_slice(), usable.as_slice());
        let ghost pick: Option<ModuleVersion> = match picked {
            Some((version, _)) => Some(version),
            None => None,
        };
        proof {
            let named = Seq::new(
                majors@.len(),
                |i: int| <Self as Handler<C>>::usable(self, module_name, majors@[i], &conn_before),
            );
            assert(usable@ =~= named);
            assert(is_pick(agreed, majors@, named, pick));
            assert forall|i: int| 0 <= i < majors@.len() implies <u16 as DecodeArgument>::decodes_to(
                all[i + 1],
                #[trigger] majors@[i],
            ) by {
                assert(all[i + 1] == rest[i]);
            }
            assert(self.picks(all, &conn_before, module_name, majors@, pick));
        }
        match picked {
            Some((version, store)) => {
                if store {
                    conn.enable_module(module_name, version);
                }
                write_have(send_buffer, module_name, Some(version))
            },
            None => write_have(send_buffer, module_name, None),
        }
    }

    /// Handles a `core.sub` message: it must hold the name of one property.
    fn subscribe<C: Connection>(&self, msg: &Message<'_>, conn: &mut C, send_buffer: &mut [u8]) -> (r:
        Option<usize>) where H: Handler<C>
        ensures
            !is_valid_sub(msg.args()) ==> r is None,
            is_valid_sub(msg.args()) ==> self.property_outcome(
                msg.args()[0],
                None,
                old(conn),
                final(conn),
                r,
                old(send_buffer)@,
                final(send_buffer)@,
            ),
    {
        proof {
            if is_valid_sub(msg.args()) {
                crate::draft::lemma_draft_type_is_ascii(msg.args()[0]);
                crate::common::foundation::text::lemma_ascii_is_utf8(msg.args()[0]);
            }
        }
        //expect exactly one argument (property name)
        let name = match msg.arguments().exactly1::<&str>() {
            Some(name) => name,
            None => {
                return None;
            },
        };
        if is_scoped_identifier(name).is_none() {
            return None;
        }
        <Self as Handler<C>>::subscribe_to_property(self, name, conn, send_buffer)
    }

    /// Handles a `core.set` message: it must hold the name of one property
    /// and the value that is asked for.
    fn set<C: Connection>(&self, msg: &Message<'_>, conn: &mut C, send_buffer: &mut [u8]) -> (r:
        Option<usize>) where H: Handler<C>
        ensures
            !is_valid_set(msg.args()) ==> r is None,
            is_valid_set(msg.args()) ==> self.property_outcome(
                msg.args()[0],
                Some(msg.args()[1]),
                old(conn),
                final(conn),
                r,
                old(send_buffer)@,
                final(send_buffer)@,
            ),
    {
        proof {
            if is_valid_set(msg.args()) {
                crate::draft::lemma_draft_type_is_ascii(msg.args()[0]);
                crate::common::foundation::text::lemma_ascii_is_utf8(msg.args()[0]);
            }
        }
        //expects exactly two arguments (property name and requested value)
        let (name, requested_value) = match msg.arguments().exactly2::<&str, &[u8]>() {
            Some(args) => args,
            None => {
                return None;
            },
        };
        if is_scoped_identifier(name).is_none() {
            return None;
        }
        <Self as Handler<C>>::set_property(self, name, requested_value, conn, send_buffer)
    }
}

impl<C: Connection, H: Handler<C>> EarlyHandler<C> for CoreHandler<H> {
    open spec fn takes(
        &self,
        msg: &Message<'_>,
        conn: &C,
        left: &C,
        r: Option<usize>,
        before: Seq<u8>,
        after: Seq<u8>,
    ) -> bool {
        self.outcome(msg, conn, left, r, before, after)
    }

    fn handle(&self, msg: &Message<'_>, conn: &mut C, send_buffer: &mut [u8]) -> (r: Option<usize>) {
        let has_core1 = Self::has_core1(conn);
        let (module, member) = msg.message_type();
        if module.as_bytes().len() == 0 && same_text(member, "want") {
            self.handle_want(msg, conn, send_buffer)
        } else if has_core1 && same_text(module, "core") && same_text(member, "sub") {
            self.subscribe(msg, conn, send_buffer)
        } else if has_core1 && same_text(module, "core") && same_text(member, "set") {
            self.set(msg, conn, send_buffer)
        } else {
            //forward unrecognized messages to next handler
            self.next.handle(msg, conn, send_buffer)
        }
    }
}

impl<C: Connection, H: Handler<C>> Handler<C> for CoreHandler<H> {
    open spec fn handles(
        &self,
        msg: &Message<'_>,
        conn: &C,
        left: &C,
        r: Option<usize>,
        before: Seq<u8>,
        after: Seq<u8>,
    ) -> bool {
        self.outcome(msg, conn, left, r, before, after)
    }

    open spec fn subscribes(
        &self,
        name: Seq<u8>,
        conn: &C,
        left: &C,
        r: Option<usize>,
        before: Seq<u8>,
        after: Seq<u8>,
    ) -> bool {
        self.property_outcome(name, None, conn, left, r, before, after)
    }

    open spec fn sets(
        &self,
        name: Seq<u8>,
        requested_value: Seq<u8>,
        conn: &C,
        left: &C,
        r: Option<usize>,
        before: Seq<u8>,
        after: Seq<u8>,
    ) -> bool {
        self.property_outcome(name, Some(requested_value), conn, left, r, before, after)
    }

    fn handle(&self, msg: &Message<'_>, conn: &mut C, send_buffer: &mut [u8]) -> (r: Option<usize>) {
        <Self as EarlyHandler<C>>::handle(self, msg, conn, send_buffer)
    }

    open spec fn usable(&self, name: &str, major_version: u16, conn: &C) -> Option<u16> {
        if name.spec_bytes() == "core".spec_bytes() {
            if major_version == 1 {
                Some(0u16)
            } else {
                None
            }
        } else {
            self.next_handler().usable(name, major_version, conn)
        }
    }

    fn can_use_module(&self, name: &str, major_version: u16, conn: &C) -> (r: Option<u16>) {
        if same_text(name, "core") {
            if major_version == 1 {
                Some(0)
            } else {
                None
            }
        } else {
            self.next.can_use_module(name, major_version, conn)
        }
    }

    fn subscribe_to_property(&self, name: &str, conn: &mut C, send_buffer: &mut [u8]) -> (r: Option<
        usize,
    >) {
        if same_text(name, "core.server-msg-bytes-max") {
            publish_property(send_buffer, name, &conn.max_server_message_length())
        } else if same_text(name, "core.client-msg-bytes-max") {
            publish_property(send_buffer, name, &conn.max_client_message_length())
        } else {
            self.next.subscribe_to_property(name, conn, send_buffer)
        }
    }

    fn set_property(
        &self,
        name: &str,
        requested_value: &[u8],
        conn: &mut C,
        send_buffer: &mut [u8],
    ) -> (r: Option<usize>) {
        // we do not support changing any properties yet, so just return the
        // current value
        if same_text(name, "core.server-msg-bytes-max") {
            publish_property(send_buffer, name, &conn.max_server_message_length())
        } else if same_text(name, "core.client-msg-bytes-max") {
            publish_property(send_buffer, name, &conn.max_client_message_length())
        } else {
            self.next.set_property(name, requested_value, conn, send_buffer)
        }
    }
}

/// The handler of the module `posix` in the draft. With the messages
/// `posix.to-stdin` and `posix.to-stdout` a client turns the stream, which
/// has carried messages, into its standard input or output.
#[derive(Clone, Copy, Debug)]
pub struct PosixHandler<H> {
    next: H,
}

/// The name of the message that enters the mode, and with which it is
/// answered.
pub fn entering_message(mode: StreamMode) -> (r: Option<&'static str>)
    ensures
        r is Some <==> mode == StreamMode::Stdin || mode == StreamMode::Stdout,
        mode == StreamMode::Stdin ==> r == Some("posix.to-stdin"),
        mode == StreamMode::Stdout ==> r == Some("posix.to-stdout"),
{
    match mode {
        StreamMode::Stdin => Some("posix.to-stdin"),
        StreamMode::Stdout => Some("posix.to-stdout"),
        _ => None,
    }
}

/// The bytes of the name of the message that enters the mode.
pub open spec fn entering_bytes(mode: StreamMode) -> Seq<u8> {
    match mode {
        StreamMode::Stdin => "posix.to-stdin".spec_bytes(),
        StreamMode::Stdout => "posix.to-stdout".spec_bytes(),
        _ => Seq::<u8>::empty(),
    }
}

/// What holds of the answer to a message that asks to put the stream into
/// the given mode, with the given arguments. If the message has no
/// arguments and the stream carries messages, the stream is put into the
/// mode and the answer is the same message; else there is no answer, and
/// the connection stays as it is. `conn` is the connection before the
/// message and `left` the connection after it.
pub open spec fn enter_outcome<C: Connection>(
    mode: StreamMode,
    args: Seq<Seq<u8>>,
    conn: &C,
    left: &C,
    r: Option<usize>,
    before: Seq<u8>,
    after: Seq<u8>,
) -> bool {
    if args.len() == 0 && (mode == StreamMode::Stdin || mode == StreamMode::Stdout)
        && conn.stream_mode() == StreamMode::Message {
        left.stream_mode() == mode && is_answer(r, before, after, seq![entering_bytes(mode)])
    } else {
        left == conn && r is None
    }
}

impl<H> PosixHandler<H> {
    /// What holds of the answer to a message: the messages `posix.to-stdin`
    /// and `posix.to-stdout` are this handler's, once the module `posix` is
    /// agreed to in its major version 1; any other message is left to the
    /// next handlers.
    pub open spec fn outcome<C: Connection>(
        &self,
        msg: &Message<'_>,
        conn: &C,
        left: &C,
        r: Option<usize>,
        before: Seq<u8>,
        after: Seq<u8>,
    ) -> bool where H: Handler<C> {
        if posix1_agreed(conn) && msg.module_bytes() == "posix".spec_bytes() && msg.member_bytes()
            == "to-stdin".spec_bytes() {
            enter_outcome(StreamMode::Stdin, msg.args(), conn, left, r, before, after)
        } else if posix1_agreed(conn) && msg.module_bytes() == "posix".spec_bytes()
            && msg.member_bytes() == "to-stdout".spec_bytes() {
            enter_outcome(StreamMode::Stdout, msg.args(), conn, left, r, before, after)
        } else {
            self.next_handler().handles(msg, conn, left, r, before, after)
        }
    }

    /// The next handler in the chain.
    pub closed spec fn next_handler(&self) -> H {
        self.next
    }

    /// Makes the handler. The argument is the next handler in the chain.
    pub fn new(next: H) -> (r: Self)
        ensures
            r.next_handler() == next,
    {
        PosixHandler { next }
    }

    /// Whether the module `posix` was agreed to in its major version 1 on
    /// this connection.
    fn has_posix1<C: Connection>(conn: &C) -> (r: bool)
        ensures
            r == posix1_agreed(conn),
    {
        match conn.is_module_enabled("posix") {
            Some(version) => version.major == 1,
            None => false,
        }
    }

    /// Puts the stream into the given mode, if the message has no arguments
    /// and the stream carries messages, and answers with the same message.
    fn enter_state<C: Connection>(
        &self,
        mode: StreamMode,
        msg: &Message<'_>,
        conn: &mut C,
        send_buffer: &mut [u8],
    ) -> (r: Option<usize>)
        ensures
            enter_outcome(
                mode,
                msg.args(),
                old(conn),
                final(conn),
                r,
                old(send_buffer)@,
                final(send_buffer)@,
            ),
    {
        //expect no arguments
        if msg.arguments().len() != 0 {
            return None;
        }
        let answer = match entering_message(mode) {
            Some(answer) => answer,
            None => {
                return None;
            },
        };
        //expect the mode `Message` before switching to the standard streams
        if conn.stream_state().mode != StreamMode::Message {
            return None;
        }
        conn.set_stream_state(StreamState::enter(mode));
        write_bare(send_buffer, answer)
    }
}

impl<C: Connection, H: Handler<C>> Handler<C> for PosixHandler<H> {
    open spec fn handles(
        &self,
        msg: &Message<'_>,
        conn: &C,
        left: &C,
        r: Option<usize>,
        before: Seq<u8>,
        after: Seq<u8>,
    ) -> bool {
        self.outcome(msg, conn, left, r, before, after)
    }

    open spec fn subscribes(
        &self,
        name: Seq<u8>,
        conn: &C,
        left: &C,
        r: Option<usize>,
        before: Seq<u8>,
        after: Seq<u8>,
    ) -> bool {
        self.next_handler().subscribes(name, conn, left, r, before, after)
    }

    open spec fn sets(
        &self,
        name: Seq<u8>,
        requested_value: Seq<u8>,
        conn: &C,
        left: &C,
        r: Option<usize>,
        before: Seq<u8>,
        after: Seq<u8>,
    ) -> bool {
        self.next_handler().sets(name, requested_value, conn, left, r, before, after)
    }

    fn handle(&self, msg: &Message<'_>, conn: &mut C, send_buffer: &mut [u8]) -> (r: Option<usize>) {
        let has_posix1 = Self::has_posix1(conn);
        let (module, member) = msg.message_type();
        if has_posix1 && same_text(module, "posix") && same_text(member, "to-stdin") {
            self.enter_state(StreamMode::Stdin, msg, conn, send_buffer)
        } else if has_posix1 && same_text(module, "posix") && same_text(member, "to-stdout") {
            self.enter_state(StreamMode::Stdout, msg, conn, send_buffer)
        } else {
            //forward unrecognized messages to next handler
            self.next.handle(msg, conn, send_buffer)
        }
    }

    open spec fn usable(&self, name: &str, major_version: u16, conn: &C) -> Option<u16> {
        if name.spec_bytes() == "posix".spec_bytes() {
            if major_version == 1 {
                Some(0u16)
            } else {
                None
            }
        } else {
            self.next_handler().usable(name, major_version, conn)
        }
    }

    fn can_use_module(&self, name: &str, major_version: u16, conn: &C) -> (r: Option<u16>) {
        if same_text(name, "posix") {
            if major_version == 1 {
                Some(0)
            } else {
                None
            }
        } else {
            self.next.can_use_module(name, major_version, conn)
        }
    }

    fn subscribe_to_property(&self, name: &str, conn: &mut C, send_buffer: &mut [u8]) -> (r: Option<
        usize,
    >) {
        self.next.subscribe_to_property(name, conn, send_buffer)
    }

    fn set_property(
        &self,
        name: &str,
        requested_value: &[u8],
        conn: &mut C,
        send_buffer: &mut [u8],
    ) -> (r: Option<usize>) {
        self.next.set_property(name, requested_value, conn, send_buffer)
    }
}

/// Writes the bare `nope` message, with which the draft answers a message
/// that is not valid or that no handler knows, to the front of the buffer.
/// The result is the length of the message, or `None` if the buffer is too
/// small for it.
pub fn write_nope(send_buffer: &mut [u8]) -> (r: Option<usize>)
    ensures
        final(send_buffer)@.len() == old(send_buffer)@.len(),
        r is Some <==> crate::common::foundation::msg::grammar::encode_message(
            seq![crate::common::foundation::identifiers::nope_bytes()],
        ).len() <= old(send_buffer)@.len(),
        r is Some ==> r->0 <= old(send_buffer)@.len() && final(send_buffer)@.subrange(
            0,
            r->0 as int,
        ) == crate::common::foundation::msg::grammar::encode_message(
            seq![crate::common::foundation::identifiers::nope_bytes()],
        ),
{
    proof {
        assert(send_buffer.len() <= usize::MAX);
    }
    let ghost whole = crate::common::foundation::msg::grammar::encode_message(
        seq![crate::common::foundation::identifiers::nope_bytes()],
    );
    let ghost tail = old(send_buffer)@.subrange(whole.len() as int, old(send_buffer)@.len() as int);
    let f = MessageFormatter::new(send_buffer, crate::common::foundation::identifiers::nope_str(), 0);
    match f.finalize() {
        Ok(size) => {
            assert(size == whole.len());
            assert(send_buffer@ == whole + tail);
            assert((whole + tail).subrange(0, size as int) =~= whole);
            Some(size)
        },
        Err(_) => None,
    }
}

/// `a` is what `b` starts with.
pub open spec fn is_head_of(a: Seq<u8>, b: Seq<u8>) -> bool {
    a.len() <= b.len() && b.subrange(0, a.len() as int) == a
}

/// Handles the messages of the draft at the front of the receive buffer, one
/// by one, as long as the stream carries messages. The answers of the
/// handlers are appended to `send`; a message that no handler takes is
/// answered with `nope`. Where the buffer does not start with a message, the
/// bytes up to the next `{` are dropped.
///
/// Handling stops when the receive buffer is empty, when it ends inside a
/// message that may still be completed, or when a handler has turned the
/// stream into a standard stream. The result is the number of bytes that
/// were dropped to get back in step.
pub fn handle_messages<C: Connection, H: EarlyHandler<C>, B: crate::server::connection::ReceiveBuffer>(
    conn: &mut C,
    handler: &H,
    recv: &mut B,
    send: &mut Vec<u8>,
) -> (dropped: usize)
    ensures
        crate::server::connection::is_tail_of(final(recv).bytes(), old(recv).bytes()),
        is_head_of(old(send)@, final(send)@),
        dropped <= old(recv).bytes().len() - final(recv).bytes().len(),
{
    let mut dropped: usize = 0;
    let total = recv.contents().len();
    assert(old(recv).bytes().subrange(0, old(recv).bytes().len() as int) =~= old(recv).bytes());
    assert(old(send)@.subrange(0, old(send)@.len() as int) =~= old(send)@);
    loop
        invariant
            total == old(recv).bytes().len(),
            crate::server::connection::is_tail_of(recv.bytes(), old(recv).bytes()),
            is_head_of(old(send)@, send@),
            dropped <= old(recv).bytes().len() - recv.bytes().len(),
        decreases recv.bytes().len(),
    {
        if recv.contents().len() == 0 {
            return dropped;
        }
        if conn.stream_state().mode != StreamMode::Message {
            return dropped;
        }
        let ghost whole = recv.bytes();
        let ghost sent = send@;
        let count = recv.contents().len();
        let consumed = match Message::parse(recv.contents()) {
            Ok((msg, consumed)) => {
                proof {
                    lemma_draft_message_bounds(whole);
                }
                let mut answer = crate::common::foundation::encode_argument::zeroes(
                    conn.max_server_message_length(),
                );
                let written = match handler.handle(&msg, conn, answer.as_mut_slice()) {
                    Some(written) => Some(written),
                    //the message is not valid, or the answer did not fit
                    None => write_nope(answer.as_mut_slice()),
                };
                if let Some(written) = written {
                    if written <= answer.len() {
                        crate::common::foundation::encode_argument::append_bytes(
                            send,
                            vstd::slice::slice_subrange(answer.as_slice(), 0, written),
                        );
                    }
                }
                consumed
            },
            Err(e) => {
                if e.is_incomplete() && count < conn.max_client_message_length() {
                    //it appears we have not read a full message yet
                    return dropped;
                }
                //parser error -> get back in step
                let skipped = crate::server::connection::resync_offset(recv.contents());
                dropped = dropped + skipped;
                skipped
            },
        };
        recv.discard(consumed);
        proof {
            assert(recv.bytes() =~= whole.subrange(whole.len() - recv.bytes().len(), whole.len() as int));
            crate::server::connection::lemma_tail_of_tail(recv.bytes(), whole, old(recv).bytes());
            assert(send@.subrange(0, old(send)@.len() as int) =~= sent.subrange(
                0,
                old(send)@.len() as int,
            ));
        }
    }
}

/// A message of the draft takes up at least one byte and no more than the
/// buffer holds.
pub proof fn lemma_draft_message_bounds(buf: Seq<u8>)
    requires
        crate::common::foundation::msg::grammar::read_message_in(
            crate::common::foundation::msg::grammar::Dialect::Draft,
            buf,
        ) is Ok,
    ensures
        1 <= crate::common::foundation::msg::grammar::read_message_in(
            crate::common::foundation::msg::grammar::Dialect::Draft,
            buf,
        )->Ok_0.consumed <= buf.len(),
{
    crate::common::foundation::msg::grammar::lemma_digit_run_end(buf, 1);
    let count = crate::common::foundation::msg::grammar::read_decimal(buf, 1)->Ok_0;
    let start = count.next + 1;
    crate::common::foundation::msg::grammar::lemma_read_item_bounds(buf, start);
    let first = crate::common::foundation::msg::grammar::read_item(buf, start)->Ok_0;
    crate::common::foundation::msg::grammar::lemma_read_items_bounds(
        buf,
        first.next,
        (count.value - 1) as nat,
    );
}

/// A buffer of fixed size that is filled from the front.
#[derive(Debug)]
pub struct Buffer {
    buf: Vec<u8>,
    fill: usize,
}

impl Buffer {
    /// The buffer is filled within its size.
    pub closed spec fn wf(&self) -> bool {
        self.fill <= self.buf@.len()
    }

    /// The number of bytes that the buffer can hold.
    pub closed spec fn size(&self) -> nat {
        self.buf@.len()
    }

    /// The bytes that the buffer holds.
    pub closed spec fn contents(&self) -> Seq<u8> {
        self.buf@.subrange(0, self.fill as int)
    }

    /// An empty buffer of the given size.
    pub fn new(size: usize) -> (r: Self)
        ensures
            r.wf(),
            r.size() == size,
            r.contents() == Seq::<u8>::empty(),
    {
        let r = Buffer { buf: crate::common::foundation::encode_argument::zeroes(size), fill: 0 };
        assert(r.contents() =~= Seq::<u8>::empty());
        r
    }

    /// The number of bytes that can still be added.
    pub fn unfilled_len(&self) -> (n: usize)
        requires
            self.wf(),
        ensures
            n == self.size() - self.contents().len(),
    {
        self.buf.len() - self.fill
    }

    /// The first `bytes` bytes of the buffer.
    pub fn leading(&self, bytes: usize) -> (r: &[u8])
        requires
            self.wf(),
            bytes <= self.contents().len(),
        ensures
            r@ == self.contents().subrange(0, bytes as int),
    {
        let r = vstd::slice::slice_subrange(self.buf.as_slice(), 0, bytes);
        assert(r@ =~= self.contents().subrange(0, bytes as int));
        r
    }

    /// The bytes that the buffer holds.
    pub fn filled(&self) -> (r: &[u8])
        requires
            self.wf(),
        ensures
            r@ == self.contents(),
    {
        vstd::slice::slice_subrange(self.buf.as_slice(), 0, self.fill)
    }

    /// Adds as much of `input` as the buffer has room for, and returns how
    /// many bytes that is.
    pub fn add(&mut self, input: &[u8]) -> (n: usize)
        requires
            old(self).wf(),
        ensures
            final(self).wf(),
            final(self).size() == old(self).size(),
            n <= input@.len(),
            n == input@.len() || final(self).contents().len() == final(self).size(),
            final(self).contents() == old(self).contents() + input@.subrange(0, n as int),
    {
        let size = self.buf.len();
        let free = size - self.fill;
        let n = if input.len() < free {
            input.len()
        } else {
            free
        };
        let start = self.fill;
        let ghost before = self.buf@;
        let mut i: usize = 0;
        while i < n
            invariant
                i <= n,
                n <= input@.len(),
                start + n <= size,
                size == self.buf@.len(),
                self.buf@.len() == before.len(),
                self.fill == start,
                self.buf@.subrange(0, start as int) == before.subrange(0, start as int),
                forall|j: int| 0 <= j < i ==> self.buf@[start + j] == input@[j],
            decreases n - i,
        {
            let ghost prev = self.buf@;
            self.buf[start + i] = input[i];
            assert(self.buf@.subrange(0, start as int) =~= prev.subrange(0, start as int));
            i = i + 1;
        }
        self.fill = start + n;
        assert(self.buf@.subrange(0, self.fill as int) =~= before.subrange(0, start as int)
            + input@.subrange(0, n as int)) by {
            assert forall|j: int| 0 <= j < start implies self.buf@[j] == before[j] by {
                assert(self.buf@.subrange(0, start as int)[j] == before.subrange(
                    0,
                    start as int,
                )[j]);
            }
        }
        n
    }

    /// Drops the first `count` bytes from the buffer and moves what is left
    /// to the front.
    pub fn discard(&mut self, count: usize)
        requires
            old(self).wf(),
            count <= old(self).contents().len(),
        ensures
            final(self).wf(),
            final(self).size() == old(self).size(),
            final(self).contents() == old(self).contents().subrange(
                count as int,
                old(self).contents().len() as int,
            ),
    {
        let remaining = self.fill - count;
        let ghost before = self.buf@;
        let mut idx: usize = 0;
        while idx < remaining
            invariant
                idx <= remaining,
                remaining + count == self.fill,
                self.fill <= self.buf@.len(),
                self.buf@.len() == before.len(),
                forall|j: int| 0 <= j < idx ==> self.buf@[j] == before[j + count],
                forall|j: int| idx <= j < self.buf@.len() ==> self.buf@[j] == before[j],
            decreases remaining - idx,
        {
            self.buf[idx] = self.buf[idx + count];
            idx = idx + 1;
        }
        let size = self.buf.len();
        let mut idx: usize = remaining;
        while idx < size
            invariant
                remaining <= idx <= size,
                size == self.buf@.len(),
                self.buf@.len() == before.len(),
                forall|j: int| 0 <= j < remaining ==> self.buf@[j] == before[j + count],
            decreases size - idx,
        {
            self.buf[idx] = 0;
            idx = idx + 1;
        }
        self.fill = remaining;
        assert(self.contents() =~= old(self).contents().subrange(
            count as int,
            old(self).contents().len() as int,
        ));
    }
}

impl crate::server::connection::ReceiveBuffer for Buffer {
    open spec fn bytes(&self) -> Seq<u8> {
        if self.wf() {
            self.contents()
        } else {
            Seq::empty()
        }
    }

    fn contents(&self) -> (r: &[u8]) {
        if self.fill <= self.buf.len() {
            self.filled()
        } else {
            vstd::slice::slice_subrange(self.buf.as_slice(), 0, 0)
        }
    }

    fn discard(&mut self, len: usize) {
        if self.fill <= self.buf.len() {
            Buffer::discard(self, len);
        }
    }
}

} // verus!

//! The identifier family: client IDs, identifiers, module identifiers, module
//! versions, scoped identifiers and message types. All of them are ASCII, so
//! their grammar is stated over the bytes of a string.

use vstd::prelude::*;
use vstd::string::StringSliceAdditionalSpecFns;
use vstd::string::is_ascii_spec_bytes;
use vstd::utf8::encode_utf8_valid_utf8;
use vstd::utf8::is_char_boundary;
use vstd::utf8::is_char_boundary_iff_not_is_continuation_byte;
use vstd::utf8::is_char_boundary_start_end_of_seq;
use crate::common::foundation::decimal::decimal_digits;
use crate::common::foundation::decimal::decimal_value;
use crate::common::foundation::decimal::decode_decimal;
use crate::common::foundation::decimal::digit_byte;
use crate::common::foundation::decimal::is_canonical_decimal;
use crate::common::foundation::decimal::lemma_decimal_digits_shape;
use crate::common::foundation::decimal::lemma_decimal_value_of_digits;
use crate::common::foundation::decimal::parse_decimal;

verus! {

////////////////////////////////////////////////////////////////////////////////
// grammar

/// A byte that may occur in a client ID: an ASCII letter or digit.
pub open spec fn client_id_byte(c: u8) -> bool {
    (0x41 <= c <= 0x5a) || (0x61 <= c <= 0x7a) || (0x30 <= c <= 0x39)
}

/// A byte that may start an identifier: an ASCII letter or an underscore.
pub open spec fn ident_leader_byte(c: u8) -> bool {
    (0x41 <= c <= 0x5a) || (0x61 <= c <= 0x7a) || c == 0x5f
}

/// A byte that may occur inside an identifier: an ASCII letter or digit, an
/// underscore or a hyphen.
pub open spec fn ident_byte(c: u8) -> bool {
    (0x41 <= c <= 0x5a) || (0x61 <= c <= 0x7a) || (0x30 <= c <= 0x39) || c == 0x5f || c == 0x2d
}

/// `p` is a prefix of `s` and shorter than `s`.
pub open spec fn is_strict_prefix(p: Seq<u8>, s: Seq<u8>) -> bool {
    p.len() < s.len() && s.subrange(0, p.len() as int) == p
}

/// Client IDs are non-empty strings of ASCII letters and digits.
pub open spec fn is_client_id(s: Seq<u8>) -> bool {
    &&& s.len() > 0
    &&& forall|i: int| 0 <= i < s.len() ==> client_id_byte(#[trigger] s[i])
}

/// Identifiers start with a letter or underscore and go on with letters,
/// digits, underscores and hyphens.
pub open spec fn is_identifier(s: Seq<u8>) -> bool {
    &&& s.len() > 0
    &&& ident_leader_byte(s[0])
    &&& forall|i: int| 0 <= i < s.len() ==> ident_byte(#[trigger] s[i])
}

/// Where the digits start that stand before `end` with nothing between
/// them: the least position from which on there are digits only up to
/// `end`.
pub open spec fn numeral_start(s: Seq<u8>, end: int) -> int
    decreases end,
{
    if end <= 0 || end > s.len() || !digit_byte(s[end - 1]) {
        end
    } else {
        numeral_start(s, end - 1)
    }
}

/// The first position at or after `from` that holds the byte `c`, or the
/// length of `s` if there is none.
pub open spec fn find_byte(s: Seq<u8>, c: u8, from: int) -> int
    decreases s.len() - from,
{
    if from < 0 || from >= s.len() || s[from] == c {
        from
    } else {
        find_byte(s, c, from + 1)
    }
}

/// The parts of a module identifier.
pub ghost struct ModuleParts {
    /// The module's name: an identifier.
    pub name: Seq<u8>,
    /// The major version: at least 1.
    pub major: u16,
}

/// The parts of a module version.
pub ghost struct VersionParts {
    /// The module's name: an identifier.
    pub name: Seq<u8>,
    /// The major version: at least 1.
    pub major: u16,
    /// The minor version.
    pub minor: u16,
}

/// The parts of a scoped identifier.
pub ghost struct ScopedParts {
    /// The module identifier before the dot, as it is written.
    pub module: Seq<u8>,
    /// The identifier after the dot.
    pub member: Seq<u8>,
}

/// The largest major or minor version that can be expressed.
pub open spec fn max_version() -> nat {
    0xffff
}

/// A module identifier is an identifier followed by a major version: a
/// canonical numeral between 1 and 65535. The version is all the digits at
/// the end, so that the name ends with a byte that is no digit. The result is
/// the name and the version.
pub open spec fn split_module_identifier(s: Seq<u8>) -> Option<ModuleParts> {
    let k = numeral_start(s, s.len() as int);
    let name = s.subrange(0, k);
    let version = decode_decimal(s.subrange(k, s.len() as int), max_version());
    if is_identifier(name) && version is Some && version->0 >= 1 {
        Some(ModuleParts { name, major: version->0 as u16 })
    } else {
        None
    }
}

/// A module version is a module identifier, a dot, and a minor version: a
/// canonical numeral between 0 and 65535. The result is the name, the major
/// and the minor version.
pub open spec fn split_module_version(s: Seq<u8>) -> Option<VersionParts> {
    let d = find_byte(s, 0x2e, 0);
    if d < s.len() {
        let module = split_module_identifier(s.subrange(0, d));
        let minor = decode_decimal(s.subrange(d + 1, s.len() as int), max_version());
        if module is Some && minor is Some {
            Some(VersionParts { name: module->0.name, major: module->0.major, minor: minor->0 as u16 })
        } else {
            None
        }
    } else {
        None
    }
}

/// A scoped identifier is a module identifier, a dot, and an identifier. The
/// result is the module identifier and the member, both as they are written.
pub open spec fn split_scoped_identifier(s: Seq<u8>) -> Option<ScopedParts> {
    let d = find_byte(s, 0x2e, 0);
    if d < s.len() {
        let module = s.subrange(0, d);
        let member = s.subrange(d + 1, s.len() as int);
        if split_module_identifier(module) is Some && is_identifier(member) {
            Some(ScopedParts { module, member })
        } else {
            None
        }
    } else {
        None
    }
}

/// The bytes of `init`.
pub open spec fn init_bytes() -> Seq<u8> {
    seq![0x69u8, 0x6e, 0x69, 0x74]
}

/// The bytes of `want`.
pub open spec fn want_bytes() -> Seq<u8> {
    seq![0x77u8, 0x61, 0x6e, 0x74]
}

/// The bytes of `have`.
pub open spec fn have_bytes() -> Seq<u8> {
    seq![0x68u8, 0x61, 0x76, 0x65]
}

/// The bytes of `nope`.
pub open spec fn nope_bytes() -> Seq<u8> {
    seq![0x6eu8, 0x6f, 0x70, 0x65]
}

/// One of the four eternal message types.
pub open spec fn is_eternal_message_type(s: Seq<u8>) -> bool {
    s == init_bytes() || s == want_bytes() || s == have_bytes() || s == nope_bytes()
}

/// A message type is an eternal message type or a scoped identifier.
pub open spec fn is_message_type(s: Seq<u8>) -> bool {
    is_eternal_message_type(s) || split_scoped_identifier(s) is Some
}

////////////////////////////////////////////////////////////////////////////////
// facts about the grammar

/// The digits before `end` start inside the string, there are digits only
/// from there to `end`, and what stands before them is no digit.
pub proof fn lemma_numeral_start(s: Seq<u8>, end: int)
    requires
        0 <= end <= s.len(),
    ensures
        0 <= numeral_start(s, end) <= end,
        forall|i: int| numeral_start(s, end) <= i < end ==> digit_byte(#[trigger] s[i]),
        numeral_start(s, end) > 0 ==> !digit_byte(s[numeral_start(s, end) - 1]),
    decreases end,
{
    if end > 0 && digit_byte(s[end - 1]) {
        lemma_numeral_start(s, end - 1);
    }
}

/// A position from which on there are digits only up to `end`, with no
/// digit before it, is the start that `numeral_start` finds.
pub proof fn lemma_numeral_start_is(s: Seq<u8>, start: int, end: int)
    requires
        0 <= start <= end <= s.len(),
        forall|i: int| start <= i < end ==> digit_byte(#[trigger] s[i]),
        start > 0 ==> !digit_byte(s[start - 1]),
    ensures
        numeral_start(s, end) == start,
    decreases end - start,
{
    if start < end {
        lemma_numeral_start_is(s, start, end - 1);
    }
}

/// The first occurrence of `c` lies inside the string or at its end, and
/// nothing before it is `c`.
pub proof fn lemma_find_byte(s: Seq<u8>, c: u8, from: int)
    requires
        0 <= from <= s.len(),
    ensures
        from <= find_byte(s, c, from) <= s.len(),
        forall|i: int| from <= i < find_byte(s, c, from) ==> #[trigger] s[i] != c,
        find_byte(s, c, from) < s.len() ==> s[find_byte(s, c, from)] == c,
    decreases s.len() - from,
{
    if from < s.len() && s[from] != c {
        lemma_find_byte(s, c, from + 1);
    }
}

/// A position that holds `c` with no `c` before it is the one that
/// `find_byte` finds.
pub proof fn lemma_find_byte_is(s: Seq<u8>, c: u8, from: int, at: int)
    requires
        0 <= from <= at <= s.len(),
        forall|i: int| from <= i < at ==> #[trigger] s[i] != c,
        at < s.len() ==> s[at] == c,
    ensures
        find_byte(s, c, from) == at,
    decreases at - from,
{
    if from < at {
        lemma_find_byte_is(s, c, from + 1, at);
    }
}

/// Every identifier that does not end with a digit, followed by the numeral
/// of a major version, is a module identifier, and it splits into exactly
/// these two.
pub proof fn lemma_module_identifier_composed(name: Seq<u8>, major: u16)
    requires
        is_identifier(name),
        !digit_byte(name.last()),
        major >= 1,
    ensures
        split_module_identifier(name + decimal_digits(major as nat)) == Some(ModuleParts { name, major }),
{
    let digits = decimal_digits(major as nat);
    let s = name + digits;
    lemma_decimal_digits_shape(major as nat);
    lemma_decimal_value_of_digits(major as nat);
    assert(s[name.len() - 1] == name.last());
    assert forall|i: int| name.len() <= i < s.len() implies digit_byte(#[trigger] s[i]) by {
        assert(s[i] == digits[i - name.len()]);
    }
    lemma_numeral_start_is(s, name.len() as int, s.len() as int);
    assert(s.subrange(0, name.len() as int) =~= name);
    assert(s.subrange(name.len() as int, s.len() as int) =~= digits);
}

/// What `split_module_identifier` returns, put together again, is the input.
pub proof fn lemma_module_identifier_parts(s: Seq<u8>)
    requires
        split_module_identifier(s) is Some,
    ensures
        is_identifier(split_module_identifier(s)->0.name),
        split_module_identifier(s)->0.major >= 1,
        !digit_byte(split_module_identifier(s)->0.name.last()),
        s == split_module_identifier(s)->0.name + decimal_digits(
            split_module_identifier(s)->0.major as nat,
        ),
        is_identifier(s),
{
    let k = numeral_start(s, s.len() as int);
    lemma_numeral_start(s, s.len() as int);
    let digits = s.subrange(k, s.len() as int);
    let name = s.subrange(0, k);
    assert(name.last() == s[k - 1]);
    assert(s[0] == name[0]);
    assert forall|i: int| 0 <= i < s.len() implies ident_byte(#[trigger] s[i]) by {
        if i < k {
            assert(s[i] == name[i]);
        } else {
            assert(digit_byte(s[i]));
        }
    }
    crate::common::foundation::decimal::lemma_digits_of_decimal_value(digits);
    assert(s =~= s.subrange(0, k) + digits);
}

/// No string is of two kinds at once, except that a module identifier is
/// also an identifier, and so are the four eternal message types, which
/// are no module identifiers.
pub proof fn lemma_kinds_are_disjoint(s: Seq<u8>)
    ensures
        split_module_identifier(s) is Some ==> is_identifier(s),
        !(is_identifier(s) && split_module_version(s) is Some),
        !(is_identifier(s) && split_scoped_identifier(s) is Some),
        !(split_module_identifier(s) is Some && split_module_version(s) is Some),
        !(split_module_identifier(s) is Some && split_scoped_identifier(s) is Some),
        !(split_module_version(s) is Some && split_scoped_identifier(s) is Some),
        is_eternal_message_type(s) ==> is_identifier(s) && is_client_id(s)
            && split_module_identifier(s) is None,
{
    lemma_find_byte(s, 0x2e, 0);
    lemma_numeral_start(s, s.len() as int);
    let d = find_byte(s, 0x2e, 0);
    if split_module_identifier(s) is Some {
        lemma_module_identifier_parts(s);
    }
    if is_identifier(s) {
        // an identifier holds no dot
        if d < s.len() {
            assert(ident_byte(s[d]));
        }
    }
    if split_module_version(s) is Some && split_scoped_identifier(s) is Some {
        let right = s.subrange(d + 1, s.len() as int);
        assert(digit_byte(right[0]));
        assert(ident_leader_byte(right[0]));
    }
    if is_eternal_message_type(s) {
        assert(s.len() == 4);
        assert(!digit_byte(s[3]));
        assert(numeral_start(s, 4) == 4);
        assert(s.subrange(4, 4).len() == 0);
    }
}

/// Whatever the grammar of this module accepts is made of ASCII bytes.
pub proof fn lemma_grammar_is_ascii(s: Seq<u8>)
    requires
        is_client_id(s) || is_identifier(s) || split_module_identifier(s) is Some
            || split_module_version(s) is Some || is_message_type(s),
    ensures
        forall|i: int| 0 <= i < s.len() ==> #[trigger] s[i] < 0x80,
{
    if is_eternal_message_type(s) {
        assert(s.len() == 4);
    } else if is_client_id(s) || is_identifier(s) {
        assert forall|i: int| 0 <= i < s.len() implies #[trigger] s[i] < 0x80 by {
            if is_client_id(s) {
                assert(client_id_byte(s[i]));
            } else {
                assert(ident_byte(s[i]));
            }
        }
    } else if split_module_identifier(s) is Some {
        lemma_module_identifier_is_ascii(s);
    } else {
        lemma_find_byte(s, 0x2e, 0);
        let d = find_byte(s, 0x2e, 0);
        let left = s.subrange(0, d);
        let right = s.subrange(d + 1, s.len() as int);
        lemma_module_identifier_is_ascii(left);
        assert forall|i: int| 0 <= i < s.len() implies #[trigger] s[i] < 0x80 by {
            if i < d {
                assert(left[i] == s[i]);
            } else if i > d {
                assert(right[i - d - 1] == s[i]);
                if split_module_version(s) is Some {
                    assert(digit_byte(right[i - d - 1]));
                } else {
                    assert(ident_byte(right[i - d - 1]));
                }
            }
        }
    }
}

/// A module identifier is made of ASCII bytes.
pub proof fn lemma_module_identifier_is_ascii(s: Seq<u8>)
    requires
        split_module_identifier(s) is Some,
    ensures
        forall|i: int| 0 <= i < s.len() ==> #[trigger] s[i] < 0x80,
{
    lemma_module_identifier_parts(s);
    assert forall|i: int| 0 <= i < s.len() implies #[trigger] s[i] < 0x80 by {
        assert(ident_byte(s[i]));
    }
}

/// In a string of ASCII bytes every position is a character boundary.
pub proof fn lemma_ascii_char_boundary(s: &str, i: int)
    requires
        0 <= i <= s.spec_bytes().len(),
        i < s.spec_bytes().len() ==> s.spec_bytes()[i] < 0x80,
    ensures
        is_char_boundary(s.spec_bytes(), i),
{
    encode_utf8_valid_utf8(s@);
    if i < s.spec_bytes().len() {
        is_char_boundary_iff_not_is_continuation_byte(s.spec_bytes(), i);
    } else {
        is_char_boundary_start_end_of_seq(s.spec_bytes());
    }
}

////////////////////////////////////////////////////////////////////////////////
// helpers on bytes

/// Whether two byte strings are equal.
pub fn bytes_equal(a: &[u8], b: &[u8]) -> (r: bool)
    ensures
        r == (a@ == b@),
{
    if a.len() != b.len() {
        return false;
    }
    let n = a.len();
    let mut i: usize = 0;
    while i < n
        invariant
            n == a@.len(),
            n == b@.len(),
            i <= n,
            forall|j: int| 0 <= j < i ==> a@[j] == b@[j],
        decreases n - i,
    {
        if a[i] != b[i] {
            return false;
        }
        i = i + 1;
    }
    proof {
        assert(a@ =~= b@);
    }
    true
}

/// The position of the first `c` in `s`, if there is one.
pub fn position_of(s: &[u8], c: u8) -> (r: Option<usize>)
    ensures
        match r {
            Some(i) => i < s@.len() && i == find_byte(s@, c, 0) && s@[i as int] == c,
            None => find_byte(s@, c, 0) == s@.len(),
        },
{
    let n = s.len();
    let mut i: usize = 0;
    while i < n
        invariant
            n == s@.len(),
            i <= n,
            forall|j: int| 0 <= j < i ==> #[trigger] s@[j] != c,
        decreases n - i,
    {
        if s[i] == c {
            proof {
                lemma_find_byte_is(s@, c, 0, i as int);
            }
            return Some(i);
        }
        i = i + 1;
    }
    proof {
        lemma_find_byte_is(s@, c, 0, n as int);
    }
    None
}

fn is_client_id_char(ch: u8) -> (r: bool)
    ensures
        r == client_id_byte(ch),
{
    (ch >= 0x41 && ch <= 0x5a) || (ch >= 0x61 && ch <= 0x7a) || (ch >= 0x30 && ch <= 0x39)
}

fn is_ident_leader(ch: u8) -> (r: bool)
    ensures
        r == ident_leader_byte(ch),
{
    (ch >= 0x41 && ch <= 0x5a) || (ch >= 0x61 && ch <= 0x7a) || ch == 0x5f
}

fn is_ident_char(ch: u8) -> (r: bool)
    ensures
        r == ident_byte(ch),
{
    (ch >= 0x41 && ch <= 0x5a) || (ch >= 0x61 && ch <= 0x7a) || (ch >= 0x30 && ch <= 0x39)
        || ch == 0x5f || ch == 0x2d
}

fn is_digit(ch: u8) -> (r: bool)
    ensures
        r == digit_byte(ch),
{
    ch >= 0x30 && ch <= 0x39
}

////////////////////////////////////////////////////////////////////////////////
// ClientID

/// A client ID: a non-empty string of ASCII letters and digits. Values exist
/// only through a successful [`ClientID::parse`].
#[derive(Clone, Copy, Debug, PartialEq, Eq, PartialOrd, Ord)]
pub struct ClientID<'a>(&'a str);

impl<'a> ClientID<'a> {
    #[verifier::type_invariant]
    spec fn valid(self) -> bool {
        is_client_id(self.0.spec_bytes())
    }

    /// The string that was parsed.
    pub closed spec fn source(&self) -> &'a str {
        self.0
    }

    /// The bytes of the string that was parsed.
    pub open spec fn bytes(&self) -> Seq<u8> {
        self.source().spec_bytes()
    }

    /// Turns the input into a client ID, or returns `None` if it is not one.
    pub fn parse(input: &'a str) -> (r: Option<ClientID<'a>>)
        ensures
            r is Some <==> is_client_id(input.spec_bytes()),
            r is Some ==> r->0.source() == input,
    {
        let b = input.as_bytes();
        let n = b.len();
        if n == 0 {
            return None;
        }
        let mut i: usize = 0;
        while i < n
            invariant
                b@ == input.spec_bytes(),
                n == b@.len(),
                i <= n,
                forall|j: int| 0 <= j < i ==> client_id_byte(#[trigger] b@[j]),
            decreases n - i,
        {
            if !is_client_id_char(b[i]) {
                assert(!client_id_byte(input.spec_bytes()[i as int]));
                return None;
            }
            i = i + 1;
        }
        Some(ClientID(input))
    }

    /// Whether `self` is a prefix of `other` that is shorter than `other`.
    pub fn is_strict_prefix_of(&self, other: &ClientID<'_>) -> (r: bool)
        ensures
            r == is_strict_prefix(self.bytes(), other.bytes()),
    {
        let a = self.0.as_bytes();
        let b = other.0.as_bytes();
        if a.len() >= b.len() {
            return false;
        }
        let n = a.len();
        let mut i: usize = 0;
        while i < n
            invariant
                a@ == self.bytes(),
                b@ == other.bytes(),
                n == a@.len(),
                n < b@.len(),
                i <= n,
                forall|j: int| 0 <= j < i ==> a@[j] == b@[j],
            decreases n - i,
        {
            if a[i] != b[i] {
                assert(b@.subrange(0, n as int)[i as int] == b@[i as int]);
                return false;
            }
            i = i + 1;
        }
        assert(b@.subrange(0, n as int) =~= a@);
        true
    }

    /// Whether both client IDs are written the same.
    pub fn same_as(&self, other: &ClientID<'_>) -> (r: bool)
        ensures
            r == (self.bytes() == other.bytes()),
    {
        bytes_equal(self.0.as_bytes(), other.0.as_bytes())
    }

    /// The string that was passed to `parse`.
    pub fn as_str(&self) -> (r: &'a str)
        ensures
            r == self.source(),
            is_client_id(r.spec_bytes()),
    {
        proof {
            use_type_invariant(self);
        }
        self.0
    }
}

/// A client ID that owns its string, for where a client ID is kept longer
/// than the buffer that it came from.
#[derive(Debug)]
pub struct OwnedClientID(String);

impl Clone for OwnedClientID {
    fn clone(&self) -> (r: Self)
        ensures
            r == *self,
    {
        proof {
            use_type_invariant(self);
        }
        OwnedClientID(self.0.clone())
    }
}

impl OwnedClientID {
    #[verifier::type_invariant]
    spec fn valid(self) -> bool {
        is_client_id(vstd::utf8::encode_utf8(self.0@))
    }

    /// The bytes of the client ID.
    pub closed spec fn bytes(&self) -> Seq<u8> {
        vstd::utf8::encode_utf8(self.0@)
    }

    /// A copy of the client ID that owns its string.
    pub fn from(id: &ClientID<'_>) -> (r: Self)
        ensures
            r.bytes() == id.bytes(),
    {
        OwnedClientID(id.as_str().to_owned())
    }

    /// The client ID, borrowed.
    pub fn as_ref(&self) -> (r: ClientID<'_>)
        ensures
            r.bytes() == self.bytes(),
    {
        proof {
            use_type_invariant(self);
        }
        ClientID::parse(self.0.as_str()).unwrap()
    }
}

////////////////////////////////////////////////////////////////////////////////
// Identifier

/// An identifier. Values exist only through a successful parse.
#[derive(Clone, Copy, Debug, PartialEq, Eq, PartialOrd, Ord)]
pub struct Identifier<'a>(&'a str);

impl<'a> Identifier<'a> {
    #[verifier::type_invariant]
    spec fn valid(self) -> bool {
        is_identifier(self.0.spec_bytes())
    }

    /// The string that was parsed.
    pub closed spec fn source(&self) -> &'a str {
        self.0
    }

    /// The bytes of the string that was parsed.
    pub open spec fn bytes(&self) -> Seq<u8> {
        self.source().spec_bytes()
    }

    /// Turns the input into an identifier, or returns `None` if it is not one.
    pub fn parse(input: &'a str) -> (r: Option<Identifier<'a>>)
        ensures
            r is Some <==> is_identifier(input.spec_bytes()),
            r is Some ==> r->0.source() == input,
    {
        match parse_ident_or_module_ident(input) {
            Some(_) => Some(Identifier(input)),
            None => None,
        }
    }

    /// The string that was passed to `parse`.
    pub fn as_str(&self) -> (r: &'a str)
        ensures
            r == self.source(),
            is_identifier(r.spec_bytes()),
    {
        proof {
            use_type_invariant(self);
        }
        self.0
    }
}

/// Tells identifiers and module identifiers apart. The result is `None` for
/// an input that is no identifier, the identifier alone for an identifier
/// that is no module identifier, and the name with the major version for a
/// module identifier.
fn parse_ident_or_module_ident<'a>(input: &'a str) -> (r: Option<(Identifier<'a>, Option<u16>)>)
    ensures
        match r {
            None => !is_identifier(input.spec_bytes()) && split_module_identifier(
                input.spec_bytes(),
            ) is None,
            Some((name, None)) => is_identifier(input.spec_bytes()) && split_module_identifier(
                input.spec_bytes(),
            ) is None && name.source() == input,
            Some((name, Some(version))) => is_identifier(input.spec_bytes())
                && split_module_identifier(input.spec_bytes()) == Some(
                ModuleParts { name: name.bytes(), major: version },
            ),
        },
{
    let b = input.as_bytes();
    let n = b.len();
    proof {
        lemma_kinds_are_disjoint(b@);
    }
    if n == 0 || !is_ident_leader(b[0]) {
        return None;
    }
    let mut i: usize = 1;
    while i < n && is_ident_char(b[i])
        invariant
            n == b@.len(),
            1 <= i <= n,
            forall|j: int| 0 <= j < i ==> ident_byte(#[trigger] b@[j]),
        decreases n - i,
    {
        i = i + 1;
    }
    if i < n {
        return None;
    }
    //the major version is made of all the digits at the end

    let mut k: usize = n;
    while k > 0 && is_digit(b[k - 1])
        invariant
            n == b@.len(),
            k <= n,
            forall|j: int| k <= j < n ==> digit_byte(#[trigger] b@[j]),
        decreases k,
    {
        k = k - 1;
    }
    proof {
        lemma_numeral_start_is(b@, k as int, n as int);
        lemma_ascii_char_boundary(input, k as int);
    }
    let (name_str, version_str) = input.split_at(k);
    if k == n {
        assert(version_str.spec_bytes().len() == 0);
        return Some((Identifier(input), None));
    }
    assert(k > 0);
    assert(name_str.spec_bytes()[0] == b@[0]);
    assert forall|j: int| 0 <= j < name_str.spec_bytes().len() implies ident_byte(
        #[trigger] name_str.spec_bytes()[j],
    ) by {
        assert(name_str.spec_bytes()[j] == b@[j]);
    }
    match parse_decimal(version_str.as_bytes(), 0xffff) {
        Some(version) => {
            if version == 0 {
                Some((Identifier(input), None))
            } else {
                Some((Identifier(name_str), Some(version as u16)))
            }
        },
        None => Some((Identifier(input), None)),
    }
}

////////////////////////////////////////////////////////////////////////////////
// ModuleIdentifier

/// A module identifier such as `core1`: the name of a module and its major
/// version.
#[derive(Clone, Copy, Debug, PartialEq, Eq, PartialOrd, Ord)]
pub struct ModuleIdentifier<'a> {
    source: &'a str,
    name: Identifier<'a>,
    major_version: u16,
}

impl<'a> ModuleIdentifier<'a> {
    #[verifier::type_invariant]
    spec fn valid(self) -> bool {
        split_module_identifier(self.source.spec_bytes()) == Some(
            ModuleParts { name: self.name.bytes(), major: self.major_version },
        )
    }

    /// The string that was parsed.
    pub closed spec fn source(&self) -> &'a str {
        self.source
    }

    /// The bytes of the string that was parsed.
    pub open spec fn bytes(&self) -> Seq<u8> {
        self.source().spec_bytes()
    }

    /// The module's name, without the version.
    pub closed spec fn name_bytes(&self) -> Seq<u8> {
        self.name.bytes()
    }

    /// The module's major version.
    pub closed spec fn major(&self) -> u16 {
        self.major_version
    }

    /// Turns the input into a module identifier, or returns `None` if it is
    /// not one.
    pub fn parse(input: &'a str) -> (r: Option<ModuleIdentifier<'a>>)
        ensures
            r is Some <==> split_module_identifier(input.spec_bytes()) is Some,
            r is Some ==> r->0.source() == input && split_module_identifier(input.spec_bytes())
                == Some(ModuleParts { name: r->0.name_bytes(), major: r->0.major() }),
    {
        match parse_ident_or_module_ident(input) {
            Some((name, Some(version))) => Some(
                ModuleIdentifier { source: input, name, major_version: version },
            ),
            _ => None,
        }
    }

    /// The string that was passed to `parse`.
    pub fn as_str(&self) -> (r: &'a str)
        ensures
            r == self.source(),
            split_module_identifier(r.spec_bytes()) == Some(
                ModuleParts { name: self.name_bytes(), major: self.major() },
            ),
    {
        proof {
            use_type_invariant(self);
        }
        self.source
    }

    /// The name of the module, without the major version.
    pub fn name(&self) -> (r: Identifier<'a>)
        ensures
            r.bytes() == self.name_bytes(),
    {
        self.name
    }

    /// The major version of the module.
    pub fn major_version(&self) -> (r: u16)
        ensures
            r == self.major(),
            r >= 1,
    {
        proof {
            use_type_invariant(self);
        }
        self.major_version
    }
}

////////////////////////////////////////////////////////////////////////////////
// ModuleVersion

/// A module name with its full version, such as `term2.3`.
#[derive(Clone, Copy, Debug, PartialEq, Eq, PartialOrd, Ord)]
pub struct ModuleVersion<'a> {
    source: &'a str,
    name: Identifier<'a>,
    major_version: u16,
    minor_version: u16,
}

impl<'a> ModuleVersion<'a> {
    #[verifier::type_invariant]
    spec fn valid(self) -> bool {
        split_module_version(self.source.spec_bytes()) == Some(
            VersionParts {
                name: self.name.bytes(),
                major: self.major_version,
                minor: self.minor_version,
            },
        )
    }

    /// The string that was parsed.
    pub closed spec fn source(&self) -> &'a str {
        self.source
    }

    /// The bytes of the string that was parsed.
    pub open spec fn bytes(&self) -> Seq<u8> {
        self.source().spec_bytes()
    }

    /// The module's name, without the versions.
    pub closed spec fn name_bytes(&self) -> Seq<u8> {
        self.name.bytes()
    }

    /// The module's major version.
    pub closed spec fn major(&self) -> u16 {
        self.major_version
    }

    /// The module's minor version.
    pub closed spec fn minor(&self) -> u16 {
        self.minor_version
    }

    /// Turns the input into a module version, or returns `None` if it is not
    /// a module identifier followed by a dot and a minor version.
    pub fn parse(input: &'a str) -> (r: Option<ModuleVersion<'a>>)
        ensures
            r is Some <==> split_module_version(input.spec_bytes()) is Some,
            r is Some ==> r->0.source() == input && split_module_version(input.spec_bytes())
                == Some(
                VersionParts { name: r->0.name_bytes(), major: r->0.major(), minor: r->0.minor() },
            ),
    {
        let (left, right) = match split_at_dot(input) {
            Some(parts) => parts,
            None => {
                return None;
            },
        };
        let ident = match ModuleIdentifier::parse(left) {
            Some(ident) => ident,
            None => {
                return None;
            },
        };
        let minor = match parse_decimal(right.as_bytes(), 0xffff) {
            Some(minor) => minor,
            None => {
                return None;
            },
        };
        Some(
            ModuleVersion {
                source: input,
                name: ident.name,
                major_version: ident.major_version,
                minor_version: minor as u16,
            },
        )
    }

    /// The string that was passed to `parse`.
    pub fn as_str(&self) -> (r: &'a str)
        ensures
            r == self.source(),
            split_module_version(r.spec_bytes()) == Some(
                VersionParts { name: self.name_bytes(), major: self.major(), minor: self.minor() },
            ),
    {
        proof {
            use_type_invariant(self);
        }
        self.source
    }

    /// The name of the module, without the versions.
    pub fn name(&self) -> (r: Identifier<'a>)
        ensures
            r.bytes() == self.name_bytes(),
    {
        self.name
    }

    /// The major version of the module.
    pub fn major_version(&self) -> (r: u16)
        ensures
            r == self.major(),
    {
        self.major_version
    }

    /// The minor version of the module.
    pub fn minor_version(&self) -> (r: u16)
        ensures
            r == self.minor(),
    {
        self.minor_version
    }
}

/// Splits the input at its first dot. The dot itself is in neither part.
pub fn split_at_dot<'a>(input: &'a str) -> (r: Option<(&'a str, &'a str)>)
    ensures
        match r {
            Some((left, right)) => {
                let d = find_byte(input.spec_bytes(), 0x2e, 0);
                &&& d < input.spec_bytes().len()
                &&& left.spec_bytes() == input.spec_bytes().subrange(0, d)
                &&& right.spec_bytes() == input.spec_bytes().subrange(
                    d + 1,
                    input.spec_bytes().len() as int,
                )
            },
            None => find_byte(input.spec_bytes(), 0x2e, 0) == input.spec_bytes().len(),
        },
{
    let b = input.as_bytes();
    let dot_idx = match position_of(b, 0x2e) {
        Some(idx) => idx,
        None => {
            return None;
        },
    };
    proof {
        lemma_ascii_char_boundary(input, dot_idx as int);
        encode_utf8_valid_utf8(input@);
    }
    let (left, rest) = input.split_at(dot_idx);
    proof {
        assert(rest.spec_bytes()[0] == b@[dot_idx as int]);
        encode_utf8_valid_utf8(rest@);
        if 1 < rest.spec_bytes().len() {
            // the byte after a dot starts a character, since the dot is one
            vstd::utf8::valid_utf8_split(input.spec_bytes(), dot_idx as int);
            assert(vstd::utf8::length_of_first_scalar(rest.spec_bytes()) == 1);
            reveal_with_fuel(is_char_boundary, 2);
            is_char_boundary_start_end_of_seq(vstd::utf8::pop_first_scalar(rest.spec_bytes()));
        } else {
            is_char_boundary_start_end_of_seq(rest.spec_bytes());
        }
    }
    let (_dot, right) = rest.split_at(1);
    proof {
        assert(right.spec_bytes() =~= b@.subrange(dot_idx + 1, b@.len() as int));
    }
    Some((left, right))
}

////////////////////////////////////////////////////////////////////////////////
// ScopedIdentifier

/// A scoped identifier such as `core1.set`: a module identifier and the name
/// of a member of that module.
#[derive(Clone, Copy, Debug, PartialEq, Eq, PartialOrd, Ord)]
pub struct ScopedIdentifier<'a> {
    source: &'a str,
    module: ModuleIdentifier<'a>,
    member: Identifier<'a>,
}

impl<'a> ScopedIdentifier<'a> {
    #[verifier::type_invariant]
    spec fn valid(self) -> bool {
        split_scoped_identifier(self.source.spec_bytes()) == Some(
            ScopedParts { module: self.module.bytes(), member: self.member.bytes() },
        )
    }

    /// The string that was parsed.
    pub closed spec fn source(&self) -> &'a str {
        self.source
    }

    /// The bytes of the string that was parsed.
    pub open spec fn bytes(&self) -> Seq<u8> {
        self.source().spec_bytes()
    }

    /// The module identifier before the dot.
    pub closed spec fn module_bytes(&self) -> Seq<u8> {
        self.module.bytes()
    }

    /// The identifier after the dot.
    pub closed spec fn member_bytes(&self) -> Seq<u8> {
        self.member.bytes()
    }

    /// Turns the input into a scoped identifier, or returns `None` if it is
    /// not one.
    pub fn parse(input: &'a str) -> (r: Option<ScopedIdentifier<'a>>)
        ensures
            r is Some <==> split_scoped_identifier(input.spec_bytes()) is Some,
            r is Some ==> r->0.source() == input && split_scoped_identifier(input.spec_bytes())
                == Some(ScopedParts { module: r->0.module_bytes(), member: r->0.member_bytes() }),
    {
        let (left, right) = match split_at_dot(input) {
            Some(parts) => parts,
            None => {
                return None;
            },
        };
        let module = match ModuleIdentifier::parse(left) {
            Some(module) => module,
            None => {
                return None;
            },
        };
        let member = match Identifier::parse(right) {
            Some(member) => member,
            None => {
                return None;
            },
        };
        Some(ScopedIdentifier { source: input, module, member })
    }

    /// The string that was passed to `parse`.
    pub fn as_str(&self) -> (r: &'a str)
        ensures
            r == self.source(),
            split_scoped_identifier(r.spec_bytes()) == Some(
                ScopedParts { module: self.module_bytes(), member: self.member_bytes() },
            ),
    {
        proof {
            use_type_invariant(self);
        }
        self.source
    }

    /// The first half of this scoped identifier: the module with its major
    /// version.
    pub fn module(&self) -> (r: ModuleIdentifier<'a>)
        ensures
            r.bytes() == self.module_bytes(),
    {
        self.module
    }

    /// The second half of this scoped identifier: the message type or
    /// property within the module.
    pub fn member(&self) -> (r: Identifier<'a>)
        ensures
            r.bytes() == self.member_bytes(),
    {
        self.member
    }
}

////////////////////////////////////////////////////////////////////////////////
// MessageType

/// A message type: one of the four eternal message types, or a scoped
/// identifier.
#[derive(Clone, Copy, Debug, PartialEq, Eq)]
pub enum MessageType<'a> {
    Init,
    Want,
    Have,
    Nope,
    Scoped(ScopedIdentifier<'a>),
}

impl<'a> MessageType<'a> {
    /// The bytes of the message type as it is written.
    pub open spec fn bytes(&self) -> Seq<u8> {
        match *self {
            MessageType::Init => init_bytes(),
            MessageType::Want => want_bytes(),
            MessageType::Have => have_bytes(),
            MessageType::Nope => nope_bytes(),
            MessageType::Scoped(s) => s.bytes(),
        }
    }

    /// Turns the input into a message type, or returns `None` if it is not
    /// one.
    pub fn parse(input: &'a str) -> (r: Option<MessageType<'a>>)
        ensures
            r is Some <==> is_message_type(input.spec_bytes()),
            r is Some ==> r->0.bytes() == input.spec_bytes(),
            r is Some && r->0 is Scoped ==> r->0->Scoped_0.source() == input,
    {
        let b = input.as_bytes();
        proof {
            lemma_kinds_are_disjoint(b@);
        }
        if bytes_equal(b, init_str().as_bytes()) {
            Some(MessageType::Init)
        } else if bytes_equal(b, want_str().as_bytes()) {
            Some(MessageType::Want)
        } else if bytes_equal(b, have_str().as_bytes()) {
            Some(MessageType::Have)
        } else if bytes_equal(b, nope_str().as_bytes()) {
            Some(MessageType::Nope)
        } else {
            match ScopedIdentifier::parse(input) {
                Some(s) => Some(MessageType::Scoped(s)),
                None => None,
            }
        }
    }

    /// The message type as it is written.
    pub fn as_str(&self) -> (r: &'a str)
        ensures
            r.spec_bytes() == self.bytes(),
            is_message_type(r.spec_bytes()),
    {
        match *self {
            MessageType::Init => init_str(),
            MessageType::Want => want_str(),
            MessageType::Have => have_str(),
            MessageType::Nope => nope_str(),
            MessageType::Scoped(ref s) => s.as_str(),
        }
    }
}

/// The string `init`.
pub fn init_str() -> (r: &'static str)
    ensures
        r.spec_bytes() == init_bytes(),
{
    proof {
        reveal_strlit("init");
        is_ascii_spec_bytes("init");
        assert("init".spec_bytes() =~= init_bytes());
    }
    "init"
}

/// The string `want`.
pub fn want_str() -> (r: &'static str)
    ensures
        r.spec_bytes() == want_bytes(),
{
    proof {
        reveal_strlit("want");
        is_ascii_spec_bytes("want");
        assert("want".spec_bytes() =~= want_bytes());
    }
    "want"
}

/// The string `have`.
pub fn have_str() -> (r: &'static str)
    ensures
        r.spec_bytes() == have_bytes(),
{
    proof {
        reveal_strlit("have");
        is_ascii_spec_bytes("have");
        assert("have".spec_bytes() =~= have_bytes());
    }
    "have"
}

/// The string `nope`.
pub fn nope_str() -> (r: &'static str)
    ensures
        r.spec_bytes() == nope_bytes(),
{
    proof {
        reveal_strlit("nope");
        is_ascii_spec_bytes("nope");
        assert("nope".spec_bytes() =~= nope_bytes());
    }
    "nope"
}

} // verus!

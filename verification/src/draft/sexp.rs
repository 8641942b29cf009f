//! The text form of messages that the draft started out with:
//! s-expressions of barewords and quoted strings, such as
//! `(core.set example.title "hello world")`.

use vstd::prelude::*;
use vstd::string::StrSliceExecFns;
use vstd::string::StringSliceAdditionalSpecFns;
use vstd::utf8::encode_utf8;
use vstd::utf8::valid_utf8;
use crate::common::foundation::text::lemma_ascii_is_utf8;
use crate::common::foundation::text::push_char;
use crate::common::foundation::text::string_from_utf8;
use crate::common::foundation::text::string_from_utf8_lossy;
use crate::common::foundation::text::utf8_valid_up_to;
use crate::draft::is_draft_message_type;
use crate::draft::split_draft_scoped;

verus! {

////////////////////////////////////////////////////////////////////////////////
// errors

/// The kinds of errors that parsing an s-expression can end in.
#[derive(Clone, Copy, Debug, PartialEq, Eq, Structural)]
pub enum ParseErrorKind {
    /// The input goes on behind what was parsed.
    ExpectedEOF,
    /// The input ends inside an s-expression or a quoted string.
    UnexpectedEOF,
    /// A quoted string holds bytes that are no valid UTF-8.
    InvalidUTF8,
    /// A byte stands where no token can start with it.
    InvalidToken,
    /// A quoted string holds a backslash before anything but a backslash or
    /// a quote.
    UnknownEscapeSequence,
    /// The s-expression is empty, so that it holds no message type.
    EmptyMessage,
    /// The first element of the s-expression is no message type.
    InvalidMessageType,
}

impl ParseErrorKind {
    /// The name of each kind, for people to read.
    pub open spec fn name(self) -> Seq<char> {
        match self {
            ParseErrorKind::ExpectedEOF => "expected EOF"@,
            ParseErrorKind::UnexpectedEOF => "unexpected EOF"@,
            ParseErrorKind::InvalidUTF8 => "invalid UTF-8"@,
            ParseErrorKind::InvalidToken => "unexpected character at start of token"@,
            ParseErrorKind::UnknownEscapeSequence => "unknown escape sequence"@,
            ParseErrorKind::EmptyMessage => "empty message"@,
            ParseErrorKind::InvalidMessageType => "invalid message type"@,
        }
    }

    /// Returns a human-readable name for this kind.
    pub fn to_str(&self) -> (r: &'static str)
        ensures
            r@ == self.name(),
    {
        match *self {
            ParseErrorKind::ExpectedEOF => "expected EOF",
            ParseErrorKind::UnexpectedEOF => "unexpected EOF",
            ParseErrorKind::InvalidUTF8 => "invalid UTF-8",
            ParseErrorKind::InvalidToken => "unexpected character at start of token",
            ParseErrorKind::UnknownEscapeSequence => "unknown escape sequence",
            ParseErrorKind::EmptyMessage => "empty message",
            ParseErrorKind::InvalidMessageType => "invalid message type",
        }
    }
}

/// The error of the parsing functions: what went wrong, and where in the
/// input.
#[derive(Clone, Copy, Debug, PartialEq, Eq, Structural)]
pub struct ParseError {
    /// The position in the input.
    pub offset: usize,
    /// The kind of error.
    pub kind: ParseErrorKind,
}

/// What the parsing functions return.
pub type ParseResult<T> = Result<T, ParseError>;

////////////////////////////////////////////////////////////////////////////////
// the grammar

/// A byte that can stand in a bareword: an ASCII letter, a digit, `.`, `-`
/// or `_`.
pub open spec fn bareword_byte(c: u8) -> bool {
    (0x61 <= c <= 0x7a) || (0x41 <= c <= 0x5a) || (0x30 <= c <= 0x39) || c == 0x2e || c == 0x2d
        || c == 0x5f
}

/// A byte of white space: a space, or one of the control characters from
/// tab to carriage return.
pub open spec fn space_byte(c: u8) -> bool {
    c == 0x20 || (9 <= c <= 13)
}

/// The first position at or after `from` that holds no byte of a bareword.
pub open spec fn bareword_end(buf: Seq<u8>, from: int) -> int
    decreases buf.len() - from,
{
    if from < 0 || from >= buf.len() || !bareword_byte(buf[from]) {
        from
    } else {
        bareword_end(buf, from + 1)
    }
}

/// Why and where reading stopped.
pub ghost struct Failure {
    pub kind: ParseErrorKind,
    pub offset: int,
}

/// The inside of a quoted string, and the position of its closing quote.
pub ghost struct Quoted {
    pub bytes: Seq<u8>,
    pub close: int,
}

/// Reads the inside of a quoted string from `pos` on: up to the next quote
/// that no backslash stands before. A backslash stands for the backslash or
/// quote behind it, and must not stand before anything else.
pub open spec fn read_quoted(buf: Seq<u8>, pos: int) -> Result<Quoted, Failure>
    decreases buf.len() - pos,
{
    if pos < 0 || pos >= buf.len() {
        Err(Failure { kind: ParseErrorKind::UnexpectedEOF, offset: max(pos, buf.len() as int) })
    } else if buf[pos] == 0x22 {
        Ok(Quoted { bytes: Seq::empty(), close: pos })
    } else if buf[pos] == 0x5c {
        if pos + 1 >= buf.len() {
            Err(Failure { kind: ParseErrorKind::UnexpectedEOF, offset: pos + 1 })
        } else if buf[pos + 1] == 0x5c || buf[pos + 1] == 0x22 {
            match read_quoted(buf, pos + 2) {
                Ok(rest) => Ok(Quoted { bytes: seq![buf[pos + 1]] + rest.bytes, close: rest.close }),
                Err(e) => Err(e),
            }
        } else {
            Err(Failure { kind: ParseErrorKind::UnknownEscapeSequence, offset: pos })
        }
    } else {
        match read_quoted(buf, pos + 1) {
            Ok(rest) => Ok(Quoted { bytes: seq![buf[pos]] + rest.bytes, close: rest.close }),
            Err(e) => Err(e),
        }
    }
}

/// The greater of two numbers.
pub open spec fn max(a: int, b: int) -> int {
    if a >= b {
        a
    } else {
        b
    }
}

/// Whether the byte can stand in a bareword.
pub fn isbareword(c: u8) -> (r: bool)
    ensures
        r == bareword_byte(c),
{
    (c >= 0x61 && c <= 0x7a) || (c >= 0x41 && c <= 0x5a) || (c >= 0x30 && c <= 0x39) || c == 0x2e
        || c == 0x2d || c == 0x5f
}

/// Whether the byte is white space.
pub fn isspace(c: u8) -> (r: bool)
    ensures
        r == space_byte(c),
{
    c == 0x20 || (c >= 9 && c <= 13)
}

////////////////////////////////////////////////////////////////////////////////
// ParserState

/// The state of the parsing functions: the input, which is only read, and
/// the position of the next byte to read.
#[derive(Clone, Copy, Debug, PartialEq, Eq)]
pub struct ParserState<'a> {
    /// The input.
    pub buffer: &'a [u8],
    /// The position of the next byte to read.
    pub cursor: usize,
}

impl<'a> ParserState<'a> {
    /// The position lies inside the input or at its end.
    pub open spec fn wf(&self) -> bool {
        self.cursor <= self.buffer@.len()
    }

    /// A state at the front of `buffer`.
    pub fn new(buffer: &'a [u8]) -> (r: Self)
        ensures
            r.buffer == buffer,
            r.cursor == 0,
            r.wf(),
    {
        ParserState { buffer, cursor: 0 }
    }

    /// An error of the given kind at the current position.
    pub fn error<T>(&self, kind: ParseErrorKind) -> (r: ParseResult<T>)
        ensures
            r == Err::<T, ParseError>(ParseError { offset: self.cursor, kind }),
    {
        Err(ParseError { offset: self.cursor, kind })
    }

    /// The byte at the current position.
    pub fn current(&self) -> (r: ParseResult<u8>)
        ensures
            self.cursor < self.buffer@.len() ==> r == Ok::<u8, ParseError>(
                self.buffer@[self.cursor as int],
            ),
            self.cursor >= self.buffer@.len() ==> r == Err::<u8, ParseError>(
                ParseError { offset: self.cursor, kind: ParseErrorKind::UnexpectedEOF },
            ),
    {
        if self.cursor < self.buffer.len() {
            Ok(self.buffer[self.cursor])
        } else {
            self.error(ParseErrorKind::UnexpectedEOF)
        }
    }

    /// Moves to the next byte and returns it.
    pub fn advance(&mut self) -> (r: ParseResult<u8>)
        requires
            old(self).cursor < old(self).buffer@.len(),
        ensures
            final(self).buffer == old(self).buffer,
            final(self).cursor == old(self).cursor + 1,
            final(self).wf(),
            final(self).cursor < final(self).buffer@.len() ==> r == Ok::<u8, ParseError>(
                final(self).buffer@[final(self).cursor as int],
            ),
            final(self).cursor >= final(self).buffer@.len() ==> r == Err::<u8, ParseError>(
                ParseError { offset: final(self).cursor, kind: ParseErrorKind::UnexpectedEOF },
            ),
    {
        proof {
            assert(self.buffer.len() <= usize::MAX);
        }
        self.cursor = self.cursor + 1;
        self.current()
    }
}

////////////////////////////////////////////////////////////////////////////////
// Atom

/// An atom: a bareword or a quoted string.
#[derive(Clone, Debug, PartialEq, Eq, PartialOrd, Ord)]
pub struct Atom {
    /// The string that this atom stands for.
    pub value: String,
    /// Whether the atom was written as a quoted string where it was parsed.
    /// This matters where only a bareword may stand: message types must be
    /// barewords.
    pub was_quoted: bool,
}

/// A character that can stand in a bareword: an ASCII letter, a digit, `.`,
/// `-` or `_`.
pub open spec fn bareword_char(c: char) -> bool {
    ('a' <= c <= 'z') || ('A' <= c <= 'Z') || ('0' <= c <= '9') || c == '.' || c == '-' || c == '_'
}

/// A string as it is written in quotes: a backslash before each backslash
/// and quote.
pub open spec fn quote_chars(value: Seq<char>) -> Seq<char>
    decreases value.len(),
{
    if value.len() == 0 {
        Seq::empty()
    } else if value.last() == '\\' || value.last() == '"' {
        quote_chars(value.drop_last()) + seq!['\\', value.last()]
    } else {
        quote_chars(value.drop_last()).push(value.last())
    }
}

/// Whether `value` can be written as a bareword: all its characters can
/// stand in a bareword.
pub open spec fn is_bareword(value: Seq<char>) -> bool {
    forall|i: int| 0 <= i < value.len() ==> bareword_char(#[trigger] value[i])
}

/// Whether `value` holds a backslash or a quote.
pub open spec fn needs_backslash(value: Seq<char>) -> bool {
    exists|i: int| 0 <= i < value.len() && (#[trigger] value[i] == '\\' || value[i] == '"')
}

/// An atom as it is written: as a bareword if it can be, and else in quotes.
pub open spec fn atom_text(value: Seq<char>) -> Seq<char> {
    if is_bareword(value) {
        value
    } else {
        seq!['"'] + quote_chars(value) + seq!['"']
    }
}

/// Whether the character can stand in a bareword.
pub fn is_bareword_char(c: char) -> (r: bool)
    ensures
        r == bareword_char(c),
{
    (c >= 'a' && c <= 'z') || (c >= 'A' && c <= 'Z') || (c >= '0' && c <= '9') || c == '.' || c == '-'
        || c == '_'
}

/// Appends `value` to `out` as it is written in quotes.
pub fn push_quoted(out: &mut String, value: &str)
    ensures
        final(out)@ == old(out)@ + seq!['"'] + quote_chars(value@) + seq!['"'],
{
    push_char(out, '"');
    let ghost prefix = out@;
    let n = value.unicode_len();
    let mut k: usize = 0;
    assert(value@.subrange(0, 0) =~= Seq::<char>::empty());
    assert(out@ =~= prefix + quote_chars(value@.subrange(0, 0)));
    while k < n
        invariant
            n == value@.len(),
            k <= n,
            out@ == prefix + quote_chars(value@.subrange(0, k as int)),
        decreases n - k,
    {
        let c = value.get_char(k);
        if c == '\\' || c == '"' {
            push_char(out, '\\');
        }
        push_char(out, c);
        proof {
            assert(value@.subrange(0, k + 1).drop_last() =~= value@.subrange(0, k as int));
            assert(out@ =~= prefix + quote_chars(value@.subrange(0, k + 1)));
        }
        k = k + 1;
    }
    assert(value@.subrange(0, n as int) =~= value@);
    push_char(out, '"');
    assert(out@ =~= old(out)@ + seq!['"'] + quote_chars(value@) + seq!['"']);
}

impl Atom {
    /// The bytes of the string that this atom stands for.
    pub open spec fn bytes(&self) -> Seq<u8> {
        encode_utf8(self.value@)
    }

    /// Makes an atom for the given string.
    pub fn new(s: String) -> (r: Atom)
        ensures
            r.value == s,
            !r.was_quoted,
    {
        Atom { value: s, was_quoted: false }
    }

    /// Whether this atom is a scoped name: it was not in quotes, and it is
    /// two identifiers with a dot between them.
    pub fn is_scoped_name(&self) -> (r: bool)
        ensures
            r == (!self.was_quoted && split_draft_scoped(self.bytes()) is Some),
    {
        !self.was_quoted && crate::draft::is_scoped_identifier(self.value.as_str()).is_some()
    }

    /// Whether this atom is a message type: it was not in quotes, and it is
    /// `want`, `have` or `nope`, or a scoped name.
    pub fn is_message_type(&self) -> (r: bool)
        ensures
            r == (!self.was_quoted && is_draft_message_type(self.bytes())),
    {
        if self.was_quoted {
            return false;
        }
        crate::draft::is_message_type(self.value.as_str()).is_some()
    }

    /// Appends the atom to `out` as it is written: as a bareword if it can
    /// be, and else in quotes.
    pub fn write_to(&self, out: &mut String)
        ensures
            final(out)@ == old(out)@ + atom_text(self.value@),
    {
        let value = self.value.as_str();
        let n = value.unicode_len();
        let mut bare = true;
        let mut i: usize = 0;
        while i < n
            invariant
                n == value@.len(),
                i <= n,
                bare == (forall|j: int| 0 <= j < i ==> bareword_char(#[trigger] value@[j])),
            decreases n - i,
        {
            if !is_bareword_char(value.get_char(i)) {
                bare = false;
            }
            i = i + 1;
        }
        if bare {
            //can encode this string as a bareword, that is as it is
            vstd::string::StringExecFns::append(out, value);
        } else {
            //cannot encode this string as a bareword -> write a quoted string
            push_quoted(out, value);
            assert(out@ =~= old(out)@ + atom_text(self.value@));
        }
    }

    /// The atom as it is written: as a bareword if it can be, and else in
    /// quotes.
    pub fn to_string(&self) -> (r: String)
        ensures
            r@ == atom_text(self.value@),
    {
        let mut out = String::new();
        self.write_to(&mut out);
        assert(out@ =~= atom_text(self.value@));
        out
    }
}

/// The string in quotes, with a backslash before each backslash and quote;
/// or the string as it is, if it holds neither.
pub fn add_quotes(input: &String) -> (r: String)
    ensures
        r@ == (if needs_backslash(input@) {
            seq!['"'] + quote_chars(input@) + seq!['"']
        } else {
            input@
        }),
{
    let value = input.as_str();
    let n = value.unicode_len();
    let mut to_escape: usize = 0;
    let mut i: usize = 0;
    while i < n
        invariant
            n == value@.len(),
            i <= n,
            to_escape <= i,
            to_escape == 0 <==> forall|j: int|
                0 <= j < i ==> !(#[trigger] value@[j] == '\\' || value@[j] == '"'),
        decreases n - i,
    {
        let c = value.get_char(i);
        if c == '\\' || c == '"' {
            to_escape = to_escape + 1;
        }
        i = i + 1;
    }
    if to_escape == 0 {
        return input.clone();
    }
    let mut out = String::new();
    push_quoted(&mut out, value);
    assert(out@ =~= seq!['"'] + quote_chars(input@) + seq!['"']);
    out
}

////////////////////////////////////////////////////////////////////////////////
// s-expressions

/// An element of an s-expression: an atom, or an s-expression again.
#[derive(Debug, PartialEq, Eq)]
pub enum Element {
    Atom(Atom),
    SExpression(SExpression),
}

/// An s-expression: a list of elements.
#[derive(Debug, PartialEq, Eq)]
pub struct SExpression(pub Vec<Element>);

/// What an element is made of: the string of an atom and whether it was in
/// quotes, or the elements of a list.
pub ghost enum Node {
    Atom { value: Seq<char>, was_quoted: bool },
    List(Seq<Node>),
}

impl Atom {
    /// What the atom is made of.
    pub open spec fn node(&self) -> Node {
        Node::Atom { value: self.value@, was_quoted: self.was_quoted }
    }
}

impl Element {
    /// What the element is made of.
    pub open spec fn node(&self) -> Node
        decreases self,
    {
        match self {
            Element::Atom(a) => a.node(),
            Element::SExpression(s) => Node::List(nodes_of(s.0@)),
        }
    }
}

/// What the elements are made of.
pub open spec fn nodes_of(elements: Seq<Element>) -> Seq<Node>
    decreases elements,
{
    if elements.len() == 0 {
        Seq::empty()
    } else {
        nodes_of(elements.drop_last()).push(elements.last().node())
    }
}

impl SExpression {
    /// What the s-expression is made of.
    pub open spec fn node(&self) -> Node {
        Node::List(nodes_of(self.0@))
    }
}

/// One more element at the end.
pub proof fn lemma_nodes_of_push(elements: Seq<Element>, last: Element)
    ensures
        nodes_of(elements.push(last)) == nodes_of(elements).push(last.node()),
{
    assert(elements.push(last).drop_last() =~= elements);
}

/// An element that was read, and the position behind it.
pub ghost struct Read {
    pub node: Node,
    pub next: int,
}

/// The elements of a list that were read, and the position behind the
/// closing parenthesis.
pub ghost struct ReadList {
    pub nodes: Seq<Node>,
    pub next: int,
}

/// Reads the bareword at `pos`: all the bytes from there on that can stand
/// in a bareword.
pub open spec fn read_bareword(buf: Seq<u8>, pos: int) -> Read {
    Read {
        node: Node::Atom {
            value: vstd::utf8::decode_utf8(buf.subrange(pos, bareword_end(buf, pos))),
            was_quoted: false,
        },
        next: bareword_end(buf, pos),
    }
}

/// Reads the quoted string whose opening quote stands at `pos`. What stands
/// between the quotes must be valid UTF-8 once the backslashes are taken
/// out.
pub open spec fn read_quoted_atom(buf: Seq<u8>, pos: int) -> Result<Read, Failure> {
    match read_quoted(buf, pos + 1) {
        Err(e) => Err(e),
        Ok(inside) => if valid_utf8(inside.bytes) {
            Ok(
                Read {
                    node: Node::Atom {
                        value: vstd::utf8::decode_utf8(inside.bytes),
                        was_quoted: true,
                    },
                    next: inside.close + 1,
                },
            )
        } else {
            Err(
                Failure {
                    kind: ParseErrorKind::InvalidUTF8,
                    offset: pos + 1 + utf8_valid_up_to(inside.bytes),
                },
            )
        },
    }
}

/// Reads an atom at `pos`, behind any white space: a quoted string or a
/// bareword.
pub open spec fn read_atom(buf: Seq<u8>, pos: int) -> Result<Read, Failure>
    decreases buf.len() - pos,
{
    if pos < 0 || pos >= buf.len() {
        Err(Failure { kind: ParseErrorKind::UnexpectedEOF, offset: pos })
    } else if buf[pos] == 0x22 {
        read_quoted_atom(buf, pos)
    } else if bareword_byte(buf[pos]) {
        Ok(read_bareword(buf, pos))
    } else if space_byte(buf[pos]) {
        read_atom(buf, pos + 1)
    } else {
        Err(Failure { kind: ParseErrorKind::InvalidToken, offset: pos })
    }
}

/// Reads an s-expression at `pos`, behind any white space: an opening
/// parenthesis, elements, and a closing parenthesis.
pub open spec fn read_sexp(buf: Seq<u8>, pos: int) -> Result<Read, Failure>
    decreases buf.len() - pos, 0int,
{
    if pos < 0 || pos >= buf.len() {
        Err(Failure { kind: ParseErrorKind::UnexpectedEOF, offset: pos })
    } else if space_byte(buf[pos]) {
        read_sexp(buf, pos + 1)
    } else if buf[pos] == 0x28 {
        match read_elements(buf, pos + 1) {
            Ok(list) => Ok(Read { node: Node::List(list.nodes), next: list.next }),
            Err(e) => Err(e),
        }
    } else {
        Err(Failure { kind: ParseErrorKind::InvalidToken, offset: pos })
    }
}

/// Reads the elements of a list from `pos` on, up to the closing
/// parenthesis. White space between the elements is skipped.
pub open spec fn read_elements(buf: Seq<u8>, pos: int) -> Result<ReadList, Failure>
    decreases buf.len() - pos, 1int,
{
    if pos < 0 || pos >= buf.len() {
        Err(Failure { kind: ParseErrorKind::UnexpectedEOF, offset: pos })
    } else if buf[pos] == 0x29 {
        Ok(ReadList { nodes: Seq::empty(), next: pos + 1 })
    } else if space_byte(buf[pos]) {
        read_elements(buf, pos + 1)
    } else {
        let first = if buf[pos] == 0x28 {
            read_sexp(buf, pos)
        } else if buf[pos] == 0x22 {
            read_quoted_atom(buf, pos)
        } else if bareword_byte(buf[pos]) {
            Ok(read_bareword(buf, pos))
        } else {
            Err(Failure { kind: ParseErrorKind::InvalidToken, offset: pos })
        };
        match first {
            Err(e) => Err(e),
            Ok(first) => if pos < first.next <= buf.len() {
                match read_elements(buf, first.next) {
                    Err(e) => Err(e),
                    Ok(rest) => Ok(
                        ReadList { nodes: seq![first.node] + rest.nodes, next: rest.next },
                    ),
                }
            } else {
                Err(Failure { kind: ParseErrorKind::InvalidToken, offset: pos })
            },
        }
    }
}

/// The end of a bareword lies inside the buffer, behind bytes of a bareword
/// only, and before a byte that is none.
pub proof fn lemma_bareword_end(buf: Seq<u8>, from: int)
    requires
        0 <= from <= buf.len(),
    ensures
        from <= bareword_end(buf, from) <= buf.len(),
        forall|i: int| from <= i < bareword_end(buf, from) ==> bareword_byte(#[trigger] buf[i]),
        bareword_end(buf, from) < buf.len() ==> !bareword_byte(buf[bareword_end(buf, from)]),
        from < buf.len() && bareword_byte(buf[from]) ==> bareword_end(buf, from) > from,
    decreases buf.len() - from,
{
    if from < buf.len() && bareword_byte(buf[from]) {
        lemma_bareword_end(buf, from + 1);
    }
}

/// A position that ends a run of bytes of a bareword is the end that
/// `bareword_end` finds.
pub proof fn lemma_bareword_end_is(buf: Seq<u8>, from: int, end: int)
    requires
        0 <= from <= end <= buf.len(),
        forall|i: int| from <= i < end ==> bareword_byte(#[trigger] buf[i]),
        end < buf.len() ==> !bareword_byte(buf[end]),
    ensures
        bareword_end(buf, from) == end,
    decreases end - from,
{
    if from < end {
        lemma_bareword_end_is(buf, from + 1, end);
    }
}

/// What is read inside quotes ends at a quote inside the buffer, and is no
/// longer than what stands before that quote.
pub proof fn lemma_read_quoted_bounds(buf: Seq<u8>, pos: int)
    requires
        0 <= pos <= buf.len(),
    ensures
        match read_quoted(buf, pos) {
            Ok(inside) => pos <= inside.close < buf.len() && inside.bytes.len() <= inside.close
                - pos && buf[inside.close] == 0x22,
            Err(e) => pos <= e.offset <= buf.len(),
        },
    decreases buf.len() - pos,
{
    if pos < buf.len() && buf[pos] != 0x22 {
        if buf[pos] == 0x5c {
            if pos + 1 < buf.len() && (buf[pos + 1] == 0x5c || buf[pos + 1] == 0x22) {
                lemma_read_quoted_bounds(buf, pos + 2);
            }
        } else {
            lemma_read_quoted_bounds(buf, pos + 1);
        }
    }
}

/// Parses the bareword at the cursor.
pub fn parse_bareword(state: &mut ParserState<'_>) -> (r: ParseResult<Atom>)
    requires
        old(state).wf(),
    ensures
        final(state).wf(),
        final(state).buffer == old(state).buffer,
        old(state).cursor < old(state).buffer@.len() && bareword_byte(
            old(state).buffer@[old(state).cursor as int],
        ) ==> r is Ok && r->Ok_0.node() == read_bareword(
            old(state).buffer@,
            old(state).cursor as int,
        ).node && final(state).cursor == read_bareword(
            old(state).buffer@,
            old(state).cursor as int,
        ).next && final(state).cursor > old(state).cursor,
        old(state).cursor >= old(state).buffer@.len() ==> r == Err::<Atom, ParseError>(
            ParseError { offset: old(state).cursor, kind: ParseErrorKind::UnexpectedEOF },
        ) && final(state).cursor == old(state).cursor,
        old(state).cursor < old(state).buffer@.len() && !bareword_byte(
            old(state).buffer@[old(state).cursor as int],
        ) ==> r == Err::<Atom, ParseError>(
            ParseError { offset: old(state).cursor, kind: ParseErrorKind::InvalidToken },
        ) && final(state).cursor == old(state).cursor,
{
    //This expects the cursor to point to the first char of a bareword atom.
    let first = match state.current() {
        Ok(first) => first,
        Err(e) => {
            return Err(e);
        },
    };
    if !isbareword(first) {
        return state.error(ParseErrorKind::InvalidToken);
    }
    let start = state.cursor;
    let len = state.buffer.len();
    state.cursor = state.cursor + 1;
    while state.cursor < len && isbareword(state.buffer[state.cursor])
        invariant
            state.buffer == old(state).buffer,
            len == state.buffer@.len(),
            start == old(state).cursor,
            start < state.cursor <= len,
            forall|i: int| start <= i < state.cursor ==> bareword_byte(#[trigger] state.buffer@[i]),
        decreases len - state.cursor,
    {
        state.cursor = state.cursor + 1;
    }
    let bareword = vstd::slice::slice_subrange(state.buffer, start, state.cursor);
    proof {
        lemma_bareword_end_is(state.buffer@, start as int, state.cursor as int);
        assert forall|i: int| 0 <= i < bareword@.len() implies #[trigger] bareword@[i] < 0x80 by {
            assert(bareword_byte(state.buffer@[start + i]));
        }
        lemma_ascii_is_utf8(bareword@);
    }
    let value = string_from_utf8_lossy(bareword);
    proof {
        vstd::utf8::encode_utf8_decode_utf8(value@);
    }
    Ok(Atom { value, was_quoted: false })
}

/// Parses the quoted string whose opening quote stands at the cursor.
pub fn parse_quoted_string(state: &mut ParserState<'_>) -> (r: ParseResult<Atom>)
    requires
        old(state).cursor < old(state).buffer@.len(),
    ensures
        final(state).wf(),
        final(state).buffer == old(state).buffer,
        match read_quoted_atom(old(state).buffer@, old(state).cursor as int) {
            Ok(read) => r is Ok && r->Ok_0.node() == read.node && final(state).cursor == read.next
                && final(state).cursor > old(state).cursor,
            Err(e) => r == Err::<Atom, ParseError>(
                ParseError { offset: e.offset as usize, kind: e.kind },
            ) && e.offset <= old(state).buffer@.len(),
        },
{
    //This expects `state.cursor` to point to the opening quote of a quoted string.
    let mut string_buffer: Vec<u8> = Vec::new();
    let len = state.buffer.len();
    let offset = state.cursor + 1;
    let ghost buf = state.buffer@;
    proof {
        lemma_read_quoted_bounds(buf, offset as int);
    }
    loop
        invariant_except_break
            match read_quoted(buf, state.cursor + 1) {
                Ok(rest) => read_quoted(buf, offset as int) == Ok::<Quoted, Failure>(
                    Quoted { bytes: string_buffer@ + rest.bytes, close: rest.close },
                ),
                Err(e) => read_quoted(buf, offset as int) == Err::<Quoted, Failure>(e),
            },
        invariant
            state.buffer == old(state).buffer,
            buf == state.buffer@,
            len == buf.len(),
            offset == old(state).cursor + 1,
            state.cursor < len,
            offset <= state.cursor + 1,
            string_buffer@.len() <= state.cursor + 1 - offset,
        ensures
            offset <= state.cursor,
            read_quoted(buf, offset as int) == Ok::<Quoted, Failure>(
                Quoted { bytes: string_buffer@, close: state.cursor as int },
            ),
        decreases len - state.cursor,
    {
        let ghost before = string_buffer@;
        let ghost at = state.cursor + 1;
        proof {
            lemma_read_quoted_bounds(buf, at);
        }
        let c = match state.advance() {
            Ok(c) => c,
            Err(e) => {
                return Err(e);
            },
        };
        if c == 0x22 {
            proof {
                assert(before + Seq::<u8>::empty() =~= before);
            }
            break ;
        } else if c == 0x5c {
            let escaped = match state.advance() {
                Ok(escaped) => escaped,
                Err(e) => {
                    return Err(e);
                },
            };
            if escaped == 0x5c || escaped == 0x22 {
                string_buffer.push(escaped);
                proof {
                    lemma_read_quoted_bounds(buf, at + 2);
                    if let Ok(rest) = read_quoted(buf, at + 2) {
                        assert(before + (seq![escaped] + rest.bytes) =~= string_buffer@
                            + rest.bytes);
                    }
                }
            } else {
                //report error where escape sequence started
                state.cursor = state.cursor - 1;
                return state.error(ParseErrorKind::UnknownEscapeSequence);
            }
        } else {
            string_buffer.push(c);
            proof {
                lemma_read_quoted_bounds(buf, at + 1);
                if let Ok(rest) = read_quoted(buf, at + 1) {
                    assert(before + (seq![c] + rest.bytes) =~= string_buffer@ + rest.bytes);
                }
            }
        }
        if state.cursor + 1 >= len {
            //the input ends inside the quoted string
            state.cursor = len;
            return state.error(ParseErrorKind::UnexpectedEOF);
        }
    }
    state.cursor = state.cursor + 1;
    let ghost inside = string_buffer@;
    match string_from_utf8(string_buffer) {
        Ok(s) => {
            proof {
                vstd::utf8::encode_utf8_decode_utf8(s@);
            }
            Ok(Atom { value: s, was_quoted: true })
        },
        Err(valid_up_to) => {
            proof {
                crate::common::foundation::text::lemma_valid_up_to_is_unique(inside, valid_up_to as int);
            }
            Err(ParseError { offset: offset + valid_up_to, kind: ParseErrorKind::InvalidUTF8 })
        },
    }
}

/// Parses an atom at the cursor, behind any white space.
pub fn parse_atom(state: &mut ParserState<'_>) -> (r: ParseResult<Atom>)
    requires
        old(state).wf(),
    ensures
        final(state).wf(),
        final(state).buffer == old(state).buffer,
        match read_atom(old(state).buffer@, old(state).cursor as int) {
            Ok(read) => r is Ok && r->Ok_0.node() == read.node && final(state).cursor == read.next
                && final(state).cursor > old(state).cursor,
            Err(e) => r == Err::<Atom, ParseError>(
                ParseError { offset: e.offset as usize, kind: e.kind },
            ) && e.offset <= old(state).buffer@.len(),
        },
{
    let len = state.buffer.len();
    //consume leading whitespace
    while state.cursor < len && isspace(state.buffer[state.cursor])
        invariant
            state.buffer == old(state).buffer,
            len == state.buffer@.len(),
            old(state).cursor <= state.cursor <= len,
            read_atom(state.buffer@, state.cursor as int) == read_atom(
                old(state).buffer@,
                old(state).cursor as int,
            ),
        decreases len - state.cursor,
    {
        state.cursor = state.cursor + 1;
    }
    match state.current() {
        Err(e) => Err(e),
        Ok(c) => {
            if c == 0x22 {
                parse_quoted_string(state)
            } else if isbareword(c) {
                parse_bareword(state)
            } else {
                state.error(ParseErrorKind::InvalidToken)
            }
        },
    }
}

/// Parses an s-expression at the cursor, behind any white space.
pub fn parse_sexp(state: &mut ParserState<'_>) -> (r: ParseResult<SExpression>)
    requires
        old(state).wf(),
    ensures
        final(state).wf(),
        final(state).buffer == old(state).buffer,
        match read_sexp(old(state).buffer@, old(state).cursor as int) {
            Ok(read) => r is Ok && r->Ok_0.node() == read.node && final(state).cursor == read.next
                && final(state).cursor > old(state).cursor,
            Err(e) => r == Err::<SExpression, ParseError>(
                ParseError { offset: e.offset as usize, kind: e.kind },
            ) && e.offset <= old(state).buffer@.len(),
        },
    decreases old(state).buffer@.len() - old(state).cursor,
{
    let len = state.buffer.len();
    let ghost buf = state.buffer@;
    //consume leading whitespace
    while state.cursor < len && isspace(state.buffer[state.cursor])
        invariant
            state.buffer == old(state).buffer,
            buf == state.buffer@,
            len == buf.len(),
            old(state).cursor <= state.cursor <= len,
            read_sexp(buf, state.cursor as int) == read_sexp(buf, old(state).cursor as int),
        decreases len - state.cursor,
    {
        state.cursor = state.cursor + 1;
    }
    match state.current() {
        Err(e) => {
            return Err(e);
        },
        Ok(c) => {
            if c != 0x28 {
                return state.error(ParseErrorKind::InvalidToken);
            }
        },
    }
    //consume opening paren
    state.cursor = state.cursor + 1;
    let ghost start = state.cursor as int;
    let mut elements: Vec<Element> = Vec::new();
    proof {
        assert(nodes_of(elements@) =~= Seq::<Node>::empty());
        assert(Seq::<Node>::empty() + read_elements(buf, start)->Ok_0.nodes =~= read_elements(
            buf,
            start,
        )->Ok_0.nodes);
    }
    loop
        invariant
            state.buffer == old(state).buffer,
            buf == state.buffer@,
            len == buf.len(),
            old(state).cursor < start <= state.cursor <= len,
            read_sexp(buf, old(state).cursor as int) == (match read_elements(buf, start) {
                Ok(list) => Ok::<Read, Failure>(
                    Read { node: Node::List(list.nodes), next: list.next },
                ),
                Err(e) => Err::<Read, Failure>(e),
            }),
            match read_elements(buf, state.cursor as int) {
                Ok(rest) => read_elements(buf, start) == Ok::<ReadList, Failure>(
                    ReadList { nodes: nodes_of(elements@) + rest.nodes, next: rest.next },
                ),
                Err(e) => read_elements(buf, start) == Err::<ReadList, Failure>(e),
            },
        decreases len - state.cursor,
    {
        let ghost done = nodes_of(elements@);
        let ghost at = state.cursor as int;
        let c = match state.current() {
            Ok(c) => c,
            Err(e) => {
                return Err(e);
            },
        };
        if c == 0x29 {
            //consume closing paren
            state.cursor = state.cursor + 1;
            proof {
                assert(done + Seq::<Node>::empty() =~= done);
            }
            return Ok(SExpression(elements));
        } else if isspace(c) {
            //skip over whitespace between elements
            state.cursor = state.cursor + 1;
        } else {
            let element = if c == 0x28 {
                match parse_sexp(state) {
                    Ok(inner) => Element::SExpression(inner),
                    Err(e) => {
                        return Err(e);
                    },
                }
            } else if c == 0x22 {
                match parse_quoted_string(state) {
                    Ok(atom) => Element::Atom(atom),
                    Err(e) => {
                        return Err(e);
                    },
                }
            } else if isbareword(c) {
                match parse_bareword(state) {
                    Ok(atom) => Element::Atom(atom),
                    Err(e) => {
                        return Err(e);
                    },
                }
            } else {
                return state.error(ParseErrorKind::InvalidToken);
            };
            proof {
                lemma_nodes_of_push(elements@, element);
                if let Ok(rest) = read_elements(buf, state.cursor as int) {
                    assert(done + (seq![element.node()] + rest.nodes) =~= done.push(element.node())
                        + rest.nodes);
                }
            }
            elements.push(element);
        }
    }
}

/// The types that have a text form: atoms, s-expressions and messages.
pub trait Parse: Sized {
    /// What is read at `pos`: the value and the position behind it.
    spec fn reads(buf: Seq<u8>, pos: int) -> Result<Read, Failure>;

    /// What the value is made of.
    spec fn made_of(&self) -> Node;

    /// Parses the text form of a value at the cursor, behind any white
    /// space, and moves the cursor behind it.
    fn parse(state: &mut ParserState<'_>) -> (r: ParseResult<Self>)
        requires
            old(state).wf(),
        ensures
            final(state).wf(),
            final(state).buffer == old(state).buffer,
            match Self::reads(old(state).buffer@, old(state).cursor as int) {
                Ok(read) => r is Ok && r->Ok_0.made_of() == read.node && final(state).cursor
                    == read.next,
                Err(e) => r == Err::<Self, ParseError>(
                    ParseError { offset: e.offset as usize, kind: e.kind },
                ),
            },
    ;

    /// Parses the text form of a value from a byte string, all of which it
    /// must take up.
    fn parse_byte_string(text: &[u8]) -> (r: ParseResult<Self>)
        ensures
            match Self::reads(text@, 0) {
                Ok(read) => if read.next < text@.len() {
                    r == Err::<Self, ParseError>(
                        ParseError { offset: read.next as usize, kind: ParseErrorKind::ExpectedEOF },
                    )
                } else {
                    r is Ok && r->Ok_0.made_of() == read.node
                },
                Err(e) => r == Err::<Self, ParseError>(
                    ParseError { offset: e.offset as usize, kind: e.kind },
                ),
            },
    {
        let mut state = ParserState::new(text);
        let result = match Self::parse(&mut state) {
            Ok(result) => result,
            Err(e) => {
                return Err(e);
            },
        };
        if state.cursor < text.len() {
            state.error(ParseErrorKind::ExpectedEOF)
        } else {
            Ok(result)
        }
    }
}

impl Parse for Atom {
    open spec fn reads(buf: Seq<u8>, pos: int) -> Result<Read, Failure> {
        read_atom(buf, pos)
    }

    open spec fn made_of(&self) -> Node {
        self.node()
    }

    fn parse(state: &mut ParserState<'_>) -> (r: ParseResult<Atom>) {
        parse_atom(state)
    }
}

impl Parse for SExpression {
    open spec fn reads(buf: Seq<u8>, pos: int) -> Result<Read, Failure> {
        read_sexp(buf, pos)
    }

    open spec fn made_of(&self) -> Node {
        self.node()
    }

    fn parse(state: &mut ParserState<'_>) -> (r: ParseResult<SExpression>) {
        parse_sexp(state)
    }
}

impl Atom {
    /// Parses an atom at the cursor, behind any white space: a bareword or
    /// a quoted string. The cursor is moved behind it.
    pub fn parse(state: &mut ParserState<'_>) -> (r: ParseResult<Atom>)
        requires
            old(state).wf(),
        ensures
            final(state).wf(),
            final(state).buffer == old(state).buffer,
            match read_atom(old(state).buffer@, old(state).cursor as int) {
                Ok(read) => r is Ok && r->Ok_0.node() == read.node && final(state).cursor
                    == read.next,
                Err(e) => r == Err::<Atom, ParseError>(
                    ParseError { offset: e.offset as usize, kind: e.kind },
                ),
            },
    {
        parse_atom(state)
    }
}

impl SExpression {
    /// Parses an s-expression at the cursor, behind any white space. The
    /// cursor is moved behind its closing parenthesis.
    pub fn parse(state: &mut ParserState<'_>) -> (r: ParseResult<SExpression>)
        requires
            old(state).wf(),
        ensures
            final(state).wf(),
            final(state).buffer == old(state).buffer,
            match read_sexp(old(state).buffer@, old(state).cursor as int) {
                Ok(read) => r is Ok && r->Ok_0.node() == read.node && final(state).cursor
                    == read.next,
                Err(e) => r == Err::<SExpression, ParseError>(
                    ParseError { offset: e.offset as usize, kind: e.kind },
                ),
            },
    {
        parse_sexp(state)
    }
}

////////////////////////////////////////////////////////////////////////////////
// the text form

/// An element as it is written: an atom as a bareword or in quotes, a list
/// in parentheses.
pub open spec fn node_text(node: Node) -> Seq<char>
    decreases node, 0int,
{
    match node {
        Node::Atom { value, was_quoted } => atom_text(value),
        Node::List(nodes) => seq!['('] + joined_text(nodes, nodes.len() as int) + seq![')'],
    }
}

/// The first `count` of the elements as they are written, with a space
/// between each two.
pub open spec fn joined_text(nodes: Seq<Node>, count: int) -> Seq<char>
    decreases nodes, 1int, count,
{
    if count <= 0 || count > nodes.len() {
        Seq::empty()
    } else if count == 1 {
        node_text(nodes[0])
    } else {
        joined_text(nodes, count - 1) + seq![' '] + node_text(nodes[count - 1])
    }
}

/// The nodes of the first elements are the first nodes of all.
pub proof fn lemma_nodes_of_index(elements: Seq<Element>, i: int)
    requires
        0 <= i < elements.len(),
    ensures
        nodes_of(elements).len() == elements.len(),
        nodes_of(elements)[i] == elements[i].node(),
    decreases elements.len(),
{
    lemma_nodes_of_len(elements);
    if i < elements.len() - 1 {
        lemma_nodes_of_index(elements.drop_last(), i);
        lemma_nodes_of_len(elements.drop_last());
    }
}

/// There are as many nodes as elements.
pub proof fn lemma_nodes_of_len(elements: Seq<Element>)
    ensures
        nodes_of(elements).len() == elements.len(),
    decreases elements.len(),
{
    if elements.len() > 0 {
        lemma_nodes_of_len(elements.drop_last());
    }
}

impl Element {
    /// Appends the element to `out` as it is written.
    pub fn write_to(&self, out: &mut String)
        ensures
            final(out)@ == old(out)@ + node_text(self.node()),
        decreases self,
    {
        match self {
            Element::Atom(a) => a.write_to(out),
            Element::SExpression(s) => s.write_to(out),
        }
    }

    /// The element as it is written.
    pub fn to_string(&self) -> (r: String)
        ensures
            r@ == node_text(self.node()),
    {
        let mut out = String::new();
        self.write_to(&mut out);
        assert(out@ =~= node_text(self.node()));
        out
    }
}

impl SExpression {
    /// Appends the s-expression to `out` as it is written: its elements in
    /// parentheses, with a space between each two.
    pub fn write_to(&self, out: &mut String)
        ensures
            final(out)@ == old(out)@ + node_text(self.node()),
        decreases self,
    {
        push_char(out, '(');
        let ghost prefix = out@;
        let ghost nodes = nodes_of(self.0@);
        let n = self.0.len();
        let mut i: usize = 0;
        proof {
            lemma_nodes_of_len(self.0@);
            assert(out@ =~= prefix + joined_text(nodes, 0));
        }
        while i < n
            invariant
                n == self.0@.len(),
                nodes == nodes_of(self.0@),
                nodes.len() == n,
                i <= n,
                out@ == prefix + joined_text(nodes, i as int),
            decreases n - i,
        {
            if i > 0 {
                push_char(out, ' ');
            }
            proof {
                lemma_nodes_of_index(self.0@, i as int);
            }
            self.0[i].write_to(out);
            proof {
                assert(out@ =~= prefix + joined_text(nodes, i + 1));
            }
            i = i + 1;
        }
        push_char(out, ')');
        assert(out@ =~= old(out)@ + node_text(self.node()));
    }

    /// The s-expression as it is written.
    pub fn to_string(&self) -> (r: String)
        ensures
            r@ == node_text(self.node()),
    {
        let mut out = String::new();
        self.write_to(&mut out);
        assert(out@ =~= node_text(self.node()));
        out
    }
}

////////////////////////////////////////////////////////////////////////////////
// messages

/// A message in its text form: an s-expression whose first element is a
/// message type.
#[derive(Debug, PartialEq, Eq)]
pub struct Message(pub SExpression);

/// Whether the node is a message: a list whose first element is an atom
/// that was not in quotes and is a message type. The result is `None` for a
/// message, and else the kind of error.
pub open spec fn message_error(node: Node) -> Option<ParseErrorKind> {
    match node {
        Node::Atom { .. } => Some(ParseErrorKind::InvalidMessageType),
        Node::List(nodes) => if nodes.len() == 0 {
            Some(ParseErrorKind::EmptyMessage)
        } else {
            match nodes[0] {
                Node::Atom { value, was_quoted } => if !was_quoted && is_draft_message_type(
                    encode_utf8(value),
                ) {
                    None
                } else {
                    Some(ParseErrorKind::InvalidMessageType)
                },
                Node::List(_) => Some(ParseErrorKind::InvalidMessageType),
            }
        },
    }
}

impl Message {
    /// What the message is made of.
    pub open spec fn node(&self) -> Node {
        self.0.node()
    }

    /// Makes a message of the s-expression, if it is one: its first element
    /// must be a message type.
    pub fn from(sexp: SExpression) -> (r: ParseResult<Message>)
        ensures
            match message_error(sexp.node()) {
                None => r is Ok && r->Ok_0.0 == sexp,
                Some(kind) => r == Err::<Message, ParseError>(ParseError { offset: 0, kind }),
            },
    {
        proof {
            lemma_nodes_of_len(sexp.0@);
        }
        if sexp.0.len() == 0 {
            return make_error(ParseErrorKind::EmptyMessage);
        }
        proof {
            lemma_nodes_of_index(sexp.0@, 0);
        }
        let valid = match &sexp.0[0] {
            Element::Atom(atom) => atom.is_message_type(),
            Element::SExpression(_) => false,
        };
        if !valid {
            return make_error(ParseErrorKind::InvalidMessageType);
        }
        Ok(Message(sexp))
    }

    /// The message as it is written.
    pub fn to_string(&self) -> (r: String)
        ensures
            r@ == node_text(self.node()),
    {
        self.0.to_string()
    }
}

/// An error of the given kind, at the front of the input.
fn make_error(kind: ParseErrorKind) -> (r: ParseResult<Message>)
    ensures
        r == Err::<Message, ParseError>(ParseError { offset: 0, kind }),
{
    Err(ParseError { offset: 0, kind })
}

impl Parse for Message {
    open spec fn reads(buf: Seq<u8>, pos: int) -> Result<Read, Failure> {
        match read_sexp(buf, pos) {
            Err(e) => Err(e),
            Ok(read) => match message_error(read.node) {
                None => Ok(read),
                Some(kind) => Err(Failure { kind, offset: 0 }),
            },
        }
    }

    open spec fn made_of(&self) -> Node {
        self.node()
    }

    fn parse(state: &mut ParserState<'_>) -> (r: ParseResult<Message>) {
        match parse_sexp(state) {
            Ok(sexp) => Message::from(sexp),
            Err(e) => Err(e),
        }
    }
}

} // verus!

//! The message parser. It first validates a whole message, to find where it
//! ends, and then hands out an iterator over the arguments that cannot fail.

use vstd::prelude::*;
use vstd::slice::slice_subrange;
use vstd::string::StringSliceAdditionalSpecFns;
use crate::common::foundation::decimal::all_digits;
use crate::common::foundation::decimal::digit_byte;
use crate::common::foundation::decimal::digits_value;
use crate::common::foundation::text::str_from_utf8;
use crate::common::foundation::text::lemma_ascii_is_utf8;
use crate::common::foundation::decode_argument::DecodeArgument;
use crate::common::foundation::identifiers::is_message_type;
use crate::common::foundation::identifiers::lemma_grammar_is_ascii;
use crate::common::foundation::identifiers::MessageType;
use crate::common::foundation::msg::grammar::lemma_digit_run_end_is;
use crate::common::foundation::msg::grammar::lemma_read_item_bounds;
use crate::common::foundation::msg::grammar::lemma_read_items_bounds;
use crate::common::foundation::msg::grammar::read_byte;
use crate::common::foundation::msg::grammar::read_contents;
use crate::common::foundation::msg::grammar::read_decimal;
use crate::common::foundation::msg::grammar::read_item;
use crate::common::foundation::msg::grammar::read_items;
use crate::common::foundation::msg::grammar::read_message;
use crate::common::foundation::msg::grammar::read_message_in;
use crate::common::foundation::msg::grammar::valid_type;
use crate::common::foundation::msg::grammar::Dialect;
use crate::common::foundation::msg::grammar::Failure;
use crate::common::foundation::msg::grammar::Parsed;

verus! {

////////////////////////////////////////////////////////////////////////////////
// errors

/// The kinds of errors that parsing a message can end in.
#[derive(Clone, Copy, Debug, PartialEq, Eq, Structural)]
pub enum ParseErrorKind {
    /// The end of the buffer was met before the message was complete.
    UnexpectedEOF,
    /// Found another byte where a message opener (`{`) is due.
    ExpectedMessageOpener,
    /// Found another byte where a message closer (`}`) is due.
    ExpectedMessageCloser,
    /// Found a byte that is no digit where a decimal number is due.
    ExpectedDecimalNumber,
    /// Found a decimal number that does not fit in `usize`.
    DecimalNumberTooLarge,
    /// Found a decimal number with leading zeroes.
    DecimalNumberHasLeadingZeroes,
    /// Found another byte where a list sigil (`|`) is due.
    ExpectedListSigil,
    /// Found another byte where a string sigil (`:`) is due.
    ExpectedStringSigil,
    /// Found another byte where a string closer (`,`) is due.
    ExpectedStringCloser,
    /// The message holds no byte string at all, not even a message type.
    ExpectedMessageType,
    /// The first byte string of the message is no message type.
    InvalidMessageType,
}

impl ParseErrorKind {
    /// The name of each kind, for people to read.
    pub open spec fn name(self) -> Seq<char> {
        match self {
            ParseErrorKind::UnexpectedEOF => "unexpected EOF"@,
            ParseErrorKind::ExpectedMessageOpener => "expected message opener"@,
            ParseErrorKind::ExpectedMessageCloser => "expected message closer"@,
            ParseErrorKind::ExpectedDecimalNumber => "expected decimal number"@,
            ParseErrorKind::DecimalNumberTooLarge => "decimal number too large"@,
            ParseErrorKind::DecimalNumberHasLeadingZeroes => "decimal number has leading zeroes"@,
            ParseErrorKind::ExpectedListSigil => "expected list sigil"@,
            ParseErrorKind::ExpectedStringSigil => "expected string sigil"@,
            ParseErrorKind::ExpectedStringCloser => "expected string closer"@,
            ParseErrorKind::ExpectedMessageType => "expected message type"@,
            ParseErrorKind::InvalidMessageType => "invalid message type"@,
        }
    }

    /// Returns a human-readable name for this kind.
    pub fn to_str(&self) -> (r: &'static str)
        ensures
            r@ == self.name(),
    {
        match *self {
            ParseErrorKind::UnexpectedEOF => "unexpected EOF",
            ParseErrorKind::ExpectedMessageOpener => "expected message opener",
            ParseErrorKind::ExpectedMessageCloser => "expected message closer",
            ParseErrorKind::ExpectedDecimalNumber => "expected decimal number",
            ParseErrorKind::DecimalNumberTooLarge => "decimal number too large",
            ParseErrorKind::DecimalNumberHasLeadingZeroes => "decimal number has leading zeroes",
            ParseErrorKind::ExpectedListSigil => "expected list sigil",
            ParseErrorKind::ExpectedStringSigil => "expected string sigil",
            ParseErrorKind::ExpectedStringCloser => "expected string closer",
            ParseErrorKind::ExpectedMessageType => "expected message type",
            ParseErrorKind::InvalidMessageType => "invalid message type",
        }
    }
}

/// The error that [`Message::parse`] returns.
#[derive(Clone, Copy, Debug, PartialEq, Eq)]
pub struct ParseError<'s> {
    /// The byte string that was given to the parser.
    pub buffer: &'s [u8],
    /// The position in that byte string where the error was met.
    pub offset: usize,
    /// The kind of error that was met.
    pub kind: ParseErrorKind,
}

/// What can be seen of a parse error when it is shown: `Parse error at
/// offset`, the offset, a colon, and the name of the kind.
pub open spec fn parse_error_text(offset: usize, kind: ParseErrorKind) -> Seq<u8> {
    "Parse error at offset ".spec_bytes() + crate::common::foundation::decimal::decimal_digits(
        offset as nat,
    ) + ": ".spec_bytes() + vstd::utf8::encode_utf8(kind.name())
}

impl<'s> ParseError<'s> {
    /// The error as text for people to read.
    pub fn to_string(&self) -> (r: String)
        ensures
            vstd::utf8::encode_utf8(r@) == parse_error_text(self.offset, self.kind),
    {
        let mut out: Vec<u8> = Vec::new();
        crate::common::foundation::encode_argument::append_bytes(
            &mut out,
            "Parse error at offset ".as_bytes(),
        );
        let mut digits = crate::common::foundation::encode_argument::zeroes(
            crate::common::foundation::decimal::decimal_size(self.offset as u128),
        );
        crate::common::foundation::decimal::write_decimal(
            self.offset as u128,
            digits.as_mut_slice(),
        );
        crate::common::foundation::encode_argument::append_bytes(&mut out, digits.as_slice());
        crate::common::foundation::encode_argument::append_bytes(&mut out, ": ".as_bytes());
        crate::common::foundation::encode_argument::append_bytes(
            &mut out,
            self.kind.to_str().as_bytes(),
        );
        proof {
            let a = "Parse error at offset ".spec_bytes();
            let b = crate::common::foundation::decimal::decimal_digits(self.offset as nat);
            let c = ": ".spec_bytes();
            let d = vstd::utf8::encode_utf8(self.kind.name());
            assert(out@ =~= parse_error_text(self.offset, self.kind));
            vstd::utf8::encode_utf8_valid_utf8("Parse error at offset "@);
            vstd::utf8::encode_utf8_valid_utf8(": "@);
            vstd::utf8::encode_utf8_valid_utf8(self.kind.name());
            crate::common::foundation::decimal::lemma_decimal_digits_shape(self.offset as nat);
            assert forall|i: int| 0 <= i < b.len() implies #[trigger] b[i] < 0x80 by {
                assert(crate::common::foundation::decimal::digit_byte(b[i]));
            }
            lemma_ascii_is_utf8(b);
            vstd::utf8::valid_utf8_concat(a, b);
            vstd::utf8::valid_utf8_concat(a + b, c);
            vstd::utf8::valid_utf8_concat(a + b + c, d);
        }
        crate::common::foundation::text::string_from_utf8_lossy(out.as_slice())
    }

    /// Whether the error only says that the buffer ends before the message
    /// does, so that more bytes may complete it.
    pub fn is_incomplete(&self) -> (r: bool)
        ensures
            r == (self.kind == ParseErrorKind::UnexpectedEOF),
    {
        self.kind == ParseErrorKind::UnexpectedEOF
    }
}

////////////////////////////////////////////////////////////////////////////////
// Cursor

/// The state of the parsing functions: a buffer, which is only read, and the
/// position of the next byte to read.
#[derive(Clone, Copy, Debug)]
pub struct Cursor<'s> {
    pub buffer: &'s [u8],
    pub offset: usize,
}

impl<'s> Cursor<'s> {
    /// The position lies inside the buffer or at its end.
    pub open spec fn wf(&self) -> bool {
        self.offset <= self.buffer@.len()
    }

    /// The error for a failure met in this cursor's buffer.
    pub open spec fn failure(&self, f: Failure) -> ParseError<'s> {
        ParseError { buffer: self.buffer, offset: f.offset as usize, kind: f.kind }
    }

    /// A cursor at the front of `buffer`.
    pub fn new(buffer: &'s [u8]) -> (c: Cursor<'s>)
        ensures
            c.buffer == buffer,
            c.offset == 0,
            c.wf(),
    {
        Cursor { buffer, offset: 0 }
    }

    /// An error of the given kind at the current position.
    pub fn error<T>(&self, kind: ParseErrorKind) -> (r: Result<T, ParseError<'s>>)
        ensures
            r == Err::<T, ParseError<'s>>(
                ParseError { buffer: self.buffer, offset: self.offset, kind },
            ),
    {
        Err(ParseError { buffer: self.buffer, offset: self.offset, kind })
    }

    /// The byte at the current position.
    pub fn current(&self) -> (r: Result<u8, ParseError<'s>>)
        ensures
            self.offset < self.buffer@.len() ==> r == Ok::<u8, ParseError<'s>>(
                self.buffer@[self.offset as int],
            ),
            self.offset >= self.buffer@.len() ==> r == Err::<u8, ParseError<'s>>(
                ParseError {
                    buffer: self.buffer,
                    offset: self.offset,
                    kind: ParseErrorKind::UnexpectedEOF,
                },
            ),
    {
        if self.offset < self.buffer.len() {
            Ok(self.buffer[self.offset])
        } else {
            self.error(ParseErrorKind::UnexpectedEOF)
        }
    }

    /// Reads the byte `c`. Any other byte is an error of `kind`.
    pub fn consume_char(&mut self, c: u8, kind: ParseErrorKind) -> (r: Result<(), ParseError<'s>>)
        requires
            old(self).wf(),
        ensures
            final(self).wf(),
            final(self).buffer == old(self).buffer,
            match read_byte(old(self).buffer@, old(self).offset as int, c, kind) {
                Ok(next) => r is Ok && final(self).offset == next,
                Err(f) => r == Err::<(), ParseError<'s>>(old(self).failure(f))
                    && final(self).offset == f.offset,
            },
    {
        let found = match self.current() {
            Ok(found) => found,
            Err(e) => {
                return Err(e);
            },
        };
        if found != c {
            return self.error(kind);
        }
        proof {
            assert(self.buffer.len() <= usize::MAX);
        }
        self.offset = self.offset + 1;
        Ok(())
    }

    /// Reads the message opener.
    pub fn consume_message_opener(&mut self) -> (r: Result<(), ParseError<'s>>)
        requires
            old(self).wf(),
        ensures
            final(self).wf(),
            final(self).buffer == old(self).buffer,
            match read_byte(
                old(self).buffer@,
                old(self).offset as int,
                0x7b,
                ParseErrorKind::ExpectedMessageOpener,
            ) {
                Ok(next) => r is Ok && final(self).offset == next,
                Err(f) => r == Err::<(), ParseError<'s>>(old(self).failure(f))
                    && final(self).offset == f.offset,
            },
    {
        self.consume_char(0x7b, ParseErrorKind::ExpectedMessageOpener)
    }

    /// Reads the message closer.
    pub fn consume_message_closer(&mut self) -> (r: Result<(), ParseError<'s>>)
        requires
            old(self).wf(),
        ensures
            final(self).wf(),
            final(self).buffer == old(self).buffer,
            match read_byte(
                old(self).buffer@,
                old(self).offset as int,
                0x7d,
                ParseErrorKind::ExpectedMessageCloser,
            ) {
                Ok(next) => r is Ok && final(self).offset == next,
                Err(f) => r == Err::<(), ParseError<'s>>(old(self).failure(f))
                    && final(self).offset == f.offset,
            },
    {
        self.consume_char(0x7d, ParseErrorKind::ExpectedMessageCloser)
    }

    /// Reads a decimal number: all the digits that follow.
    pub fn consume_decimal(&mut self) -> (r: Result<usize, ParseError<'s>>)
        requires
            old(self).wf(),
        ensures
            final(self).wf(),
            final(self).buffer == old(self).buffer,
            match read_decimal(old(self).buffer@, old(self).offset as int) {
                Ok(number) => r == Ok::<usize, ParseError<'s>>(number.value as usize)
                    && final(self).offset == number.next,
                Err(f) => r == Err::<usize, ParseError<'s>>(old(self).failure(f))
                    && final(self).offset == f.offset,
            },
    {
        //exit early if the cursor is at the end already
        if self.offset >= self.buffer.len() {
            return self.error(ParseErrorKind::UnexpectedEOF);
        }
        //find the end of the run of digits

        let start_cursor = self.offset;
        let n = self.buffer.len();
        while self.offset < n && isnum(self.buffer[self.offset])
            invariant
                self.buffer == old(self).buffer,
                n == self.buffer@.len(),
                start_cursor == old(self).offset,
                start_cursor <= self.offset <= n,
                forall|i: int| start_cursor <= i < self.offset ==> digit_byte(#[trigger] self.buffer@[i]),
            decreases n - self.offset,
        {
            self.offset = self.offset + 1;
        }
        proof {
            lemma_digit_run_end_is(self.buffer@, start_cursor as int, self.offset as int);
        }
        //did we find any digits?
        if start_cursor == self.offset {
            return self.error(ParseErrorKind::ExpectedDecimalNumber);
        }
        let digits = slice_subrange(self.buffer, start_cursor, self.offset);
        //check that there are no leading zeroes
        if digits.len() > 1 && digits[0] == 0x30 {
            //point at the first digit that follows the leading zero
            self.offset = start_cursor + 1;
            return self.error(ParseErrorKind::DecimalNumberHasLeadingZeroes);
        }
        assert(all_digits(digits@)) by {
            assert forall|i: int| 0 <= i < digits@.len() implies digit_byte(#[trigger] digits@[i]) by {
                assert(digits@[i] == self.buffer@[start_cursor + i]);
            }
        }
        match digits_value(digits, usize::MAX as u128) {
            Some(val) => Ok(val as usize),
            None => self.error(ParseErrorKind::DecimalNumberTooLarge),
        }
    }

    /// Reads the list sigil.
    pub fn consume_list_sigil(&mut self) -> (r: Result<(), ParseError<'s>>)
        requires
            old(self).wf(),
        ensures
            final(self).wf(),
            final(self).buffer == old(self).buffer,
            match read_byte(
                old(self).buffer@,
                old(self).offset as int,
                0x7c,
                ParseErrorKind::ExpectedListSigil,
            ) {
                Ok(next) => r is Ok && final(self).offset == next,
                Err(f) => r == Err::<(), ParseError<'s>>(old(self).failure(f))
                    && final(self).offset == f.offset,
            },
    {
        self.consume_char(0x7c, ParseErrorKind::ExpectedListSigil)
    }

    /// Reads the string sigil.
    pub fn consume_string_sigil(&mut self) -> (r: Result<(), ParseError<'s>>)
        requires
            old(self).wf(),
        ensures
            final(self).wf(),
            final(self).buffer == old(self).buffer,
            match read_byte(
                old(self).buffer@,
                old(self).offset as int,
                0x3a,
                ParseErrorKind::ExpectedStringSigil,
            ) {
                Ok(next) => r is Ok && final(self).offset == next,
                Err(f) => r == Err::<(), ParseError<'s>>(old(self).failure(f))
                    && final(self).offset == f.offset,
            },
    {
        self.consume_char(0x3a, ParseErrorKind::ExpectedStringSigil)
    }

    /// Reads `count` bytes. Where the buffer holds fewer, the cursor moves to
    /// its end.
    pub fn consume_string_contents(&mut self, count: usize) -> (r: Result<
        &'s [u8],
        ParseError<'s>,
    >)
        requires
            old(self).wf(),
        ensures
            final(self).wf(),
            final(self).buffer == old(self).buffer,
            match read_contents(old(self).buffer@, old(self).offset as int, count as nat) {
                Ok(contents) => r is Ok && r->Ok_0@ == contents.bytes && final(self).offset
                    == contents.next,
                Err(f) => r == Err::<&'s [u8], ParseError<'s>>(old(self).failure(f))
                    && final(self).offset == f.offset,
            },
    {
        let len = self.buffer.len();
        //check for integer overflow, buffer overflow
        if count > len - self.offset {
            self.offset = len;
            self.error(ParseErrorKind::UnexpectedEOF)
        } else {
            let new_offset = self.offset + count;
            let result = slice_subrange(self.buffer, self.offset, new_offset);
            self.offset = new_offset;
            Ok(result)
        }
    }

    /// Reads the string closer.
    pub fn consume_string_closer(&mut self) -> (r: Result<(), ParseError<'s>>)
        requires
            old(self).wf(),
        ensures
            final(self).wf(),
            final(self).buffer == old(self).buffer,
            match read_byte(
                old(self).buffer@,
                old(self).offset as int,
                0x2c,
                ParseErrorKind::ExpectedStringCloser,
            ) {
                Ok(next) => r is Ok && final(self).offset == next,
                Err(f) => r == Err::<(), ParseError<'s>>(old(self).failure(f))
                    && final(self).offset == f.offset,
            },
    {
        self.consume_char(0x2c, ParseErrorKind::ExpectedStringCloser)
    }
}

/// Whether the byte is an ASCII digit.
pub fn isnum(c: u8) -> (r: bool)
    ensures
        r == digit_byte(c),
{
    c >= 0x30 && c <= 0x39
}

////////////////////////////////////////////////////////////////////////////////
// MessageIterator

/// An iterator over the byte strings of a message. One taken from a
/// [`Message`] runs over a part of the buffer that was validated before, and
/// cannot fail.
#[derive(Clone, Copy, Debug)]
pub struct MessageIterator<'s> {
    cursor: Cursor<'s>,
    remaining_items: usize,
}

impl<'s> MessageIterator<'s> {
    /// The buffer that this iterator reads.
    pub closed spec fn buffer(&self) -> &'s [u8] {
        self.cursor.buffer
    }

    /// The position of the next byte string.
    pub closed spec fn offset(&self) -> int {
        self.cursor.offset as int
    }

    /// The number of byte strings that are still to come.
    pub closed spec fn count(&self) -> nat {
        self.remaining_items as nat
    }

    /// All the byte strings that are still to come can be read.
    pub open spec fn wf(&self) -> bool {
        &&& 0 <= self.offset() <= self.buffer()@.len()
        &&& read_items(self.buffer()@, self.offset(), self.count()) is Ok
    }

    /// The byte strings that are still to come.
    pub open spec fn remaining(&self) -> Seq<Seq<u8>> {
        read_items(self.buffer()@, self.offset(), self.count())->Ok_0.items
    }

    /// An iterator over `items` byte strings that start at the cursor.
    pub fn make(cursor: Cursor<'s>, items: usize) -> (it: MessageIterator<'s>)
        ensures
            it.buffer() == cursor.buffer,
            it.offset() == cursor.offset,
            it.count() == items,
    {
        MessageIterator { cursor, remaining_items: items }
    }

    /// Reads the next byte string, if one is left.
    pub fn next_or_error(&mut self) -> (r: Result<Option<&'s [u8]>, ParseError<'s>>)
        requires
            old(self).offset() <= old(self).buffer()@.len(),
        ensures
            final(self).buffer() == old(self).buffer(),
            final(self).offset() <= final(self).buffer()@.len(),
            old(self).count() == 0 ==> r == Ok::<Option<&'s [u8]>, ParseError<'s>>(None)
                && *final(self) == *old(self),
            old(self).count() > 0 ==> final(self).count() == old(self).count() - 1 && match read_item(
                old(self).buffer()@,
                old(self).offset(),
            ) {
                Ok(item) => r is Ok && r->Ok_0 is Some && r->Ok_0->0@ == item.bytes
                    && final(self).offset() == item.next,
                Err(f) => r == Err::<Option<&'s [u8]>, ParseError<'s>>(
                    ParseError {
                        buffer: old(self).buffer(),
                        offset: f.offset as usize,
                        kind: f.kind,
                    },
                ) && final(self).offset() == f.offset,
            },
    {
        if self.remaining_items == 0 {
            return Ok(None);
        }
        self.remaining_items = self.remaining_items - 1;
        proof {
            lemma_read_item_bounds(self.cursor.buffer@, self.cursor.offset as int);
        }
        //the cursor is at the start of the byte string, that is on its length
        let count = match self.cursor.consume_decimal() {
            Ok(count) => count,
            Err(e) => {
                return Err(e);
            },
        };
        match self.cursor.consume_string_sigil() {
            Ok(_) => {},
            Err(e) => {
                return Err(e);
            },
        }
        let s = match self.cursor.consume_string_contents(count) {
            Ok(s) => s,
            Err(e) => {
                return Err(e);
            },
        };
        match self.cursor.consume_string_closer() {
            Ok(_) => {},
            Err(e) => {
                return Err(e);
            },
        }
        Ok(Some(s))
    }

    /// Reads all the byte strings that are left, and returns the cursor
    /// behind the last of them.
    pub fn consume_and_validate(self) -> (r: Result<Cursor<'s>, ParseError<'s>>)
        requires
            self.offset() <= self.buffer()@.len(),
        ensures
            match read_items(self.buffer()@, self.offset(), self.count()) {
                Ok(items) => r is Ok && r->Ok_0.buffer == self.buffer() && r->Ok_0.offset
                    == items.next && r->Ok_0.wf(),
                Err(f) => r == Err::<Cursor<'s>, ParseError<'s>>(
                    ParseError { buffer: self.buffer(), offset: f.offset as usize, kind: f.kind },
                ),
            },
    {
        let mut it = self;
        loop
            invariant
                it.buffer() == self.buffer(),
                it.offset() <= it.buffer()@.len(),
                match read_items(it.buffer()@, it.offset(), it.count()) {
                    Ok(items) => read_items(self.buffer()@, self.offset(), self.count()) is Ok
                        && read_items(self.buffer()@, self.offset(), self.count())->Ok_0.next
                        == items.next,
                    Err(f) => read_items(self.buffer()@, self.offset(), self.count()) == Err::<
                        crate::common::foundation::msg::grammar::Items,
                        Failure,
                    >(f),
                },
            decreases it.count(),
        {
            match it.next_or_error() {
                Err(e) => {
                    return Err(e);
                },
                Ok(None) => {
                    return Ok(it.cursor);
                },
                Ok(Some(_)) => {},
            }
        }
    }

    /// The next argument, or `None` when there is none left.
    pub fn next(&mut self) -> (r: Option<&'s [u8]>)
        ensures
            old(self).wf() ==> final(self).wf() && final(self).buffer() == old(self).buffer(),
            old(self).wf() && old(self).remaining().len() == 0
                ==> r is None && final(self).remaining().len() == 0,
            old(self).wf() && old(self).remaining().len() > 0
                ==> r is Some && r->0@ == old(self).remaining()[0]
                && final(self).remaining() == old(self).remaining().drop_first(),
    {
        if self.cursor.offset > self.cursor.buffer.len() {
            return None;
        }
        proof {
            lemma_read_items_bounds(self.buffer()@, self.offset(), self.count());
            lemma_read_item_bounds(self.buffer()@, self.offset());
        }
        let ghost before = *self;
        match self.next_or_error() {
            Ok(r) => {
                proof {
                    if before.wf() && before.count() > 0 {
                        let first = read_item(before.buffer()@, before.offset())->Ok_0;
                        let rest = read_items(
                            before.buffer()@,
                            first.next,
                            (before.count() - 1) as nat,
                        )->Ok_0;
                        assert((seq![first.bytes] + rest.items).drop_first() =~= rest.items);
                    }
                }
                r
            },
            Err(_) => None,
        }
    }

    /// The number of arguments that are left.
    pub fn len(&self) -> (n: usize)
        ensures
            n == self.count(),
            self.wf() ==> n == self.remaining().len(),
    {
        proof {
            if self.wf() {
                lemma_read_items_bounds(self.buffer()@, self.offset(), self.count());
            }
        }
        self.remaining_items
    }

    /// Decodes the arguments if there is exactly one.
    pub fn exactly1<A: DecodeArgument<'s>>(self) -> (r: Option<A>)
        requires
            self.wf(),
        ensures
            r is Some <==> self.remaining().len() == 1 && A::decodable(self.remaining()[0]),
            r is Some ==> A::decodes_to(self.remaining()[0], r->0),
    {
        let mut it = self;
        if it.len() != 1 {
            return None;
        }
        let a = match it.next() {
            Some(a) => a,
            None => {
                return None;
            },
        };
        A::decode_argument(a)
    }

    /// Decodes the arguments if there are exactly two.
    pub fn exactly2<A: DecodeArgument<'s>, B: DecodeArgument<'s>>(self) -> (r: Option<(A, B)>)
        requires
            self.wf(),
        ensures
            r is Some <==> self.remaining().len() == 2 && A::decodable(self.remaining()[0])
                && B::decodable(self.remaining()[1]),
            match r {
                Some((a, b)) => A::decodes_to(self.remaining()[0], a) && B::decodes_to(
                    self.remaining()[1],
                    b,
                ),
                None => true,
            },
    {
        let mut it = self;
        if it.len() != 2 {
            return None;
        }
        let a = match it.next() {
            Some(a) => a,
            None => {
                return None;
            },
        };
        let b = match it.next() {
            Some(b) => b,
            None => {
                return None;
            },
        };
        let a = match A::decode_argument(a) {
            Some(a) => a,
            None => {
                return None;
            },
        };
        let b = match B::decode_argument(b) {
            Some(b) => b,
            None => {
                return None;
            },
        };
        Some((a, b))
    }

    /// Decodes the arguments if there are exactly four.
    pub fn exactly4<
        A: DecodeArgument<'s>,
        B: DecodeArgument<'s>,
        C: DecodeArgument<'s>,
        D: DecodeArgument<'s>,
    >(self) -> (r: Option<(A, B, C, D)>)
        requires
            self.wf(),
        ensures
            r is Some <==> self.remaining().len() == 4 && A::decodable(self.remaining()[0])
                && B::decodable(self.remaining()[1]) && C::decodable(self.remaining()[2])
                && D::decodable(self.remaining()[3]),
            match r {
                Some((a, b, c, d)) => A::decodes_to(self.remaining()[0], a) && B::decodes_to(
                    self.remaining()[1],
                    b,
                ) && C::decodes_to(self.remaining()[2], c) && D::decodes_to(
                    self.remaining()[3],
                    d,
                ),
                None => true,
            },
    {
        let mut it = self;
        if it.len() != 4 {
            return None;
        }
        let a = match it.next() {
            Some(a) => a,
            None => {
                return None;
            },
        };
        let b = match it.next() {
            Some(b) => b,
            None => {
                return None;
            },
        };
        let c = match it.next() {
            Some(c) => c,
            None => {
                return None;
            },
        };
        let d = match it.next() {
            Some(d) => d,
            None => {
                return None;
            },
        };
        let a = match A::decode_argument(a) {
            Some(a) => a,
            None => {
                return None;
            },
        };
        let b = match B::decode_argument(b) {
            Some(b) => b,
            None => {
                return None;
            },
        };
        let c = match C::decode_argument(c) {
            Some(c) => c,
            None => {
                return None;
            },
        };
        let d = match D::decode_argument(d) {
            Some(d) => d,
            None => {
                return None;
            },
        };
        Some((a, b, c, d))
    }
}

////////////////////////////////////////////////////////////////////////////////
// frames

/// A message whose frame was validated: the message type, the arguments,
/// and the number of bytes that the message takes up.
#[derive(Clone, Copy, Debug)]
pub struct Frame<'s> {
    pub message_type: &'s str,
    pub arguments: MessageIterator<'s>,
    pub consumed: usize,
}

/// Whether the string is a message type of the dialect.
pub fn check_type(dialect: Dialect, text: &str) -> (r: bool)
    ensures
        r == valid_type(dialect, text.spec_bytes()),
{
    match dialect {
        Dialect::Current => MessageType::parse(text).is_some(),
        Dialect::Draft => crate::draft::is_message_type(text).is_some(),
    }
}

/// Validates the frame of a message of the dialect at the front of
/// `buffer`: the opener, the count, all the byte strings, and the closer.
pub fn parse_frame<'s>(buffer: &'s [u8], dialect: Dialect) -> (r: Result<Frame<'s>, ParseError<'s>>)
    ensures
        match r {
            Ok(frame) => frame.arguments.wf() && valid_type(
                dialect,
                frame.message_type.spec_bytes(),
            ) && read_message_in(dialect, buffer@) == Ok::<Parsed, Failure>(
                Parsed {
                    items: seq![frame.message_type.spec_bytes()] + frame.arguments.remaining(),
                    consumed: frame.consumed as int,
                },
            ),
            Err(e) => read_message_in(dialect, buffer@) is Err && e == (ParseError {
                buffer,
                offset: read_message_in(dialect, buffer@)->Err_0.offset as usize,
                kind: read_message_in(dialect, buffer@)->Err_0.kind,
            }) && e.offset == read_message_in(dialect, buffer@)->Err_0.offset,
        },
{
    let mut cursor = Cursor::new(buffer);
    match cursor.consume_message_opener() {
        Ok(_) => {},
        Err(e) => {
            return Err(e);
        },
    }
    proof {
        crate::common::foundation::msg::grammar::lemma_digit_run_end(buffer@, 1);
    }
    let count_items = match cursor.consume_decimal() {
        Ok(count) => count,
        Err(e) => {
            return Err(e);
        },
    };
    match cursor.consume_list_sigil() {
        Ok(_) => {},
        Err(e) => {
            return Err(e);
        },
    }
    let mut iter = MessageIterator::make(cursor, count_items);
    proof {
        lemma_read_item_bounds(buffer@, cursor.offset as int);
    }
    //extract the first item to check if it's a message type
    let message_type = match iter.next_or_error() {
        Err(e) => {
            return Err(e);
        },
        Ok(None) => {
            return iter.cursor.error(ParseErrorKind::ExpectedMessageType);
        },
        Ok(Some(s)) => {
            proof {
                if valid_type(dialect, s@) {
                    match dialect {
                        Dialect::Current => {
                            lemma_grammar_is_ascii(s@);
                        },
                        Dialect::Draft => {
                            crate::draft::lemma_draft_type_is_ascii(s@);
                        },
                    }
                    lemma_ascii_is_utf8(s@);
                }
            }
            let valid = match str_from_utf8(s) {
                Some(text) => if check_type(dialect, text) {
                    Some(text)
                } else {
                    None
                },
                None => None,
            };
            match valid {
                Some(text) => text,
                None => {
                    return iter.cursor.error(ParseErrorKind::InvalidMessageType);
                },
            }
        },
    };
    //validate the rest of the argument list
    proof {
        lemma_read_items_bounds(buffer@, iter.offset(), iter.count());
    }
    proof {
        assert(buffer.len() <= usize::MAX);
    }
    cursor = match iter.consume_and_validate() {
        Ok(cursor) => cursor,
        Err(e) => {
            return Err(e);
        },
    };
    match cursor.consume_message_closer() {
        Ok(_) => {},
        Err(e) => {
            return Err(e);
        },
    }
    Ok(Frame { message_type, arguments: iter, consumed: cursor.offset })
}

////////////////////////////////////////////////////////////////////////////////
// Message

/// A message that was received: its type and its arguments. To build a
/// message for sending, use a `MessageFormatter`.
#[derive(Clone, Copy, Debug)]
pub struct Message<'s> {
    parsed_type: MessageType<'s>,
    arguments: MessageIterator<'s>,
}

impl<'s> Message<'s> {
    #[verifier::type_invariant]
    spec fn valid(self) -> bool {
        self.arguments.wf() && is_message_type(self.parsed_type.bytes())
    }

    /// The message type.
    pub closed spec fn mtype(&self) -> MessageType<'s> {
        self.parsed_type
    }

    /// The arguments, without the message type.
    pub closed spec fn args(&self) -> Seq<Seq<u8>> {
        self.arguments.remaining()
    }

    /// All the byte strings of the message: the message type, then the
    /// arguments.
    pub open spec fn items(&self) -> Seq<Seq<u8>> {
        seq![self.mtype().bytes()] + self.args()
    }

    /// Parses a message from `buffer`, whose first byte must be the message
    /// opener. On success returns the message and the number of bytes that it
    /// takes up, the opener and the closer included.
    pub fn parse(buffer: &'s [u8]) -> (r: Result<(Message<'s>, usize), ParseError<'s>>)
        ensures
            match r {
                Ok((msg, consumed)) => read_message(buffer@) == Ok::<Parsed, Failure>(
                    Parsed { items: msg.items(), consumed: consumed as int },
                ),
                Err(e) => read_message(buffer@) is Err && e == (ParseError {
                    buffer,
                    offset: read_message(buffer@)->Err_0.offset as usize,
                    kind: read_message(buffer@)->Err_0.kind,
                }) && e.offset == read_message(buffer@)->Err_0.offset,
            },
    {
        let frame = match parse_frame(buffer, Dialect::Current) {
            Ok(frame) => frame,
            Err(e) => {
                return Err(e);
            },
        };
        match MessageType::parse(frame.message_type) {
            Some(parsed_type) => {
                let msg = Message { parsed_type, arguments: frame.arguments };
                Ok((msg, frame.consumed))
            },
            None => {
                //this does not happen: the frame holds a message type
                Err(ParseError { buffer, offset: 0, kind: ParseErrorKind::InvalidMessageType })
            },
        }
    }

    /// Returns the parsed message type.
    pub fn parsed_type(&self) -> (r: MessageType<'s>)
        ensures
            r == self.mtype(),
            is_message_type(r.bytes()),
    {
        proof {
            use_type_invariant(self);
        }
        self.parsed_type
    }

    /// Returns an iterator over the arguments of this message, without the
    /// message type.
    pub fn arguments(&self) -> (r: MessageIterator<'s>)
        ensures
            r.wf(),
            r.remaining() == self.args(),
    {
        proof {
            use_type_invariant(self);
        }
        self.arguments
    }
}

} // verus!

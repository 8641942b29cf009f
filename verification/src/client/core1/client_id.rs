//! Client IDs below a client's own: for lifetimes inside the process, for
//! jobs, and for the child processes of a job.

use vstd::prelude::*;
use crate::common::foundation::encode_argument::copy_bytes;
use crate::common::foundation::encode_argument::EncodeArgument;
use crate::common::foundation::identifiers::client_id_byte;
use crate::common::foundation::identifiers::is_client_id;
use crate::common::foundation::identifiers::ClientID;

verus! {

/// The symbols of the alphabet: the digits, the capital letters, the small
/// letters.
pub open spec fn lookup(i: nat) -> u8 {
    if i < 10 {
        (0x30 + i) as u8
    } else if i < 36 {
        (0x41 + i - 10) as u8
    } else {
        (0x61 + i - 36) as u8
    }
}

/// The codeword of a number. The numbers are shifted by one, so that no
/// codeword is `0`; the last symbol of the alphabet, `z`, says that the
/// codeword goes on and stands for 61.
///
/// The codewords are `1`, `2`, ..., `y`, `z0`, `z1`, ..., `zy`, `zz0`, and
/// so on.
pub open spec fn number_code(num: nat) -> Seq<u8> {
    Seq::new((num + 1) / 61, |i: int| 0x7au8) + seq![lookup((num + 1) % 61)]
}

/// The encoding of a suffix: nothing for `Own`; `0` and the codeword of the
/// number for `Local`; the codeword of the number for `Job`; the codewords of
/// both numbers for `Child`.
pub open spec fn suffix_code(suffix: ClientIDSuffix) -> Seq<u8> {
    match suffix {
        ClientIDSuffix::Own => Seq::empty(),
        ClientIDSuffix::Local(i) => seq![0x30u8] + number_code(i as nat),
        ClientIDSuffix::Job(i) => number_code(i as nat),
        ClientIDSuffix::Child(i, j) => number_code(i as nat) + number_code(j as nat),
    }
}

/// A client ID that is given by a base client ID and a suffix. It encodes
/// as the full client ID.
#[derive(Clone, Copy, Debug, PartialEq, Eq)]
pub struct RelativeClientID<'a> {
    base: ClientID<'a>,
    suffix: ClientIDSuffix,
}

impl<'a> RelativeClientID<'a> {
    /// The base client ID.
    pub closed spec fn base_id(&self) -> ClientID<'a> {
        self.base
    }

    /// The suffix.
    pub closed spec fn suffix_part(&self) -> ClientIDSuffix {
        self.suffix
    }

    /// Returns the base client ID, which was given to
    /// [`ClientIDSuffix::below`].
    pub fn base(&self) -> (r: ClientID<'a>)
        ensures
            r == self.base_id(),
    {
        self.base
    }

    /// Returns the suffix that stands for this client ID below the base.
    pub fn suffix(&self) -> (r: ClientIDSuffix)
        ensures
            r == self.suffix_part(),
    {
        self.suffix
    }
}

impl<'a> EncodeArgument for RelativeClientID<'a> {
    open spec fn wire(&self) -> Seq<u8> {
        self.base_id().bytes() + suffix_code(self.suffix_part())
    }

    fn get_size(&self) -> (n: usize) {
        let left = self.base.as_str().as_bytes().len();
        let right = self.suffix.get_size();
        if left > usize::MAX - right {
            usize::MAX
        } else {
            left + right
        }
    }

    fn encode(&self, buf: &mut [u8]) {
        let source = self.base.as_str().as_bytes();
        let (left, right) = buf.split_at_mut(source.len());
        copy_bytes(left, source);
        self.suffix.encode(right);
    }
}

/// A client ID relative to a client's own: for a lifetime inside the
/// process, for a job, or for a child process of a job.
#[derive(Clone, Copy, Debug, PartialEq, Eq)]
pub enum ClientIDSuffix {
    /// No suffix at all: the base client ID itself.
    Own,
    /// The i-th lifetime inside the process.
    Local(u32),
    /// The i-th job that the process has started.
    Job(u32),
    /// The j-th child process of the i-th job.
    Child(u32, u32),
}

impl ClientIDSuffix {
    /// Puts the base client ID in front, which gives a full client ID that
    /// can be encoded into a message.
    pub fn below<'a>(&self, base: ClientID<'a>) -> (r: RelativeClientID<'a>)
        ensures
            r.base_id() == base,
            r.suffix_part() == *self,
    {
        RelativeClientID { base, suffix: *self }
    }

    /// The number of bytes that the encoding of this suffix takes.
    pub fn get_size(&self) -> (n: usize)
        ensures
            n == suffix_code(*self).len(),
            n <= 0x1000_0000,
    {
        match *self {
            ClientIDSuffix::Own => 0,
            ClientIDSuffix::Local(i) => 1 + get_size_for_number(i),
            ClientIDSuffix::Job(i) => get_size_for_number(i),
            ClientIDSuffix::Child(i, j) => get_size_for_number(i) + get_size_for_number(j),
        }
    }

    /// Encodes this suffix into `buf`, which is exactly `get_size()` bytes
    /// long.
    pub fn encode(&self, buf: &mut [u8])
        requires
            old(buf)@.len() == suffix_code(*self).len(),
        ensures
            final(buf)@ == suffix_code(*self),
    {
        match *self {
            ClientIDSuffix::Own => {
                assert(buf@ =~= Seq::<u8>::empty());
            },
            ClientIDSuffix::Local(i) => {
                let (mark, rest) = buf.split_at_mut(1);
                mark[0] = 0x30;
                encode_number(i, rest);
                assert(mark@ =~= seq![0x30u8]);
            },
            ClientIDSuffix::Job(i) => encode_number(i, buf),
            ClientIDSuffix::Child(i, j) => {
                let size = get_size_for_number(i);
                let (left, right) = buf.split_at_mut(size);
                encode_number(i, left);
                encode_number(j, right);
            },
        }
    }
}

/// The number of bytes of the codeword of `num`.
pub fn get_size_for_number(num: u32) -> (n: usize)
    ensures
        n == number_code(num as nat).len(),
        1 <= n <= 0x0800_0000,
{
    //There are 61 codewords of each length, since `z` says that the codeword
    //goes on. The codeword `0` is not used, so that a codeword never looks
    //like the mark of a local lifetime. Hence the `+ 1`.
    (1 + (num as u64 + 1) / 61) as usize
}

/// The symbol of the alphabet with the given index.
pub fn lookup_symbol(i: u64) -> (c: u8)
    requires
        i < 62,
    ensures
        c == lookup(i as nat),
        client_id_byte(c),
{
    if i < 10 {
        0x30u8 + (i as u8)
    } else if i < 36 {
        0x41u8 + ((i - 10) as u8)
    } else {
        0x61u8 + ((i - 36) as u8)
    }
}

/// Writes the codeword of `num` into `buf`, which has exactly its length.
pub fn encode_number(num: u32, buf: &mut [u8])
    requires
        old(buf)@.len() == number_code(num as nat).len(),
    ensures
        final(buf)@ == number_code(num as nat),
{
    //shift all numbers by 1 to account for the codeword "0" that is left out
    let mut rest: u64 = num as u64 + 1;
    let len = buf.len();
    let mut idx: usize = 0;
    while idx < len
        invariant
            len == buf@.len(),
            len == number_code(num as nat).len(),
            idx <= len,
            idx < len ==> rest == num + 1 - 61 * idx,
            forall|j: int| 0 <= j < idx ==> buf@[j] == number_code(num as nat)[j],
        decreases len - idx,
    {
        if rest >= 61 {
            rest = rest - 61;
            buf[idx] = 0x7a;
        } else {
            buf[idx] = lookup_symbol(rest);
        }
        idx = idx + 1;
    }
    assert(buf@ =~= number_code(num as nat));
}

/// A client ID with a suffix is a client ID again.
pub proof fn lemma_relative_client_id_is_client_id(base: Seq<u8>, suffix: ClientIDSuffix)
    requires
        is_client_id(base),
    ensures
        is_client_id(base + suffix_code(suffix)),
{
    let code = suffix_code(suffix);
    let s = base + code;
    assert forall|i: int| 0 <= i < code.len() implies client_id_byte(#[trigger] code[i]) by {
        match suffix {
            ClientIDSuffix::Own => {},
            ClientIDSuffix::Local(n) => {
                if i > 0 {
                    lemma_number_code_symbols(n as nat, i - 1);
                }
            },
            ClientIDSuffix::Job(n) => {
                lemma_number_code_symbols(n as nat, i);
            },
            ClientIDSuffix::Child(n, m) => {
                if i < number_code(n as nat).len() {
                    lemma_number_code_symbols(n as nat, i);
                } else {
                    lemma_number_code_symbols(m as nat, i - number_code(n as nat).len());
                }
            },
        }
    }
    assert forall|i: int| 0 <= i < s.len() implies client_id_byte(#[trigger] s[i]) by {
        if i < base.len() {
            assert(s[i] == base[i]);
        } else {
            assert(s[i] == code[i - base.len()]);
        }
    }
}

/// Every symbol of a codeword is a letter or digit.
proof fn lemma_number_code_symbols(num: nat, i: int)
    requires
        0 <= i < number_code(num).len(),
    ensures
        client_id_byte(number_code(num)[i]),
{
}

} // verus!

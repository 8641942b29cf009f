//! The bytes that wait to be sent on a connection: a queue of buffers of
//! fixed size. A message is appended whole to one buffer; a stream of bytes
//! may run over several.

use vstd::prelude::*;
use crate::common::foundation::encode_argument::zeroes;
use crate::common::foundation::msg::format::format_result;
use crate::common::foundation::msg::format::BufferTooSmallError;
use crate::common::foundation::msg::grammar::encode_message;
use crate::common::foundation::msg::traits::EncodeMessage;

verus! {

/// The number of bytes that a send buffer holds.
pub const SEND_BUFFER_SIZE: usize = 4072;

/// A buffer of fixed size that is filled from the front.
#[derive(Debug)]
pub struct SendBuffer {
    buf: Vec<u8>,
    filled: usize,
}

impl Default for SendBuffer {
    fn default() -> (r: Self)
        ensures
            r.wf(),
            r.contents() == Seq::<u8>::empty(),
    {
        SendBuffer::new()
    }
}

impl SendBuffer {
    /// The buffer has its fixed size, and is filled within it.
    pub closed spec fn wf(&self) -> bool {
        self.buf@.len() == SEND_BUFFER_SIZE && self.filled <= SEND_BUFFER_SIZE
    }

    /// The bytes that the buffer holds.
    pub closed spec fn contents(&self) -> Seq<u8> {
        self.buf@.subrange(0, self.filled as int)
    }

    /// An empty buffer.
    pub fn new() -> (r: Self)
        ensures
            r.wf(),
            r.contents() == Seq::<u8>::empty(),
    {
        let r = SendBuffer { buf: zeroes(SEND_BUFFER_SIZE), filled: 0 };
        assert(r.contents() =~= Seq::<u8>::empty());
        r
    }

    /// Appends the message if all of it fits what is left of the buffer.
    /// Else the buffer holds what it held, and the error says how many bytes
    /// did not fit.
    pub fn fill_if_ok<M: EncodeMessage>(&mut self, msg: &M) -> (r: Result<
        (),
        BufferTooSmallError,
    >)
        requires
            old(self).wf(),
        ensures
            final(self).wf(),
            old(self).contents().len() <= SEND_BUFFER_SIZE,
            match format_result(
                encode_message(msg.items()).len(),
                (SEND_BUFFER_SIZE - old(self).contents().len()) as nat,
            ) {
                Ok(_) => r is Ok && final(self).contents() == old(self).contents()
                    + encode_message(msg.items()),
                Err(e) => r == Err::<(), BufferTooSmallError>(e)
                    && final(self).contents() == old(self).contents(),
            },
    {
        let ghost before = self.buf@;
        let filled = self.filled;
        let (_used, free) = self.buf.as_mut_slice().split_at_mut(filled);
        match msg.encode(free) {
            Err(e) => {
                assert(self.buf@.subrange(0, filled as int) =~= before.subrange(0, filled as int));
                Err(e)
            },
            Ok(more_filled) => {
                self.filled = filled + more_filled;
                assert(self.buf@.subrange(0, self.filled as int) =~= before.subrange(
                    0,
                    filled as int,
                ) + encode_message(msg.items()));
                Ok(())
            },
        }
    }

    /// Appends as much of `input` as fits, and returns the part that did
    /// not fit.
    pub fn fill_until_full<'b>(&mut self, input: &'b [u8]) -> (rest: &'b [u8])
        requires
            old(self).wf(),
        ensures
            final(self).wf(),
            final(self).contents().len() <= SEND_BUFFER_SIZE,
            rest@.len() <= input@.len(),
            final(self).contents() == old(self).contents() + input@.subrange(
                0,
                input@.len() - rest@.len(),
            ),
            rest@ == input@.subrange(input@.len() - rest@.len(), input@.len() as int),
            rest@.len() == 0 || final(self).contents().len() == SEND_BUFFER_SIZE,
    {
        //how much can we copy?
        let available = input.len();
        let free = SEND_BUFFER_SIZE - self.filled;
        let len = if available < free {
            available
        } else {
            free
        };
        let start = self.filled;
        let ghost before = self.buf@;
        let mut i: usize = 0;
        while i < len
            invariant
                i <= len,
                len <= available,
                available == input@.len(),
                start + len <= SEND_BUFFER_SIZE,
                self.filled == start,
                self.buf@.len() == SEND_BUFFER_SIZE,
                self.buf@.subrange(0, start as int) == before.subrange(0, start as int),
                forall|j: int| 0 <= j < i ==> self.buf@[start + j] == input@[j],
            decreases len - i,
        {
            let ghost prev = self.buf@;
            self.buf[start + i] = input[i];
            assert(self.buf@.subrange(0, start as int) =~= prev.subrange(0, start as int));
            i = i + 1;
        }
        self.filled = start + len;
        let rest = vstd::slice::slice_subrange(input, len, available);
        assert(self.buf@.subrange(0, self.filled as int) =~= before.subrange(0, start as int)
            + input@.subrange(0, len as int)) by {
            assert forall|j: int| 0 <= j < start implies self.buf@[j] == before[j] by {
                assert(self.buf@.subrange(0, start as int)[j] == before.subrange(0, start as int)[j]);
            }
        }
        rest
    }

    /// The bytes that the buffer holds.
    pub fn filled(&self) -> (r: &[u8])
        requires
            self.wf(),
        ensures
            r@ == self.contents(),
    {
        vstd::slice::slice_subrange(self.buf.as_slice(), 0, self.filled)
    }

    /// The number of bytes that the buffer holds.
    pub fn filled_len(&self) -> (n: usize)
        requires
            self.wf(),
        ensures
            n == self.contents().len(),
            n <= SEND_BUFFER_SIZE,
    {
        self.filled
    }

    /// Empties the buffer.
    pub fn clear(&mut self)
        requires
            old(self).wf(),
        ensures
            final(self).wf(),
            final(self).contents() == Seq::<u8>::empty(),
    {
        self.filled = 0;
        assert(self.contents() =~= Seq::<u8>::empty());
    }
}

/// What the buffers hold, one after the other.
pub open spec fn concat_all(chunks: Seq<Seq<u8>>) -> Seq<u8>
    decreases chunks.len(),
{
    if chunks.len() == 0 {
        Seq::empty()
    } else {
        concat_all(chunks.drop_last()) + chunks.last()
    }
}

/// The buffers that hold something come first.
pub open spec fn filled_first(chunks: Seq<Seq<u8>>) -> bool {
    forall|i: int, j: int| 0 <= i < j < chunks.len() && chunks[i].len() == 0 ==> chunks[j].len() == 0
}

/// `whole` ends with `part`.
pub open spec fn ends_with(whole: Seq<u8>, part: Seq<u8>) -> bool {
    part.len() <= whole.len() && whole.subrange(whole.len() - part.len(), whole.len() as int)
        == part
}

/// Appending to a buffer behind which all buffers are empty appends to the
/// whole.
pub proof fn lemma_concat_all_append(chunks: Seq<Seq<u8>>, i: int, more: Seq<u8>)
    requires
        0 <= i < chunks.len(),
        forall|j: int| i < j < chunks.len() ==> (#[trigger] chunks[j]).len() == 0,
    ensures
        concat_all(chunks.update(i, chunks[i] + more)) == concat_all(chunks) + more,
    decreases chunks.len(),
{
    let updated = chunks.update(i, chunks[i] + more);
    if i == chunks.len() - 1 {
        assert(updated.drop_last() =~= chunks.drop_last());
        assert(concat_all(updated) =~= concat_all(chunks) + more);
    } else {
        lemma_concat_all_append(chunks.drop_last(), i, more);
        assert(updated.drop_last() =~= chunks.drop_last().update(i, chunks[i] + more));
        assert(chunks.last().len() == 0);
        assert(concat_all(updated) =~= concat_all(chunks) + more);
    }
}

/// An empty buffer more changes nothing.
pub proof fn lemma_concat_all_push_empty(chunks: Seq<Seq<u8>>)
    ensures
        concat_all(chunks.push(Seq::empty())) == concat_all(chunks),
{
    assert(chunks.push(Seq::empty()).drop_last() =~= chunks);
    assert(concat_all(chunks) + Seq::<u8>::empty() =~= concat_all(chunks));
}

/// The whole is the first buffer and then the rest.
pub proof fn lemma_concat_all_front(chunks: Seq<Seq<u8>>)
    requires
        chunks.len() > 0,
    ensures
        concat_all(chunks) == chunks[0] + concat_all(chunks.drop_first()),
    decreases chunks.len(),
{
    if chunks.len() == 1 {
        assert(chunks.drop_last() =~= Seq::<Seq<u8>>::empty());
        assert(chunks.drop_first() =~= Seq::<Seq<u8>>::empty());
        assert(concat_all(chunks) =~= chunks[0] + concat_all(chunks.drop_first()));
    } else {
        lemma_concat_all_front(chunks.drop_last());
        assert(chunks.drop_last().drop_first() =~= chunks.drop_first().drop_last());
        assert(chunks.drop_first().last() == chunks.last());
        assert(chunks.drop_last()[0] == chunks[0]);
        assert(concat_all(chunks) =~= chunks[0] + concat_all(chunks.drop_first()));
    }
}

/// Where all buffers are empty, the whole is.
pub proof fn lemma_concat_all_empty(chunks: Seq<Seq<u8>>)
    requires
        forall|j: int| 0 <= j < chunks.len() ==> (#[trigger] chunks[j]).len() == 0,
    ensures
        concat_all(chunks) == Seq::<u8>::empty(),
    decreases chunks.len(),
{
    if chunks.len() > 0 {
        lemma_concat_all_empty(chunks.drop_last());
        assert(concat_all(chunks) =~= Seq::<u8>::empty());
    }
}

/// The queue of the buffers of one connection. The transmitter takes
/// buffers from the front; what is enqueued goes behind all that waits.
#[derive(Debug)]
pub struct TxQueue {
    bufs: Vec<SendBuffer>,
}

impl TxQueue {
    /// Every buffer is well-formed, and the buffers that hold something come
    /// first.
    pub closed spec fn wf(&self) -> bool {
        &&& forall|i: int| 0 <= i < self.bufs@.len() ==> (#[trigger] self.bufs@[i]).wf()
        &&& filled_first(self.buffers())
    }

    /// What each buffer of the queue holds, the next to be sent first.
    pub closed spec fn buffers(&self) -> Seq<Seq<u8>> {
        Seq::new(self.bufs@.len(), |i: int| self.bufs@[i].contents())
    }

    /// All the bytes that wait to be sent, in the order in which they will
    /// be sent.
    pub open spec fn pending(&self) -> Seq<u8> {
        concat_all(self.buffers())
    }

    /// A queue without buffers.
    pub fn new() -> (r: Self)
        ensures
            r.wf(),
            r.buffers() == Seq::<Seq<u8>>::empty(),
            r.pending() == Seq::<u8>::empty(),
    {
        let r = TxQueue { bufs: Vec::new() };
        assert(r.buffers() =~= Seq::<Seq<u8>>::empty());
        r
    }

    /// The number of buffers at the front of the queue that hold something.
    fn count_filled(&self) -> (k: usize)
        requires
            self.wf(),
        ensures
            k <= self.buffers().len(),
            forall|i: int| 0 <= i < k ==> (#[trigger] self.buffers()[i]).len() > 0,
            forall|i: int| k <= i < self.buffers().len() ==> (#[trigger] self.buffers()[i]).len() == 0,
    {
        let n = self.bufs.len();
        let mut k: usize = 0;
        while k < n && self.bufs[k].filled_len() > 0
            invariant
                self.wf(),
                n == self.bufs@.len(),
                k <= n,
                forall|i: int| 0 <= i < k ==> (#[trigger] self.buffers()[i]).len() > 0,
            decreases n - k,
        {
            k = k + 1;
        }
        proof {
            if k < n {
                assert(self.buffers()[k as int].len() == 0);
            }
        }
        k
    }

    /// Appends the message behind all that waits: to the last buffer that
    /// holds something, if all of the message fits there, and else to the
    /// buffer behind it. No message is spread over two buffers. A message
    /// that is longer than a whole buffer is refused, and the error says by
    /// how much.
    pub fn enqueue_message<M: EncodeMessage>(&mut self, msg: &M) -> (r: Result<
        (),
        BufferTooSmallError,
    >)
        requires
            old(self).wf(),
        ensures
            final(self).wf(),
            r is Ok <==> encode_message(msg.items()).len() <= SEND_BUFFER_SIZE,
            r is Ok ==> final(self).pending() == old(self).pending() + encode_message(msg.items()),
            r is Ok ==> exists|i: int|
                0 <= i < final(self).buffers().len() && ends_with(
                    #[trigger] final(self).buffers()[i],
                    encode_message(msg.items()),
                ),
            r is Err ==> final(self).pending() == old(self).pending() && r == Err::<
                (),
                BufferTooSmallError,
            >(format_result(encode_message(msg.items()).len(), SEND_BUFFER_SIZE as nat)->Err_0),
    {
        let ghost message = encode_message(msg.items());
        let ghost before = self.buffers();
        let k = self.count_filled();
        //try to fit the message into the last buffer that holds something
        if k > 0 {
            let ghost last = before[k - 1];
            match self.bufs[k - 1].fill_if_ok(msg) {
                Ok(_) => {
                    proof {
                        assert(self.buffers() =~= before.update(k - 1, last + message));
                        lemma_concat_all_append(before, k - 1, message);
                        assert(ends_with(self.buffers()[k - 1], message)) by {
                            assert((last + message).subrange(
                                (last + message).len() - message.len(),
                                (last + message).len() as int,
                            ) =~= message);
                        }
                    }
                    return Ok(());
                },
                Err(_) => {
                    proof {
                        assert(self.buffers() =~= before);
                    }
                },
            }
        }
        //else take the empty buffer behind it, or a new one if there is none

        if k == self.bufs.len() {
            self.bufs.push(SendBuffer::new());
            proof {
                assert(self.buffers() =~= before.push(Seq::empty()));
                lemma_concat_all_push_empty(before);
            }
        }
        let ghost middle = self.buffers();
        assert(middle[k as int].len() == 0);
        assert(self.bufs@[k as int].contents().len() == 0);
        match self.bufs[k].fill_if_ok(msg) {
            Ok(_) => {
                proof {
                    assert(middle[k as int] + message =~= message);
                    assert(self.buffers() =~= middle.update(k as int, middle[k as int] + message));
                    lemma_concat_all_append(middle, k as int, message);
                    assert(ends_with(self.buffers()[k as int], message)) by {
                        assert(message.subrange(0, message.len() as int) =~= message);
                    }
                }
                Ok(())
            },
            Err(e) => {
                proof {
                    assert(self.buffers() =~= middle);
                }
                Err(e)
            },
        }
    }

    /// Appends the bytes behind all that waits. They fill the last buffer
    /// that holds something, and then as many buffers behind it as it takes.
    pub fn enqueue_stdin(&mut self, input: &[u8])
        requires
            old(self).wf(),
        ensures
            final(self).wf(),
            final(self).pending() == old(self).pending() + input@,
    {
        let ghost before = self.buffers();
        let mut k = self.count_filled();
        let mut rest = input;
        if k > 0 {
            let ghost last = before[k - 1];
            rest = self.bufs[k - 1].fill_until_full(rest);
            proof {
                let taken = input@.subrange(0, input@.len() - rest@.len());
                assert(self.buffers() =~= before.update(k - 1, last + taken));
                lemma_concat_all_append(before, k - 1, taken);
            }
        } else {
            assert(input@.subrange(0, 0) =~= Seq::<u8>::empty());
            assert(self.pending() + Seq::<u8>::empty() =~= self.pending());
        }
        //if that is not enough, fill the empty buffers behind it in order

        while rest.len() > 0
            invariant
                k <= self.bufs@.len(),
                forall|i: int| 0 <= i < self.bufs@.len() ==> (#[trigger] self.bufs@[i]).wf(),
                filled_first(self.buffers()),
                rest@.len() <= input@.len(),
                rest@ == input@.subrange(input@.len() - rest@.len(), input@.len() as int),
                self.pending() == old(self).pending() + input@.subrange(
                    0,
                    input@.len() - rest@.len(),
                ),
                forall|i: int| 0 <= i < k ==> (#[trigger] self.buffers()[i]).len() > 0,
                forall|i: int| k <= i < self.buffers().len() ==> (#[trigger] self.buffers()[i]).len() == 0,
            decreases rest@.len(),
        {
            if k == self.bufs.len() {
                //if there are no empty buffers left, append a new one
                let ghost short = self.buffers();
                self.bufs.push(SendBuffer::new());
                proof {
                    assert(self.buffers() =~= short.push(Seq::empty()));
                    lemma_concat_all_push_empty(short);
                }
            }
            let ghost middle = self.buffers();
            let ghost done = input@.len() - rest@.len();
            let ghost previous = rest@;
            assert(k < self.bufs.len());
            rest = self.bufs[k].fill_until_full(rest);
            proof {
                let taken = previous.subrange(0, previous.len() - rest@.len());
                assert(middle[k as int] + taken =~= taken);
                assert(self.buffers() =~= middle.update(k as int, middle[k as int] + taken));
                lemma_concat_all_append(middle, k as int, taken);
                assert(input@.subrange(0, done) + taken =~= input@.subrange(
                    0,
                    input@.len() - rest@.len(),
                ));
                assert(rest@ =~= input@.subrange(input@.len() - rest@.len(), input@.len() as int));
                assert(taken.len() > 0);
            }
            k = k + 1;
        }
        proof {
            assert(input@.subrange(0, input@.len() as int) =~= input@);
        }
    }

    /// Hands out the buffer at the front of the queue, for the transmitter
    /// to send, and takes back the buffer that it has sent, which is emptied
    /// and put at the back. Returns `None` when nothing waits.
    pub fn swap_send_buffer(&mut self, buf: Option<SendBuffer>) -> (r: Option<SendBuffer>)
        requires
            old(self).wf(),
            buf is Some ==> buf->0.wf(),
        ensures
            final(self).wf(),
            match r {
                Some(next) => next.wf() && next.contents().len() > 0 && old(self).pending() == next.contents()
                    + final(self).pending(),
                None => old(self).pending().len() == 0 && final(self).pending().len() == 0,
            },
    {
        let ghost before = self.buffers();
        if let Some(mut returned) = buf {
            returned.clear();
            self.bufs.push(returned);
            proof {
                assert(self.buffers() =~= before.push(Seq::empty()));
                lemma_concat_all_push_empty(before);
            }
        }
        let ghost middle = self.buffers();
        let k = self.count_filled();
        if k == 0 {
            //we don't have any data to send right now
            proof {
                lemma_concat_all_empty(middle);
            }
            None
        } else {
            let next = self.bufs.remove(0);
            proof {
                assert(self.buffers() =~= middle.drop_first());
                lemma_concat_all_front(middle);
            }
            Some(next)
        }
    }

    /// Whether nothing waits to be sent.
    pub fn is_empty(&self) -> (r: bool)
        requires
            self.wf(),
        ensures
            r == (self.pending().len() == 0),
    {
        let k = self.count_filled();
        proof {
            if k == 0 {
                lemma_concat_all_empty(self.buffers());
            } else {
                lemma_concat_all_front(self.buffers());
            }
        }
        k == 0
    }
}

} // verus!

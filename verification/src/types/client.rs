//! A client connection: the socket, the bytes read from it that no message
//! has consumed yet, and the bytes waiting to be written to it.
use crate::bytes_buf::buffer_as_slice;
use crate::bytes_buf::buffer_bytes;
use crate::bytes_buf::buffer_extend;
use crate::bytes_buf::buffer_new;
use crate::bytes_buf::buffer_split_off;
use crate::bytes_buf::buffer_split_to;
use crate::constants::MESSAGE_DELIMITER;
use bytes::BytesMut;
use vstd::prelude::*;

verus! {

/// No byte of `s` is the message delimiter.
pub open spec fn delimiter_free(s: Seq<u8>) -> bool {
    forall|i: int| 0 <= i < s.len() ==> s[i] != MESSAGE_DELIMITER
}

/// `buffer` starts with the complete message `message`, its delimiter, and
/// then `rest`.
pub open spec fn frames(buffer: Seq<u8>, message: Seq<u8>, rest: Seq<u8>) -> bool {
    &&& delimiter_free(message)
    &&& buffer == message + seq![MESSAGE_DELIMITER] + rest
}

/// One step of taking a message out of a read buffer: from `before`, the
/// complete message `message` is taken and `after` stays, or there is none
/// (`None`) and the buffer stays as it was.
pub open spec fn message_step(before: Seq<u8>, message: Option<Seq<u8>>, after: Seq<u8>) -> bool {
    match message {
        Some(m) => frames(before, m, after),
        None => delimiter_free(before) && after == before,
    }
}

/// The bytes a message taken out of a buffer holds.
pub open spec fn message_bytes(message: Option<BytesMut>) -> Option<Seq<u8>> {
    match message {
        Some(m) => Some(buffer_bytes(m)),
        None => None,
    }
}

/// The bytes of the message a poll yielded, if it yielded one.
pub open spec fn polled_message(poll: MessagePoll) -> Option<Seq<u8>> {
    match poll {
        MessagePoll::Ready(Some(m)) => Some(buffer_bytes(m)),
        _ => None,
    }
}

/// The messages of `messages`, each followed by the delimiter.
pub open spec fn delimited(messages: Seq<Seq<u8>>) -> Seq<u8>
    decreases messages.len(),
{
    if messages.len() == 0 {
        Seq::<u8>::empty()
    } else {
        messages[0] + seq![MESSAGE_DELIMITER] + delimited(messages.drop_first())
    }
}

/// What a poll of a client's message stream yields: a complete message,
/// the end of the stream (`Ready(None)`), or nothing yet.
pub enum MessagePoll {
    Ready(Option<BytesMut>),
    NotReady,
}

/// Client interface backed by a socket and buffers for handling
/// delimiter-terminated messages.
pub struct Client<S> {
    pub socket: S,
    pub rd: BytesMut,
    pub wr: BytesMut,
}

impl<S> Client<S> {
    /// A client for `socket` with empty read and write buffers.
    pub fn new(socket: S) -> (client: Self)
        ensures
            client.socket == socket,
            buffer_bytes(client.rd) == Seq::<u8>::empty(),
            buffer_bytes(client.wr) == Seq::<u8>::empty(),
    {
        Client { socket, rd: buffer_new(), wr: buffer_new() }
    }

    /// The number of bytes read from the socket that no message has taken.
    pub fn read_len(&self) -> (n: usize)
        ensures
            n == buffer_bytes(self.rd).len(),
    {
        buffer_as_slice(&self.rd).len()
    }

    /// The number of bytes waiting to be written to the socket.
    pub fn write_len(&self) -> (n: usize)
        ensures
            n == buffer_bytes(self.wr).len(),
    {
        buffer_as_slice(&self.wr).len()
    }

    /// Queues `message` behind the bytes already waiting to be written.
    pub fn buffer(&mut self, message: &[u8])
        requires
            buffer_bytes(old(self).wr).len() + message@.len() <= usize::MAX,
        ensures
            buffer_bytes(final(self).wr) == buffer_bytes(old(self).wr) + message@,
            buffer_bytes(final(self).rd) == buffer_bytes(old(self).rd),
            final(self).socket == old(self).socket,
    {
        buffer_extend(&mut self.wr, message);
    }

    /// Drops the first `n` bytes of the write buffer once the socket has
    /// taken them.
    pub fn consume_written(&mut self, n: usize)
        requires
            n <= buffer_bytes(old(self).wr).len(),
        ensures
            buffer_bytes(final(self).wr) == buffer_bytes(old(self).wr).skip(n as int),
            buffer_bytes(final(self).rd) == buffer_bytes(old(self).rd),
            final(self).socket == old(self).socket,
    {
        let _ = buffer_split_to(&mut self.wr, n);
    }

    /// Takes the first complete message out of the read buffer, without its
    /// delimiter; `None`, with the buffer untouched, when no delimiter has
    /// arrived yet.
    pub fn next_message(&mut self) -> (message: Option<BytesMut>)
        ensures
            final(self).socket == old(self).socket,
            buffer_bytes(final(self).wr) == buffer_bytes(old(self).wr),
            message_step(
                buffer_bytes(old(self).rd),
                message_bytes(message),
                buffer_bytes(final(self).rd),
            ),
    {
        let ghost before = buffer_bytes(self.rd);
        let mut found: Option<usize> = None;
        {
            let bytes = buffer_as_slice(&self.rd);
            let len: usize = bytes.len();
            let mut i: usize = 0;
            while i < len
                invariant_except_break
                    found.is_none(),
                invariant
                    i <= len,
                    len == bytes@.len(),
                    bytes@ == before,
                    delimiter_free(before.take(i as int)),
                ensures
                    match found {
                        Some(pos) => pos < len && before[pos as int] == MESSAGE_DELIMITER
                            && delimiter_free(before.take(pos as int)),
                        None => i == len,
                    },
                decreases len - i,
            {
                if bytes[i] == MESSAGE_DELIMITER {
                    found = Some(i);
                    break;
                }
                assert(before.take(i + 1) =~= before.take(i as int).push(bytes@[i as int]));
                i = i + 1;
            }
            proof {
                match found {
                    Some(pos) => {
                        assert(pos < before.len() && before[pos as int] == MESSAGE_DELIMITER);
                        assert(delimiter_free(before.take(pos as int)));
                    },
                    None => {
                        assert(before.take(len as int) =~= before);
                    },
                }
            }
        }
        match found {
            Some(pos) => {
                let mut message = buffer_split_to(&mut self.rd, pos + 1);
                let _ = buffer_split_off(&mut message, pos);
                proof {
                    assert(before.take(pos + 1).take(pos as int) =~= before.take(pos as int));
                    assert(before =~= before.take(pos as int) + seq![MESSAGE_DELIMITER] + before.skip(
                        pos + 1,
                    ));
                }
                Some(message)
            },
            None => None,
        }
    }

    /// The decision a poll of the message stream makes once the socket has
    /// been read: a complete message if one is buffered; otherwise the end
    /// of the stream if the socket has closed, else nothing yet.
    pub fn poll_message(&mut self, socket_closed: bool) -> (poll: MessagePoll)
        ensures
            final(self).socket == old(self).socket,
            buffer_bytes(final(self).wr) == buffer_bytes(old(self).wr),
            message_step(
                buffer_bytes(old(self).rd),
                polled_message(poll),
                buffer_bytes(final(self).rd),
            ),
            poll == MessagePoll::Ready(None) ==> socket_closed,
            poll == MessagePoll::NotReady ==> !socket_closed,
    {
        match self.next_message() {
            Some(m) => MessagePoll::Ready(Some(m)),
            None => if socket_closed {
                MessagePoll::Ready(None)
            } else {
                MessagePoll::NotReady
            },
        }
    }
}

/// Framing is unambiguous: a buffer splits into a complete message, its
/// delimiter and the rest in at most one way, so the message that
/// `next_message` takes out of a buffer holding `message`, the delimiter
/// and `rest` is `message`, and what stays is `rest`.
pub proof fn law_framing_unique(
    buffer: Seq<u8>,
    m1: Seq<u8>,
    r1: Seq<u8>,
    m2: Seq<u8>,
    r2: Seq<u8>,
)
    requires
        frames(buffer, m1, r1),
        frames(buffer, m2, r2),
    ensures
        m1 == m2,
        r1 == r2,
{
    if m1.len() < m2.len() {
        assert(buffer[m1.len() as int] == MESSAGE_DELIMITER);
        assert(buffer[m1.len() as int] == m2[m1.len() as int]);
    } else if m2.len() < m1.len() {
        assert(buffer[m2.len() as int] == MESSAGE_DELIMITER);
        assert(buffer[m2.len() as int] == m1[m2.len() as int]);
    } else {
        assert(m1 =~= buffer.take(m1.len() as int));
        assert(m2 =~= buffer.take(m2.len() as int));
        assert(r1 =~= buffer.skip(m1.len() as int + 1));
        assert(r2 =~= buffer.skip(m2.len() as int + 1));
    }
}

proof fn lemma_delimited_skip(messages: Seq<Seq<u8>>, tail: Seq<u8>, k: int)
    requires
        0 <= k < messages.len(),
    ensures
        delimited(messages.skip(k)) + tail == messages[k] + seq![MESSAGE_DELIMITER] + (delimited(
            messages.skip(k + 1),
        ) + tail),
{
    assert(messages.skip(k).drop_first() =~= messages.skip(k + 1));
    assert(messages.skip(k)[0] == messages[k]);
    assert(delimited(messages.skip(k)) + tail =~= messages[k] + seq![MESSAGE_DELIMITER] + (
    delimited(messages.skip(k + 1)) + tail));
}

proof fn lemma_stream_prefix(
    messages: Seq<Seq<u8>>,
    tail: Seq<u8>,
    buffers: Seq<Seq<u8>>,
    taken: Seq<Option<Seq<u8>>>,
    k: int,
)
    requires
        forall|i: int| 0 <= i < messages.len() ==> delimiter_free(#[trigger] messages[i]),
        buffers.len() == taken.len() + 1,
        buffers[0] == delimited(messages) + tail,
        forall|i: int|
            0 <= i < taken.len() ==> message_step(#[trigger] buffers[i], taken[i], buffers[i + 1]),
        0 <= k <= messages.len(),
        k <= taken.len(),
    ensures
        buffers[k] == delimited(messages.skip(k)) + tail,
        forall|i: int| 0 <= i < k ==> #[trigger] taken[i] == Some(messages[i]),
    decreases k,
{
    if k == 0 {
        assert(messages.skip(0) =~= messages);
    } else {
        lemma_stream_prefix(messages, tail, buffers, taken, k - 1);
        lemma_delimited_skip(messages, tail, k - 1);
        let before = buffers[k - 1];
        let rest = delimited(messages.skip(k)) + tail;
        assert(frames(before, messages[k - 1], rest));
        assert(message_step(buffers[k - 1], taken[k - 1], buffers[k]));
        match taken[k - 1] {
            Some(m) => {
                law_framing_unique(before, m, buffers[k], messages[k - 1], rest);
            },
            None => {
                let at = messages[k - 1].len() as int;
                assert(before[at] == MESSAGE_DELIMITER);
            },
        }
    }
}

/// Repeated polls of a message stream split the whole input at each
/// delimiter: from a read buffer holding `messages`, each followed by the
/// delimiter, and then an unfinished `tail`, successive takes yield those
/// messages in order; after them nothing more is taken and the tail stays.
pub proof fn law_stream_framing(
    messages: Seq<Seq<u8>>,
    tail: Seq<u8>,
    buffers: Seq<Seq<u8>>,
    taken: Seq<Option<Seq<u8>>>,
)
    requires
        forall|i: int| 0 <= i < messages.len() ==> delimiter_free(#[trigger] messages[i]),
        delimiter_free(tail),
        buffers.len() == taken.len() + 1,
        buffers[0] == delimited(messages) + tail,
        forall|i: int|
            0 <= i < taken.len() ==> message_step(#[trigger] buffers[i], taken[i], buffers[i + 1]),
    ensures
        forall|i: int| 0 <= i < taken.len() && i < messages.len() ==> #[trigger] taken[i] == Some(
            messages[i],
        ),
        forall|i: int| messages.len() <= i < taken.len() ==> #[trigger] taken[i] == None::<Seq<u8>>,
        forall|i: int| messages.len() <= i < buffers.len() ==> #[trigger] buffers[i] == tail,
{
    let n = messages.len() as int;
    if taken.len() < n {
        lemma_stream_prefix(messages, tail, buffers, taken, taken.len() as int);
    } else {
        lemma_stream_prefix(messages, tail, buffers, taken, n);
        assert(messages.skip(n) =~= Seq::<Seq<u8>>::empty());
        assert(buffers[n] =~= tail);
        lemma_stream_tail(tail, buffers, taken, n);
    }
}

proof fn lemma_stream_tail(
    tail: Seq<u8>,
    buffers: Seq<Seq<u8>>,
    taken: Seq<Option<Seq<u8>>>,
    start: int,
)
    requires
        delimiter_free(tail),
        buffers.len() == taken.len() + 1,
        0 <= start <= taken.len(),
        buffers[start] == tail,
        forall|i: int|
            0 <= i < taken.len() ==> message_step(#[trigger] buffers[i], taken[i], buffers[i + 1]),
    ensures
        forall|i: int| start <= i < taken.len() ==> #[trigger] taken[i] == None::<Seq<u8>>,
        forall|i: int| start <= i < buffers.len() ==> #[trigger] buffers[i] == tail,
    decreases taken.len() - start,
{
    if start < taken.len() {
        assert(message_step(buffers[start], taken[start], buffers[start + 1]));
        match taken[start] {
            Some(m) => {
                let at = m.len() as int;
                assert(tail[at] == MESSAGE_DELIMITER);
            },
            None => {},
        }
        lemma_stream_tail(tail, buffers, taken, start + 1);
    }
}

/// All the bytes of `reads`, in order.
pub open spec fn joined(reads: Seq<Seq<u8>>) -> Seq<u8>
    decreases reads.len(),
{
    if reads.len() == 0 {
        Seq::<u8>::empty()
    } else {
        joined(reads.drop_last()) + reads.last()
    }
}

/// The messages taken, in order, each followed by the delimiter; a take
/// that found no message adds nothing.
pub open spec fn taken_bytes(taken: Seq<Option<Seq<u8>>>) -> Seq<u8>
    decreases taken.len(),
{
    if taken.len() == 0 {
        Seq::<u8>::empty()
    } else {
        taken_bytes(taken.drop_last()) + match taken.last() {
            Some(m) => m + seq![MESSAGE_DELIMITER],
            None => Seq::<u8>::empty(),
        }
    }
}

proof fn lemma_polled_prefix(
    reads: Seq<Seq<u8>>,
    taken: Seq<Option<Seq<u8>>>,
    buffers: Seq<Seq<u8>>,
    k: int,
)
    requires
        buffers.len() == taken.len() + 1,
        reads.len() == taken.len(),
        forall|i: int|
            #![trigger taken[i]]
            0 <= i < taken.len() ==> message_step(buffers[i] + reads[i], taken[i], buffers[i + 1]),
        0 <= k <= taken.len(),
    ensures
        buffers[0] + joined(reads.take(k)) == taken_bytes(taken.take(k)) + buffers[k],
    decreases k,
{
    if k == 0 {
        assert(joined(reads.take(0)) =~= Seq::<u8>::empty());
        assert(taken_bytes(taken.take(0)) =~= Seq::<u8>::empty());
        assert(buffers[0] + Seq::<u8>::empty() =~= Seq::<u8>::empty() + buffers[0]);
    } else {
        let j = k - 1;
        lemma_polled_prefix(reads, taken, buffers, j);
        assert(reads.take(k).drop_last() =~= reads.take(j));
        assert(taken.take(k).drop_last() =~= taken.take(j));
        assert(message_step(buffers[j] + reads[j], taken[j], buffers[k]));
        let before = buffers[0] + joined(reads.take(j));
        let done = taken_bytes(taken.take(j));
        assert(joined(reads.take(k)) == joined(reads.take(j)) + reads[j]);
        match taken[j] {
            Some(m) => {
                assert(taken_bytes(taken.take(k)) == done + (m + seq![MESSAGE_DELIMITER]));
                assert(buffers[j] + reads[j] == m + seq![MESSAGE_DELIMITER] + buffers[k]);
                assert(buffers[0] + joined(reads.take(k)) =~= before + reads[j]);
                assert(before + reads[j] =~= done + (buffers[j] + reads[j]));
                assert(done + (m + seq![MESSAGE_DELIMITER] + buffers[k]) =~= done + (m
                    + seq![MESSAGE_DELIMITER]) + buffers[k]);
            },
            None => {
                assert(taken_bytes(taken.take(k)) =~= done);
                assert(buffers[0] + joined(reads.take(k)) =~= before + reads[j]);
                assert(before + reads[j] =~= done + (buffers[j] + reads[j]));
            },
        }
    }
}

/// Polling a message stream while bytes keep arriving loses, reorders and
/// duplicates nothing. A poll first appends what was read from the socket
/// (`reads[i]`) to the read buffer and then takes at most one message
/// (`taken[i]`). After any number of polls, what the buffer held at the
/// start followed by everything read equals the messages taken, in order,
/// each with its delimiter, followed by what the buffer holds now. No
/// message taken holds the delimiter, and a poll that takes none leaves a
/// buffer without a delimiter: when the stream ends, what stays behind is
/// the unfinished segment after the last delimiter.
pub proof fn law_polled_stream_framing(
    reads: Seq<Seq<u8>>,
    taken: Seq<Option<Seq<u8>>>,
    buffers: Seq<Seq<u8>>,
)
    requires
        buffers.len() == taken.len() + 1,
        reads.len() == taken.len(),
        forall|i: int|
            #![trigger taken[i]]
            0 <= i < taken.len() ==> message_step(buffers[i] + reads[i], taken[i], buffers[i + 1]),
    ensures
        forall|k: int|
            0 <= k <= taken.len() ==> buffers[0] + joined(reads.take(k)) == taken_bytes(
                taken.take(k),
            ) + #[trigger] buffers[k],
        forall|i: int|
            #![trigger taken[i]]
            0 <= i < taken.len() && taken[i] is Some ==> delimiter_free(taken[i]->0),
        forall|i: int|
            #![trigger taken[i]]
            0 <= i < taken.len() && taken[i] is None ==> delimiter_free(buffers[i + 1]),
{
    assert forall|k: int| 0 <= k <= taken.len() implies buffers[0] + joined(reads.take(k))
        == taken_bytes(taken.take(k)) + #[trigger] buffers[k] by {
        lemma_polled_prefix(reads, taken, buffers, k);
    }
    assert forall|i: int| 0 <= i < taken.len() && taken[i] is None implies delimiter_free(
        #[trigger] buffers[i + 1],
    ) by {
        assert(message_step(buffers[i] + reads[i], taken[i], buffers[i + 1]));
    }
}

} // verus!

//! The byte queue between two sides of a bridge.
//!
//! A [`ByteQueue`] is a bounded first-in, first-out queue. The task that reads
//! from one side of a bridge offers its bytes with [`ByteQueue::offer`]; the
//! task that writes to the other side drains them in packets with
//! [`fill_packet`].

use embassy_sync::blocking_mutex::raw::NoopRawMutex;
use embassy_sync::channel::Channel;
use vstd::prelude::*;

verus! {

/// How many bytes a queue holds before the sender has to wait.
pub const QUEUE_DEPTH: usize = 4096;

/// A bounded queue of bytes, kept in an `embassy_sync` channel.
///
/// The channel changes through shared references. Every operation here takes
/// the queue by `&mut`, and the channel is private, so nothing else can change
/// it between two operations.
#[verifier::external_body]
pub struct ByteQueue {
    channel: Channel<NoopRawMutex, u8, QUEUE_DEPTH>,
}

/// The bytes that wait in a queue, oldest first.
pub uninterp spec fn queued(queue: ByteQueue) -> Seq<u8>;

impl View for ByteQueue {
    type V = Seq<u8>;

    open spec fn view(&self) -> Seq<u8> {
        queued(*self)
    }
}

/// `Channel::new`: the channel starts without a byte in it.
#[verifier::external_body]
fn channel_new() -> (queue: ByteQueue)
    ensures
        queued(queue) == Seq::<u8>::empty(),
{
    ByteQueue { channel: Channel::new() }
}

/// `Channel::try_send`: below the capacity the byte goes to the back of the
/// queue; at the capacity nothing changes and the call reports that.
#[verifier::external_body]
fn channel_try_send(queue: &mut ByteQueue, byte: u8) -> (sent: bool)
    ensures
        sent == (queued(*old(queue)).len() < QUEUE_DEPTH),
        sent ==> queued(*final(queue)) == queued(*old(queue)).push(byte),
        !sent ==> queued(*final(queue)) == queued(*old(queue)),
{
    queue.channel.try_send(byte).is_ok()
}

/// `Channel::try_receive`: takes the oldest byte, if there is one.
#[verifier::external_body]
fn channel_try_receive(queue: &mut ByteQueue) -> (byte: Option<u8>)
    ensures
        byte == (if queued(*old(queue)).len() > 0 {
            Some(queued(*old(queue))[0])
        } else {
            None
        }),
        queued(*final(queue)) == (if queued(*old(queue)).len() > 0 {
            queued(*old(queue)).skip(1)
        } else {
            queued(*old(queue))
        }),
{
    queue.channel.try_receive().ok()
}

/// How many more bytes fit into a queue that holds `queue`.
pub open spec fn room(queue: Seq<u8>) -> nat {
    if queue.len() < QUEUE_DEPTH {
        (QUEUE_DEPTH - queue.len()) as nat
    } else {
        0
    }
}

/// How many bytes of an offer go into a queue that holds `queue`.
pub open spec fn accepted(queue: Seq<u8>, offer: Seq<u8>) -> int {
    if offer.len() <= room(queue) {
        offer.len() as int
    } else {
        room(queue) as int
    }
}

/// How many bytes a packet carries when `available` bytes wait, the writer
/// asks for at most `max_len` and its buffer holds `capacity`.
///
/// A packet is as long as the waiting bytes allow, up to the smaller of the
/// two limits. It always carries at least the byte that it waited for.
pub open spec fn packet_len(available: nat, max_len: nat, capacity: nat) -> nat {
    let limit = if max_len < capacity {
        max_len
    } else {
        capacity
    };
    if available == 0 {
        0
    } else if limit == 0 {
        1
    } else if available < limit {
        available
    } else {
        limit
    }
}

impl ByteQueue {
    /// Creates an empty queue.
    pub fn new() -> (queue: ByteQueue)
        ensures
            queue@ == Seq::<u8>::empty(),
    {
        channel_new()
    }

    /// Sends the bytes of `bytes` from position `from` on, in order, until
    /// all are sent or the queue is full. Returns the position of the first
    /// byte that was not sent.
    pub fn offer(&mut self, bytes: &[u8], from: usize) -> (next: usize)
        requires
            from <= bytes@.len(),
        ensures
            next == from + accepted(old(self)@, bytes@.skip(from as int)),
            final(self)@ == old(self)@ + bytes@.subrange(from as int, next as int),
            from <= next <= bytes@.len(),
            next < bytes@.len() ==> final(self)@.len() >= 4096,
            next > from ==> final(self)@.len() <= 4096,
    {
        let mut next: usize = from;
        assert(bytes@.subrange(from as int, from as int) =~= Seq::<u8>::empty());
        while next < bytes.len()
            invariant
                from <= next <= bytes@.len(),
                next - from <= room(old(self)@),
                self@ == old(self)@ + bytes@.subrange(from as int, next as int),
            decreases bytes@.len() - next,
        {
            if !channel_try_send(self, bytes[next]) {
                return next;
            }
            assert(bytes@.subrange(from as int, next + 1) =~= bytes@.subrange(
                from as int,
                next as int,
            ).push(bytes@[next as int]));
            next = next + 1;
        }
        next
    }
}

/// Drains one packet from `rx` into the front of `buf`.
///
/// Returns `None` when no byte waits. Otherwise the packet starts with the
/// oldest byte and goes on with the bytes behind it for as long as they are
/// there at once, up to `max_len` and to the size of the buffer. The rest of
/// the buffer keeps what it held.
pub fn fill_packet<const N: usize>(rx: &mut ByteQueue, buf: &mut [u8; N], max_len: usize) -> (len:
    Option<usize>)
    requires
        N > 0,
    ensures
        old(rx)@.len() == 0 ==> len is None,
        old(rx)@.len() > 0 ==> len == Some(
            packet_len(old(rx)@.len(), max_len as nat, N as nat) as usize,
        ),
        ({
            let n = packet_len(old(rx)@.len(), max_len as nat, N as nat) as int;
            &&& final(rx)@ == old(rx)@.skip(n)
            &&& final(buf)@ == old(rx)@.take(n) + old(buf)@.skip(n)
        }),
        len is Some <==> old(rx)@.len() > 0,
        len is None ==> final(rx)@ == old(rx)@ && final(buf)@ == old(buf)@,
        len matches Some(n) ==> {
            &&& 1 <= n <= N
            &&& n == 1 || n <= max_len
            &&& final(rx)@.len() > 0 ==> n >= max_len || n == N
            &&& final(buf)@.take(n as int) + final(rx)@ == old(rx)@
            &&& final(buf)@.skip(n as int) == old(buf)@.skip(n as int)
        },
{
    let limit: usize = if max_len < N {
        max_len
    } else {
        N
    };
    let first = channel_try_receive(rx);
    if let Some(byte) = first {
        buf[0] = byte;
        let mut len: usize = 1;
        while len < limit
            invariant_except_break
                1 <= len <= N,
                limit == (if max_len < N {
                    max_len
                } else {
                    N
                }),
                len <= old(rx)@.len(),
                len <= limit || len == 1,
                rx@ == old(rx)@.skip(len as int),
                buf@ == old(rx)@.take(len as int) + old(buf)@.skip(len as int),
            ensures
                len == packet_len(old(rx)@.len(), max_len as nat, N as nat),
                rx@ == old(rx)@.skip(len as int),
                buf@ == old(rx)@.take(len as int) + old(buf)@.skip(len as int),
            decreases limit - len,
        {
            match channel_try_receive(rx) {
                Some(byte) => {
                    buf[len] = byte;
                    len = len + 1;
                },
                None => {
                    break;
                },
            }
        }
        Some(len)
    } else {
        None
    }
}

/// A queue takes as much of an offer as it has room for: it stops short only
/// when it is full, and it is never filled beyond its depth.
pub proof fn law_a_queue_takes_what_it_has_room_for(queue: Seq<u8>, offer: Seq<u8>)
    ensures
        ({
            let n = accepted(queue, offer);
            &&& 0 <= n <= offer.len()
            &&& n < offer.len() ==> queue.len() + n >= 4096
            &&& n > 0 ==> queue.len() + n <= 4096
            &&& queue.len() <= 4096 ==> queue.len() + room(queue) == 4096
            &&& queue.len() > 4096 ==> room(queue) == 0
        }),
{
}

/// It does not matter in how many parts bytes are offered: what a queue does not
/// take of the first part leaves no room for the second.
pub proof fn law_offers_add_up(queue: Seq<u8>, first: Seq<u8>, second: Seq<u8>)
    ensures
        ({
            let n = accepted(queue, first);
            let m = accepted(queue + first.take(n), second);
            accepted(queue, first + second) == n + m
        }),
{
}

/// A packet carries all that waits, up to what it is asked to carry and has room
/// for; where something waits it carries at least one byte, and where nothing
/// waits it carries nothing.
pub proof fn law_a_packet_is_as_long_as_it_can_be(available: nat, max_len: nat, capacity: nat)
    ensures
        ({
            let n = packet_len(available, max_len, capacity);
            &&& n <= available
            &&& available > 0 ==> n > 0
            &&& n > 1 ==> n <= max_len && n <= capacity
            &&& n < available ==> n >= max_len || n >= capacity
        }),
{
}

} // verus!

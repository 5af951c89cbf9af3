//! The fan-out of the debug console to two readers.
//!
//! With both bridges present, every byte that the device under test writes
//! goes to the ACM bridge and to the TCP bridge. The writer never waits: when
//! a reader is a whole queue behind, its oldest byte is dropped.

use embassy_sync::blocking_mutex::raw::NoopRawMutex;
use embassy_sync::pubsub::{ImmediatePublisher, PubSubChannel, Subscriber};
use vstd::prelude::*;

use crate::queue::{packet_len, QUEUE_DEPTH};

verus! {

/// The storage that a [`DutOutput`] publishes through: an `embassy_sync`
/// channel with room for two subscribers.
#[verifier::external_body]
pub struct DutOutputStorage {
    channel: PubSubChannel<NoopRawMutex, u8, QUEUE_DEPTH, 2, 1>,
}

/// The console output of the device under test, with its two readers.
///
/// The publisher and the subscribers share the channel by reference. They are
/// held together, private and behind one `&mut`, and the storage is borrowed
/// for as long as they live, so nothing else publishes or reads in between.
#[verifier::external_body]
pub struct DutOutput<'a> {
    publisher: ImmediatePublisher<'a, NoopRawMutex, u8, QUEUE_DEPTH, 2, 1>,
    subscribers: [Subscriber<'a, NoopRawMutex, u8, QUEUE_DEPTH, 2, 1>; 2],
}

/// One of the two readers of the console output.
#[derive(Clone, Copy, Debug, PartialEq, Eq, Structural)]
pub enum Reader {
    /// The USB serial bridge.
    Acm,
    /// The TCP bridge.
    Tcp,
}

/// How many subscribers a storage has.
pub uninterp spec fn subscribed(storage: DutOutputStorage) -> nat;

/// The published bytes that the subscriber at `index` has yet to receive,
/// oldest first.
pub uninterp spec fn unread(output: DutOutput<'_>, index: int) -> Seq<u8>;

/// `PubSubChannel::new`: the channel starts without a subscriber.
#[verifier::external_body]
fn pubsub_new() -> (storage: DutOutputStorage)
    ensures
        subscribed(storage) == 0,
{
    DutOutputStorage { channel: PubSubChannel::new() }
}

/// `PubSubChannel::subscriber`, once for each of the two slots, and
/// `PubSubChannel::immediate_publisher`: a subscription fails only when no
/// slot is left, and a new subscriber receives only what is published after
/// it was made.
#[verifier::external_body]
fn pubsub_subscribe<'a>(storage: &'a mut DutOutputStorage) -> (output: Option<DutOutput<'a>>)
    ensures
        output is Some <==> subscribed(*old(storage)) == 0,
        output matches Some(o) ==> forall|i: int|
            0 <= i < 2 ==> #[trigger] unread(o, i) == Seq::<u8>::empty(),
{
    let channel: &'a PubSubChannel<NoopRawMutex, u8, QUEUE_DEPTH, 2, 1> = &storage.channel;
    Some(
        DutOutput {
            publisher: channel.immediate_publisher(),
            subscribers: [channel.subscriber().ok()?, channel.subscriber().ok()?],
        },
    )
}

/// `ImmediatePublisher::publish_immediate`: every subscriber has the byte to
/// receive after the others. Where that makes more than the channel holds, the
/// oldest one is gone. The channel numbers its messages with a `u64`, and this
/// takes it that those never run out.
#[verifier::external_body]
fn pubsub_publish(output: &mut DutOutput<'_>, byte: u8)
    ensures
        forall|i: int|
            0 <= i < 2 ==> #[trigger] unread(*final(output), i) == newest(
                unread(*old(output), i).push(byte),
            ),
{
    output.publisher.publish_immediate(byte)
}

/// `Subscriber::try_next_message_pure`: takes the oldest byte that this
/// subscriber has yet to receive, if there is one, and passes over the notice
/// of lost bytes. The other subscriber keeps all that it has yet to receive.
#[verifier::external_body]
fn pubsub_try_next(output: &mut DutOutput<'_>, index: usize) -> (byte: Option<u8>)
    requires
        index < 2,
    ensures
        byte == (if unread(*old(output), index as int).len() > 0 {
            Some(unread(*old(output), index as int)[0])
        } else {
            None
        }),
        unread(*final(output), index as int) == (if unread(*old(output), index as int).len() > 0 {
            unread(*old(output), index as int).skip(1)
        } else {
            unread(*old(output), index as int)
        }),
        forall|i: int|
            0 <= i < 2 && i != index ==> #[trigger] unread(*final(output), i) == unread(
                *old(output),
                i,
            ),
{
    output.subscribers[index].try_next_message_pure()
}

/// The bytes of `bytes` that a channel keeps: the last ones, up to its depth.
pub open spec fn newest(bytes: Seq<u8>) -> Seq<u8> {
    if bytes.len() <= QUEUE_DEPTH {
        bytes
    } else {
        bytes.skip(bytes.len() - QUEUE_DEPTH)
    }
}

impl Reader {
    /// The position of the reader's subscriber.
    pub open spec fn position(self) -> int {
        match self {
            Reader::Acm => 0,
            Reader::Tcp => 1,
        }
    }

    /// The position of the reader's subscriber.
    fn index(self) -> (index: usize)
        ensures
            index == self.position(),
    {
        match self {
            Reader::Acm => 0,
            Reader::Tcp => 1,
        }
    }
}

impl DutOutputStorage {
    /// Creates a storage that nothing publishes through yet.
    pub fn new() -> (storage: DutOutputStorage)
        ensures
            subscribed(storage) == 0,
    {
        pubsub_new()
    }
}

impl<'a> DutOutput<'a> {
    /// The bytes that a reader has yet to read, oldest first.
    pub open spec fn pending(self, reader: Reader) -> Seq<u8> {
        unread(self, reader.position())
    }

    /// No reader has more to read than the channel holds.
    pub open spec fn wf(self) -> bool {
        forall|reader: Reader| #[trigger] self.pending(reader).len() <= QUEUE_DEPTH
    }

    /// Subscribes both readers to a storage.
    ///
    /// Returns `None` when the storage has subscribers already.
    pub fn subscribe(storage: &'a mut DutOutputStorage) -> (output: Option<DutOutput<'a>>)
        ensures
            output is Some <==> subscribed(*old(storage)) == 0,
            output matches Some(o) ==> o.wf() && forall|reader: Reader| #[trigger]
                o.pending(reader) == Seq::<u8>::empty(),
    {
        pubsub_subscribe(storage)
    }

    /// Publishes the bytes of `bytes` in order, to both readers, without
    /// waiting. Each reader keeps the newest bytes that the channel holds.
    pub fn publish(&mut self, bytes: &[u8])
        requires
            old(self).wf(),
        ensures
            final(self).wf(),
            forall|reader: Reader| #[trigger]
                final(self).pending(reader) == newest(old(self).pending(reader) + bytes@),
            forall|reader: Reader|
                old(self).pending(reader).len() + bytes@.len() <= 4096 ==>
                    #[trigger] final(self).pending(reader) == old(self).pending(reader) + bytes@,
    {
        let mut next: usize = 0;
        assert forall|reader: Reader| #[trigger] self.pending(reader) == newest(
            old(self).pending(reader) + bytes@.take(0),
        ) by {
            assert(old(self).pending(reader) + bytes@.take(0) =~= old(self).pending(reader));
        }
        while next < bytes.len()
            invariant
                next <= bytes@.len(),
                self.wf(),
                forall|reader: Reader| #[trigger]
                    self.pending(reader) == newest(
                        old(self).pending(reader) + bytes@.take(next as int),
                    ),
            decreases bytes@.len() - next,
        {
            let ghost before = *self;
            pubsub_publish(self, bytes[next]);
            assert forall|reader: Reader| #[trigger] self.pending(reader) == newest(
                old(self).pending(reader) + bytes@.take(next + 1),
            ) by {
                let start = old(self).pending(reader) + bytes@.take(next as int);
                assert(before.pending(reader) == newest(start));
                assert(old(self).pending(reader) + bytes@.take(next + 1) =~= start.push(
                    bytes@[next as int],
                ));
                assert(newest(newest(start).push(bytes@[next as int])) =~= newest(
                    start.push(bytes@[next as int]),
                ));
            }
            next = next + 1;
        }
        assert(bytes@.take(bytes@.len() as int) =~= bytes@);
    }

    /// Takes the oldest byte that a reader has yet to read.
    fn next(&mut self, reader: Reader) -> (byte: Option<u8>)
        requires
            old(self).wf(),
        ensures
            final(self).wf(),
            byte == (if old(self).pending(reader).len() > 0 {
                Some(old(self).pending(reader)[0])
            } else {
                None
            }),
            final(self).pending(reader) == (if old(self).pending(reader).len() > 0 {
                old(self).pending(reader).skip(1)
            } else {
                old(self).pending(reader)
            }),
            forall|other: Reader|
                other != reader ==> #[trigger] final(self).pending(other) == old(self).pending(
                    other,
                ),
    {
        let byte = pubsub_try_next(self, reader.index());
        assert forall|other: Reader| other != reader implies #[trigger] self.pending(other)
            == old(self).pending(other) by {
            assert(0 <= other.position() < 2 && other.position() != reader.position());
        }
        assert forall|any: Reader| #[trigger] self.pending(any).len() <= QUEUE_DEPTH by {
            assert(old(self).pending(any).len() <= QUEUE_DEPTH);
            assert(any != reader ==> self.pending(any) == old(self).pending(any));
        }
        byte
    }
}

/// Drains one packet of a reader's bytes into the front of `buf`.
///
/// Returns `None` when the reader has read everything. Otherwise the packet
/// starts with the reader's oldest byte and goes on with the bytes behind it
/// for as long as they are there at once, up to `max_len` and to the size of
/// the buffer. The rest of the buffer keeps what it held, and the other reader
/// keeps its bytes.
pub fn fill_pubsub_packet<const N: usize>(
    rx: &mut DutOutput<'_>,
    reader: Reader,
    buf: &mut [u8; N],
    max_len: usize,
) -> (len: Option<usize>)
    requires
        N > 0,
        old(rx).wf(),
    ensures
        final(rx).wf(),
        old(rx).pending(reader).len() == 0 ==> len is None,
        old(rx).pending(reader).len() > 0 ==> len == Some(
            packet_len(old(rx).pending(reader).len(), max_len as nat, N as nat) as usize,
        ),
        ({
            let n = packet_len(old(rx).pending(reader).len(), max_len as nat, N as nat) as int;
            &&& final(rx).pending(reader) == old(rx).pending(reader).skip(n)
            &&& final(buf)@ == old(rx).pending(reader).take(n) + old(buf)@.skip(n)
        }),
        len is Some <==> old(rx).pending(reader).len() > 0,
        len is None ==> final(rx).pending(reader) == old(rx).pending(reader),
        len is None ==> final(buf)@ == old(buf)@,
        len matches Some(n) ==> {
            &&& 1 <= n <= N
            &&& n == 1 || n <= max_len
            &&& final(rx).pending(reader).len() > 0 ==> n >= max_len || n == N
            &&& final(buf)@.take(n as int) + final(rx).pending(reader) == old(rx).pending(reader)
            &&& final(buf)@.skip(n as int) == old(buf)@.skip(n as int)
        },
        forall|other: Reader|
            other != reader ==> #[trigger] final(rx).pending(other) == old(rx).pending(other),
{
    let limit: usize = if max_len < N {
        max_len
    } else {
        N
    };
    let ghost waiting = rx.pending(reader);
    let first = rx.next(reader);
    if let Some(byte) = first {
        buf[0] = byte;
        let mut len: usize = 1;
        while len < limit
            invariant_except_break
                1 <= len <= N,
                limit == (if max_len < N {
                    max_len
                } else {
                    N
                }),
                rx.wf(),
                waiting == old(rx).pending(reader),
                len <= waiting.len(),
                len <= limit || len == 1,
                rx.pending(reader) == waiting.skip(len as int),
                buf@ == waiting.take(len as int) + old(buf)@.skip(len as int),
                forall|other: Reader|
                    other != reader ==> #[trigger] rx.pending(other) == old(rx).pending(other),
            ensures
                rx.wf(),
                waiting == old(rx).pending(reader),
                len == packet_len(waiting.len(), max_len as nat, N as nat),
                rx.pending(reader) == waiting.skip(len as int),
                buf@ == waiting.take(len as int) + old(buf)@.skip(len as int),
                forall|other: Reader|
                    other != reader ==> #[trigger] rx.pending(other) == old(rx).pending(other),
            decreases limit - len,
        {
            match rx.next(reader) {
                Some(byte) => {
                    buf[len] = byte;
                    len = len + 1;
                },
                None => {
                    break;
                },
            }
        }
        Some(len)
    } else {
        None
    }
}

/// A channel keeps the end of what was published, all of it up to its depth.
pub proof fn law_a_channel_keeps_the_end(bytes: Seq<u8>)
    ensures
        bytes.len() <= 4096 ==> newest(bytes) == bytes,
        bytes.len() > 4096 ==> newest(bytes).len() == 4096,
        bytes == bytes.take(bytes.len() - newest(bytes).len()) + newest(bytes),
{
    assert(bytes =~= bytes.take(bytes.len() - newest(bytes).len()) + newest(bytes));
}

/// It does not matter in how many parts bytes are published: a channel keeps
/// the same of two parts as of both at once.
pub proof fn law_publications_add_up(pending: Seq<u8>, first: Seq<u8>, second: Seq<u8>)
    ensures
        newest(newest(pending + first) + second) == newest(pending + (first + second)),
{
    assert(newest(newest(pending + first) + second) =~= newest(pending + (first + second)));
}

} // verus!

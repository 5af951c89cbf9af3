//! What holds of whole runs of a bridge.
//!
//! The functions of this crate are driven one event at a time. The laws here
//! speak of any series of events, in any order.

use vstd::prelude::*;

use crate::bridge::{
    bytes_read, intake_step, new_intake, new_outlet, outlet_step, IntakeEvent, IntakePhase,
    IntakeState, Link, OutletEvent, OutletPhase, OutletState,
};
use crate::fanout::{newest, Reader};
use crate::queue::{packet_len, room, QUEUE_DEPTH};

verus! {

/// A bridge that carries bytes one way, with what went through it so far.
pub struct OneWay {
    /// The half that reads.
    pub intake: IntakeState,
    /// The queue between the halves.
    pub queue: Seq<u8>,
    /// The half that writes.
    pub outlet: OutletState,
    /// All bytes that the intake has read, without those that it held when
    /// its connection was replaced.
    pub read: Seq<u8>,
    /// All bytes that the outlet has put into packets.
    pub packed: Seq<u8>,
    /// What the outlet has done with those packets.
    pub writes: Writes,
}

/// What an outlet has done with its packets so far.
pub struct Writes {
    /// The bytes of all packets that it has handed over for writing, whether
    /// or not they were written.
    pub handed: Seq<u8>,
    /// The bytes of all packets that were written.
    pub written: Seq<u8>,
}

/// What a new outlet has done with its packets.
pub open spec fn no_writes() -> Writes {
    Writes { handed: Seq::empty(), written: Seq::empty() }
}

/// What an outlet has done with its packets after an event.
pub open spec fn writes_step(writes: Writes, outlet: OutletState, event: OutletEvent) -> Writes {
    match event {
        OutletEvent::Written { ok } => if outlet.phase == OutletPhase::Write {
            Writes {
                handed: writes.handed + outlet.packet,
                written: if ok {
                    writes.written + outlet.packet
                } else {
                    writes.written
                },
            }
        } else {
            writes
        },
        _ => writes,
    }
}

/// Something that happens to a bridge.
pub enum OneWayEvent {
    /// An event of the intake.
    Intake(IntakeEvent),
    /// An event of the outlet.
    Outlet(OutletEvent),
    /// The connections of the bridge, if it has any, are replaced by new ones.
    Reconnect,
}

/// A bridge that nothing went through yet.
pub open spec fn one_way_start(from: Link, to: Link, max_len: nat, capacity: nat) -> OneWay {
    OneWay {
        intake: new_intake(from),
        queue: Seq::empty(),
        outlet: new_outlet(to, max_len, capacity),
        read: Seq::empty(),
        packed: Seq::empty(),
        writes: no_writes(),
    }
}

/// An intake whose connection, if it is on one, is replaced by a new one.
pub open spec fn reconnected_intake(intake: IntakeState) -> IntakeState {
    match intake.link {
        Link::Usb => intake,
        Link::Tcp => new_intake(Link::Tcp),
    }
}

/// An outlet whose connection, if it is on one, is replaced by a new one.
pub open spec fn reconnected_outlet(outlet: OutletState) -> OutletState {
    match outlet.link {
        Link::Usb => outlet,
        Link::Tcp => new_outlet(Link::Tcp, outlet.max_len, outlet.capacity),
    }
}

/// How many bytes an intake holds that it no longer holds once its connection
/// is replaced.
pub open spec fn dropped_on_reconnect(intake: IntakeState) -> int {
    intake.backlog.len() - reconnected_intake(intake).backlog.len()
}

/// All bytes that an intake has read after an event: a packet that comes while
/// it reads adds all of its bytes.
pub open spec fn read_after(read: Seq<u8>, phase: IntakePhase, event: IntakeEvent) -> Seq<u8> {
    match event {
        IntakeEvent::Packet { bytes } => if phase == IntakePhase::Read {
            read + bytes
        } else {
            read
        },
        _ => read,
    }
}

/// What an intake has read grows by what it reads with an event.
pub(crate) proof fn lemma_read_after(read: Seq<u8>, phase: IntakePhase, event: IntakeEvent)
    ensures
        read_after(read, phase, event) == read + bytes_read(phase, event),
{
    assert(read_after(read, phase, event) =~= read + bytes_read(phase, event));
}

/// A bridge after an event.
pub open spec fn one_way_step(bridge: OneWay, event: OneWayEvent) -> OneWay {
    match event {
        OneWayEvent::Intake(event) => {
            let (intake, queue) = intake_step(bridge.intake, bridge.queue, event);
            OneWay {
                intake,
                queue,
                read: read_after(bridge.read, bridge.intake.phase, event),
                ..bridge
            }
        },
        OneWayEvent::Outlet(event) => {
            let (outlet, queue) = outlet_step(bridge.outlet, bridge.queue, event);
            OneWay {
                outlet,
                queue,
                packed: bridge.packed + bridge.queue.take(bridge.queue.len() - queue.len()),
                writes: writes_step(bridge.writes, bridge.outlet, event),
                ..bridge
            }
        },
        OneWayEvent::Reconnect => OneWay {
            intake: reconnected_intake(bridge.intake),
            outlet: reconnected_outlet(bridge.outlet),
            read: bridge.read.take(bridge.read.len() - dropped_on_reconnect(bridge.intake)),
            ..bridge
        },
    }
}

/// A bridge after a series of events.
pub open spec fn one_way_run(bridge: OneWay, events: Seq<OneWayEvent>) -> OneWay
    decreases events.len(),
{
    if events.len() == 0 {
        bridge
    } else {
        one_way_step(one_way_run(bridge, events.drop_last()), events.last())
    }
}

/// An intake has bytes left to send exactly while it waits for room.
pub open spec fn intake_inv(intake: IntakeState) -> bool {
    (intake.phase == IntakePhase::WaitRoom) == (intake.backlog.len() > 0)
}

/// Every intake event keeps the intake's invariant and the bound on the queue,
/// only adds to the back of the queue, and sends or keeps every byte read.
pub(crate) proof fn lemma_intake_step(intake: IntakeState, queue: Seq<u8>, event: IntakeEvent)
    requires
        intake_inv(intake),
        queue.len() <= QUEUE_DEPTH,
    ensures
        ({
            let (i, q) = intake_step(intake, queue, event);
            &&& intake_inv(i)
            &&& queue.len() <= q.len() <= QUEUE_DEPTH
            &&& q.take(queue.len() as int) == queue
            &&& q + i.backlog == queue + intake.backlog + bytes_read(intake.phase, event)
        }),
{
    let (i, q) = intake_step(intake, queue, event);
    assert(q.take(queue.len() as int) =~= queue);
    assert(q + i.backlog =~= queue + intake.backlog + bytes_read(intake.phase, event));
}

/// Every outlet event takes bytes from the front of the queue only.
pub(crate) proof fn lemma_outlet_step(outlet: OutletState, queue: Seq<u8>, event: OutletEvent)
    ensures
        ({
            let (o, q) = outlet_step(outlet, queue, event);
            &&& q.len() <= queue.len()
            &&& queue == queue.take(queue.len() - q.len()) + q
        }),
{
    let (o, q) = outlet_step(outlet, queue, event);
    assert(queue =~= queue.take(queue.len() - q.len()) + q);
}

/// Putting sequences together is associative.
pub(crate) proof fn lemma_concat(a: Seq<u8>, b: Seq<u8>, c: Seq<u8>)
    ensures
        a + b + c == a + (b + c),
{
    assert(a + b + c =~= a + (b + c));
}

/// What a bridge has read is what its outlet has put into packets, then what is
/// in the queue, then what the intake still holds.
pub open spec fn keeps_every_byte(bridge: OneWay) -> bool {
    &&& bridge.read == bridge.packed + bridge.queue + bridge.intake.backlog
    &&& bridge.queue.len() <= QUEUE_DEPTH
    &&& intake_inv(bridge.intake)
}

/// No event makes a bridge lose, repeat or reorder a byte.
pub(crate) proof fn lemma_one_way_step(before: OneWay, event: OneWayEvent)
    requires
        keeps_every_byte(before),
    ensures
        keeps_every_byte(one_way_step(before, event)),
{
    let after = one_way_step(before, event);
    match event {
        OneWayEvent::Intake(event) => {
            lemma_intake_step(before.intake, before.queue, event);
            lemma_read_after(before.read, before.intake.phase, event);
            let new = bytes_read(before.intake.phase, event);
            lemma_concat(before.packed, before.queue, before.intake.backlog);
            lemma_concat(before.packed, before.queue + before.intake.backlog, new);
            lemma_concat(after.packed, after.queue, after.intake.backlog);
        },
        OneWayEvent::Outlet(event) => {
            lemma_outlet_step(before.outlet, before.queue, event);
            let taken = before.queue.take(before.queue.len() - after.queue.len());
            lemma_concat(before.packed, taken, after.queue);
        },
        OneWayEvent::Reconnect => {
            assert(after.read =~= after.packed + after.queue + after.intake.backlog);
        },
    }
}

/// A bridge loses, repeats and reorders nothing: what its intake has read is
/// what its outlet has put into packets, then what is in the queue, then what
/// the intake still holds. Only what an intake holds when its connection ends
/// is dropped. The queue never holds more than its depth, and the intake holds
/// bytes back only while it waits for room.
pub proof fn law_bridge_keeps_every_byte_in_order(
    from: Link,
    to: Link,
    max_len: nat,
    capacity: nat,
    events: Seq<OneWayEvent>,
)
    ensures
        ({
            let bridge = one_way_run(one_way_start(from, to, max_len, capacity), events);
            &&& bridge.read == bridge.packed + bridge.queue + bridge.intake.backlog
            &&& bridge.queue.len() <= QUEUE_DEPTH
            &&& intake_inv(bridge.intake)
        }),
    decreases events.len(),
{
    let start = one_way_start(from, to, max_len, capacity);
    if events.len() == 0 {
        assert(start.read =~= start.packed + start.queue + start.intake.backlog);
    } else {
        law_bridge_keeps_every_byte_in_order(from, to, max_len, capacity, events.drop_last());
        lemma_one_way_step(one_way_run(start, events.drop_last()), events.last());
    }
}

/// The most that a packet of an outlet carries.
pub open spec fn packet_limit(max_len: nat, capacity: nat) -> nat {
    let limit = if max_len < capacity {
        max_len
    } else {
        capacity
    };
    if limit == 0 {
        1
    } else {
        limit
    }
}

/// An outlet has a packet exactly while it is to write one, and the packet
/// does not exceed the outlet's limits.
pub open spec fn packet_fits(outlet: OutletState) -> bool {
    &&& (outlet.phase == OutletPhase::Write) == (outlet.packet.len() > 0)
    &&& outlet.packet.len() <= packet_limit(outlet.max_len, outlet.capacity)
}

/// An outlet after a series of events, each with what waits for it then.
pub open spec fn outlet_run(outlet: OutletState, steps: Seq<(Seq<u8>, OutletEvent)>) -> OutletState
    decreases steps.len(),
{
    if steps.len() == 0 {
        outlet
    } else {
        outlet_step(outlet_run(outlet, steps.drop_last()), steps.last().0, steps.last().1).0
    }
}

/// No event makes a packet that does not fit.
pub(crate) proof fn lemma_packet_fits(outlet: OutletState, queue: Seq<u8>, event: OutletEvent)
    requires
        packet_fits(outlet),
    ensures
        ({
            let after = outlet_step(outlet, queue, event).0;
            &&& packet_fits(after)
            &&& after.link == outlet.link
            &&& after.max_len == outlet.max_len
            &&& after.capacity == outlet.capacity
        }),
{
}

/// A packet that an outlet is to write is never empty and never exceeds the
/// outlet's limits, whatever it drains: it carries at most as many bytes as it
/// is asked to and has room for, or the one byte that it waited for.
pub proof fn law_packets_fit(
    link: Link,
    max_len: nat,
    capacity: nat,
    steps: Seq<(Seq<u8>, OutletEvent)>,
)
    ensures
        ({
            let outlet = outlet_run(new_outlet(link, max_len, capacity), steps);
            &&& outlet.max_len == max_len && outlet.capacity == capacity
            &&& (outlet.phase == OutletPhase::Write) == (outlet.packet.len() > 0)
            &&& outlet.packet.len() <= packet_limit(max_len, capacity)
        }),
    decreases steps.len(),
{
    if steps.len() > 0 {
        law_packets_fit(link, max_len, capacity, steps.drop_last());
        lemma_packet_fits(
            outlet_run(new_outlet(link, max_len, capacity), steps.drop_last()),
            steps.last().0,
            steps.last().1,
        );
    }
}

/// A half on a USB endpoint never ends, and only such a half waits for an
/// endpoint; a half on a connection ends or goes on.
pub proof fn law_only_connections_end(
    from: Link,
    to: Link,
    max_len: nat,
    capacity: nat,
    events: Seq<OneWayEvent>,
)
    ensures
        ({
            let bridge = one_way_run(one_way_start(from, to, max_len, capacity), events);
            &&& bridge.intake.link == from
            &&& bridge.intake.phase == IntakePhase::Closed ==> from == Link::Tcp
            &&& bridge.intake.phase == IntakePhase::WaitLink ==> from == Link::Usb
            &&& bridge.outlet.link == to
            &&& bridge.outlet.phase == OutletPhase::Closed ==> to == Link::Tcp
            &&& bridge.outlet.phase == OutletPhase::WaitLink ==> to == Link::Usb
        }),
    decreases events.len(),
{
    if events.len() > 0 {
        law_only_connections_end(from, to, max_len, capacity, events.drop_last());
    }
}

/// The bytes of `part` occur in `whole` in the same order.
pub open spec fn occurs_in_order(part: Seq<u8>, whole: Seq<u8>) -> bool
    decreases whole.len(),
{
    if part.len() == 0 {
        true
    } else if whole.len() == 0 {
        false
    } else {
        ||| part.last() == whole.last() && occurs_in_order(part.drop_last(), whole.drop_last())
        ||| occurs_in_order(part, whole.drop_last())
    }
}

/// What occurs in order still does when the whole grows at its end.
pub(crate) proof fn lemma_occurs_in_longer(part: Seq<u8>, whole: Seq<u8>, more: Seq<u8>)
    requires
        occurs_in_order(part, whole),
    ensures
        occurs_in_order(part, whole + more),
    decreases more.len(),
{
    if more.len() == 0 {
        assert(whole + more =~= whole);
    } else {
        lemma_occurs_in_longer(part, whole, more.drop_last());
        assert((whole + more).drop_last() =~= whole + more.drop_last());
    }
}

/// What occurs in order still does when both grow by the same bytes.
pub(crate) proof fn lemma_occurs_with_same_end(part: Seq<u8>, whole: Seq<u8>, end: Seq<u8>)
    requires
        occurs_in_order(part, whole),
    ensures
        occurs_in_order(part + end, whole + end),
    decreases end.len(),
{
    if end.len() == 0 {
        assert(whole + end =~= whole);
        assert(part + end =~= part);
    } else {
        lemma_occurs_with_same_end(part, whole, end.drop_last());
        assert((whole + end).drop_last() =~= whole + end.drop_last());
        assert((part + end).drop_last() =~= part + end.drop_last());
    }
}

/// What occurs in order still does without its end.
pub(crate) proof fn lemma_occurs_without_end(part: Seq<u8>, whole: Seq<u8>, n: int)
    requires
        occurs_in_order(part, whole),
        0 <= n <= part.len(),
    ensures
        occurs_in_order(part.take(n), whole),
    decreases whole.len(),
{
    if n == part.len() {
        assert(part.take(n) =~= part);
    } else if n > 0 {
        if occurs_in_order(part, whole.drop_last()) {
            lemma_occurs_without_end(part, whole.drop_last(), n);
        } else {
            lemma_occurs_without_end(part.drop_last(), whole.drop_last(), n);
            assert(part.drop_last().take(n) =~= part.take(n));
        }
    }
}

/// What occurs in order in a part of a whole occurs in order in the whole.
pub(crate) proof fn lemma_occurs_through(part: Seq<u8>, middle: Seq<u8>, whole: Seq<u8>)
    requires
        occurs_in_order(part, middle),
        occurs_in_order(middle, whole),
    ensures
        occurs_in_order(part, whole),
    decreases whole.len(),
{
    if part.len() > 0 {
        if occurs_in_order(middle, whole.drop_last()) {
            lemma_occurs_through(part, middle, whole.drop_last());
        } else if occurs_in_order(part, middle.drop_last()) {
            lemma_occurs_through(part, middle.drop_last(), whole.drop_last());
        } else {
            lemma_occurs_through(part.drop_last(), middle.drop_last(), whole.drop_last());
        }
    }
}

/// A sequence occurs in order in itself.
pub(crate) proof fn lemma_occurs_in_itself(bytes: Seq<u8>)
    ensures
        occurs_in_order(bytes, bytes),
    decreases bytes.len(),
{
    if bytes.len() > 0 {
        lemma_occurs_in_itself(bytes.drop_last());
    }
}

/// An outlet hands over what it takes, in order and no byte twice, whether or
/// not writing succeeds: on a USB endpoint what it has taken is what it has
/// handed over, then the packet that it is to write. On a connection a packet
/// that was on its way when the connection was replaced is missing. What was
/// written is a part of what was handed over.
pub open spec fn hands_over_once(writes: Writes, outlet: OutletState, taken: Seq<u8>) -> bool {
    &&& outlet.link == Link::Usb ==> taken == writes.handed + outlet.packet
    &&& occurs_in_order(writes.handed + outlet.packet, taken)
    &&& occurs_in_order(writes.written, writes.handed)
}

/// No event makes an outlet hand over a byte twice or out of order.
pub(crate) proof fn lemma_hands_over_once(
    writes: Writes,
    outlet: OutletState,
    taken: Seq<u8>,
    queue: Seq<u8>,
    event: OutletEvent,
)
    requires
        hands_over_once(writes, outlet, taken),
        packet_fits(outlet),
    ensures
        ({
            let (o, q) = outlet_step(outlet, queue, event);
            hands_over_once(
                writes_step(writes, outlet, event),
                o,
                taken + queue.take(queue.len() - q.len()),
            )
        }),
{
    let (o, q) = outlet_step(outlet, queue, event);
    let after = writes_step(writes, outlet, event);
    let more = queue.take(queue.len() - q.len());
    match event {
        OutletEvent::Pull => {
            if outlet.phase == OutletPhase::Fill && queue.len() > 0 {
                assert(writes.handed + outlet.packet =~= writes.handed);
                assert(o.packet =~= more);
                lemma_occurs_with_same_end(writes.handed, taken, more);
            } else {
                assert(taken + more =~= taken);
            }
        },
        OutletEvent::Written { ok } => {
            assert(taken + more =~= taken);
            if outlet.phase == OutletPhase::Write {
                assert(after.handed + o.packet =~= writes.handed + outlet.packet);
                if ok {
                    lemma_occurs_with_same_end(writes.written, writes.handed, outlet.packet);
                } else {
                    lemma_occurs_in_longer(writes.written, writes.handed, outlet.packet);
                }
            }
        },
        OutletEvent::Enabled => {
            assert(taken + more =~= taken);
        },
    }
}

/// A connection that is replaced does not make its outlet hand over a byte
/// twice or out of order.
pub(crate) proof fn lemma_hands_over_once_reconnected(
    writes: Writes,
    outlet: OutletState,
    taken: Seq<u8>,
)
    requires
        hands_over_once(writes, outlet, taken),
    ensures
        hands_over_once(writes, reconnected_outlet(outlet), taken),
{
    let both = writes.handed + outlet.packet;
    let after = reconnected_outlet(outlet);
    if outlet.link == Link::Tcp {
        lemma_occurs_without_end(both, taken, writes.handed.len() as int);
        assert(writes.handed + after.packet =~= both.take(writes.handed.len() as int));
    }
}

/// A new outlet has handed over nothing.
pub(crate) proof fn lemma_hands_over_once_start(outlet: OutletState)
    requires
        outlet.packet.len() == 0,
    ensures
        hands_over_once(no_writes(), outlet, Seq::empty()),
{
    assert(no_writes().handed + outlet.packet =~= Seq::empty());
}

/// What an outlet has written, or handed over, occurs in order in whatever the
/// bytes that it has taken occur in.
pub(crate) proof fn lemma_handed_over_from(
    writes: Writes,
    outlet: OutletState,
    taken: Seq<u8>,
    source: Seq<u8>,
)
    requires
        hands_over_once(writes, outlet, taken),
        occurs_in_order(taken, source),
    ensures
        occurs_in_order(writes.handed, source),
        occurs_in_order(writes.written, source),
{
    let both = writes.handed + outlet.packet;
    lemma_occurs_without_end(both, taken, writes.handed.len() as int);
    assert(both.take(writes.handed.len() as int) =~= writes.handed);
    lemma_occurs_through(writes.handed, taken, source);
    lemma_occurs_through(writes.written, writes.handed, source);
}

/// Every byte that a bridge's outlet puts into a packet is handed over for
/// writing once, in order, and a packet whose write fails is not handed over
/// again: on a USB endpoint what went into packets is what was handed over,
/// then the packet that is to be written. Over all the connections that replace
/// each other the same holds, without the packets that were on their way when a
/// connection was replaced. What was written is a part of what was read, in
/// order.
pub proof fn law_packets_are_handed_over_once(
    from: Link,
    to: Link,
    max_len: nat,
    capacity: nat,
    events: Seq<OneWayEvent>,
)
    ensures
        ({
            let bridge = one_way_run(one_way_start(from, to, max_len, capacity), events);
            &&& to == Link::Usb ==> bridge.packed == bridge.writes.handed + bridge.outlet.packet
            &&& occurs_in_order(bridge.writes.handed + bridge.outlet.packet, bridge.packed)
            &&& occurs_in_order(bridge.writes.written, bridge.writes.handed)
            &&& occurs_in_order(bridge.writes.written, bridge.read)
        }),
    decreases events.len(),
{
    let bridge = one_way_run(one_way_start(from, to, max_len, capacity), events);
    lemma_one_way_writes(from, to, max_len, capacity, events);
    law_only_connections_end(from, to, max_len, capacity, events);
    law_bridge_keeps_every_byte_in_order(from, to, max_len, capacity, events);
    let rest = bridge.queue + bridge.intake.backlog;
    lemma_concat(bridge.packed, bridge.queue, bridge.intake.backlog);
    lemma_occurs_in_itself(bridge.packed);
    lemma_occurs_in_longer(bridge.packed, bridge.packed, rest);
    lemma_handed_over_from(bridge.writes, bridge.outlet, bridge.packed, bridge.read);
}

/// Every series of events keeps what an outlet of a bridge keeps.
proof fn lemma_one_way_writes(
    from: Link,
    to: Link,
    max_len: nat,
    capacity: nat,
    events: Seq<OneWayEvent>,
)
    ensures
        ({
            let bridge = one_way_run(one_way_start(from, to, max_len, capacity), events);
            &&& hands_over_once(bridge.writes, bridge.outlet, bridge.packed)
            &&& packet_fits(bridge.outlet)
        }),
    decreases events.len(),
{
    let start = one_way_start(from, to, max_len, capacity);
    if events.len() == 0 {
        lemma_hands_over_once_start(start.outlet);
    } else {
        lemma_one_way_writes(from, to, max_len, capacity, events.drop_last());
        let b = one_way_run(start, events.drop_last());
        match events.last() {
            OneWayEvent::Intake(event) => {},
            OneWayEvent::Outlet(event) => {
                lemma_hands_over_once(b.writes, b.outlet, b.packed, b.queue, event);
                lemma_packet_fits(b.outlet, b.queue, event);
            },
            OneWayEvent::Reconnect => {
                lemma_hands_over_once_reconnected(b.writes, b.outlet, b.packed);
            },
        }
    }
}

/// A connection that is over stays over and moves no more bytes.
pub proof fn law_closed_connections_are_silent(
    intake: IntakeState,
    outlet: OutletState,
    queue: Seq<u8>,
    intake_event: IntakeEvent,
    outlet_event: OutletEvent,
)
    ensures
        intake.phase == IntakePhase::Closed ==> intake_step(intake, queue, intake_event) == (
            intake,
            queue,
        ),
        outlet.phase == OutletPhase::Closed ==> outlet_step(outlet, queue, outlet_event) == (
            outlet,
            queue,
        ),
{
}

/// A packet that is pulled from a queue makes room, and room lets an intake
/// send on at least one of the bytes that it holds.
pub proof fn law_pulling_unblocks_the_intake(
    intake: IntakeState,
    queue: Seq<u8>,
    outlet: OutletState,
)
    requires
        intake.phase == IntakePhase::WaitRoom,
        intake.backlog.len() > 0,
        0 < queue.len() <= QUEUE_DEPTH,
        outlet.phase == OutletPhase::Fill,
    ensures
        ({
            let (o, pulled) = outlet_step(outlet, queue, OutletEvent::Pull);
            let (i, q) = intake_step(intake, pulled, IntakeEvent::Room);
            &&& room(pulled) > 0
            &&& i.backlog.len() < intake.backlog.len()
        }),
{
}

/// Which of two intakes that share a queue.
#[derive(Clone, Copy, Debug, PartialEq, Eq, Structural)]
pub enum Side {
    /// The one on the USB serial port.
    Acm,
    /// The one on the TCP connection.
    Tcp,
}

/// The way to the device under test when both bridges are present: two
/// intakes send into one queue.
pub struct Merge {
    /// The intake on the USB serial port.
    pub acm: IntakeState,
    /// The intake on the TCP connection.
    pub tcp: IntakeState,
    /// The queue that both send into.
    pub queue: Seq<u8>,
    /// The half that writes.
    pub outlet: OutletState,
    /// All bytes that the USB serial port brought.
    pub acm_read: Seq<u8>,
    /// All bytes that the TCP connections brought, without those that the
    /// intake held when its connection was replaced.
    pub tcp_read: Seq<u8>,
    /// All bytes that went into the queue, in order, and where each is from.
    pub log: Seq<(Side, u8)>,
    /// All bytes that the outlet has put into packets.
    pub packed: Seq<u8>,
    /// What the outlet has done with those packets.
    pub writes: Writes,
}

/// Something that happens where two intakes share a queue.
pub enum MergeEvent {
    /// An event of one of the intakes.
    Intake(Side, IntakeEvent),
    /// An event of the outlet.
    Outlet(OutletEvent),
    /// The TCP connection is replaced by a new one.
    Reconnect,
}

/// Bytes, each with where it is from.
pub open spec fn marked(side: Side, bytes: Seq<u8>) -> Seq<(Side, u8)> {
    Seq::new(bytes.len(), |i: int| (side, bytes[i]))
}

/// The bytes of a log.
pub open spec fn all_bytes(log: Seq<(Side, u8)>) -> Seq<u8> {
    Seq::new(log.len(), |i: int| log[i].1)
}

/// The bytes of a log that are from one side.
pub open spec fn bytes_from(log: Seq<(Side, u8)>, side: Side) -> Seq<u8>
    decreases log.len(),
{
    if log.len() == 0 {
        Seq::empty()
    } else if log.last().0 == side {
        bytes_from(log.drop_last(), side).push(log.last().1)
    } else {
        bytes_from(log.drop_last(), side)
    }
}

/// Two intakes, a queue and an outlet that nothing went through yet.
pub open spec fn merge_start(max_len: nat, capacity: nat) -> Merge {
    Merge {
        acm: new_intake(Link::Usb),
        tcp: new_intake(Link::Tcp),
        queue: Seq::empty(),
        outlet: new_outlet(Link::Usb, max_len, capacity),
        acm_read: Seq::empty(),
        tcp_read: Seq::empty(),
        log: Seq::empty(),
        packed: Seq::empty(),
        writes: no_writes(),
    }
}

/// Two intakes, their queue and its outlet after an event.
pub open spec fn merge_step(merge: Merge, event: MergeEvent) -> Merge {
    match event {
        MergeEvent::Intake(Side::Acm, event) => {
            let (acm, queue) = intake_step(merge.acm, merge.queue, event);
            Merge {
                acm,
                queue,
                acm_read: read_after(merge.acm_read, merge.acm.phase, event),
                log: merge.log + marked(Side::Acm, queue.skip(merge.queue.len() as int)),
                ..merge
            }
        },
        MergeEvent::Intake(Side::Tcp, event) => {
            let (tcp, queue) = intake_step(merge.tcp, merge.queue, event);
            Merge {
                tcp,
                queue,
                tcp_read: read_after(merge.tcp_read, merge.tcp.phase, event),
                log: merge.log + marked(Side::Tcp, queue.skip(merge.queue.len() as int)),
                ..merge
            }
        },
        MergeEvent::Outlet(event) => {
            let (outlet, queue) = outlet_step(merge.outlet, merge.queue, event);
            Merge {
                outlet,
                queue,
                packed: merge.packed + merge.queue.take(merge.queue.len() - queue.len()),
                writes: writes_step(merge.writes, merge.outlet, event),
                ..merge
            }
        },
        MergeEvent::Reconnect => Merge {
            tcp: reconnected_intake(merge.tcp),
            tcp_read: merge.tcp_read.take(
                merge.tcp_read.len() - dropped_on_reconnect(merge.tcp),
            ),
            ..merge
        },
    }
}

/// Two intakes, their queue and its outlet after a series of events.
pub open spec fn merge_run(merge: Merge, events: Seq<MergeEvent>) -> Merge
    decreases events.len(),
{
    if events.len() == 0 {
        merge
    } else {
        merge_step(merge_run(merge, events.drop_last()), events.last())
    }
}

/// Marked bytes at the end of a log count for their own side only.
pub(crate) proof fn lemma_marked(log: Seq<(Side, u8)>, side: Side, bytes: Seq<u8>)
    ensures
        all_bytes(log + marked(side, bytes)) == all_bytes(log) + bytes,
        bytes_from(log + marked(side, bytes), side) == bytes_from(log, side) + bytes,
        forall|other: Side|
            other != side ==> #[trigger] bytes_from(log + marked(side, bytes), other)
                == bytes_from(log, other),
    decreases bytes.len(),
{
    let longer = log + marked(side, bytes);
    assert(all_bytes(longer) =~= all_bytes(log) + bytes);
    if bytes.len() == 0 {
        assert(longer =~= log);
        assert(bytes_from(log, side) + bytes =~= bytes_from(log, side));
    } else {
        let less = bytes.drop_last();
        lemma_marked(log, side, less);
        assert(longer.drop_last() =~= log + marked(side, less));
        assert(longer.last() == (side, bytes.last()));
        assert(bytes_from(log, side) + bytes =~= (bytes_from(log, side) + less).push(
            bytes.last(),
        ));
        assert forall|other: Side| other != side implies #[trigger] bytes_from(longer, other)
            == bytes_from(log, other) by {
            assert(bytes_from(log + marked(side, less), other) == bytes_from(log, other));
        }
    }
}

/// An intake's event, seen from the log of its queue.
proof fn lemma_logged_step(
    side: Side,
    intake: IntakeState,
    queue: Seq<u8>,
    event: IntakeEvent,
    log: Seq<(Side, u8)>,
    packed: Seq<u8>,
    read: Seq<u8>,
)
    requires
        intake_inv(intake),
        queue.len() <= QUEUE_DEPTH,
        all_bytes(log) == packed + queue,
        read == bytes_from(log, side) + intake.backlog,
    ensures
        ({
            let (i, q) = intake_step(intake, queue, event);
            let longer = log + marked(side, q.skip(queue.len() as int));
            &&& intake_inv(i)
            &&& q.len() <= QUEUE_DEPTH
            &&& all_bytes(longer) == packed + q
            &&& read_after(read, intake.phase, event) == bytes_from(longer, side) + i.backlog
            &&& forall|other: Side|
                other != side ==> #[trigger] bytes_from(longer, other) == bytes_from(log, other)
        }),
{
    let (i, q) = intake_step(intake, queue, event);
    let added = q.skip(queue.len() as int);
    let new = bytes_read(intake.phase, event);
    lemma_intake_step(intake, queue, event);
    lemma_read_after(read, intake.phase, event);
    lemma_marked(log, side, added);
    assert(q =~= queue + added);
    lemma_concat(packed, queue, added);
    lemma_concat(queue, added, i.backlog);
    lemma_concat(queue, intake.backlog, new);
    assert((queue + (added + i.backlog)).skip(queue.len() as int) =~= added + i.backlog);
    assert((queue + (intake.backlog + new)).skip(queue.len() as int) =~= intake.backlog + new);
    lemma_concat(bytes_from(log, side), intake.backlog, new);
    lemma_concat(bytes_from(log, side), added, i.backlog);
}

/// What went into the queue is what the outlet has put into packets, then what
/// is in the queue, and each side's part of it is what its intake has read, up
/// to what the intake still holds.
pub open spec fn keeps_each_order(merge: Merge) -> bool {
    &&& all_bytes(merge.log) == merge.packed + merge.queue
    &&& merge.acm_read == bytes_from(merge.log, Side::Acm) + merge.acm.backlog
    &&& merge.tcp_read == bytes_from(merge.log, Side::Tcp) + merge.tcp.backlog
    &&& merge.queue.len() <= QUEUE_DEPTH
    &&& intake_inv(merge.acm)
    &&& intake_inv(merge.tcp)
}

/// No event disturbs the order of either side's bytes.
pub(crate) proof fn lemma_merge_step(m: Merge, event: MergeEvent)
    requires
        keeps_each_order(m),
    ensures
        keeps_each_order(merge_step(m, event)),
{
    let after = merge_step(m, event);
    match event {
        MergeEvent::Intake(Side::Acm, event) => {
            lemma_logged_step(Side::Acm, m.acm, m.queue, event, m.log, m.packed, m.acm_read);
        },
        MergeEvent::Intake(Side::Tcp, event) => {
            lemma_logged_step(Side::Tcp, m.tcp, m.queue, event, m.log, m.packed, m.tcp_read);
        },
        MergeEvent::Outlet(event) => {
            lemma_outlet_step(m.outlet, m.queue, event);
            lemma_concat(
                m.packed,
                m.queue.take(m.queue.len() - after.queue.len()),
                after.queue,
            );
        },
        MergeEvent::Reconnect => {
            assert(after.tcp_read =~= bytes_from(after.log, Side::Tcp) + after.tcp.backlog);
        },
    }
}

/// Nothing has gone through a new merge, so nothing is out of order in it.
pub(crate) proof fn lemma_merge_start(max_len: nat, capacity: nat)
    ensures
        keeps_each_order(merge_start(max_len, capacity)),
{
    let start = merge_start(max_len, capacity);
    assert(all_bytes(start.log) =~= start.packed + start.queue);
    assert(start.acm_read =~= bytes_from(start.log, Side::Acm) + start.acm.backlog);
    assert(start.tcp_read =~= bytes_from(start.log, Side::Tcp) + start.tcp.backlog);
}

/// Two intakes that share a queue do not disturb each other: what the outlet
/// has put into packets and what is in the queue is a mix of the two sides'
/// bytes in which each side's bytes are complete up to what its intake still
/// holds, and in the order in which they were read.
pub proof fn law_merge_keeps_each_order(max_len: nat, capacity: nat, events: Seq<MergeEvent>)
    ensures
        ({
            let merge = merge_run(merge_start(max_len, capacity), events);
            &&& all_bytes(merge.log) == merge.packed + merge.queue
            &&& merge.acm_read == bytes_from(merge.log, Side::Acm) + merge.acm.backlog
            &&& merge.tcp_read == bytes_from(merge.log, Side::Tcp) + merge.tcp.backlog
            &&& merge.queue.len() <= QUEUE_DEPTH
            &&& intake_inv(merge.acm)
            &&& intake_inv(merge.tcp)
        }),
    decreases events.len(),
{
    if events.len() == 0 {
        lemma_merge_start(max_len, capacity);
    } else {
        law_merge_keeps_each_order(max_len, capacity, events.drop_last());
        lemma_merge_step(
            merge_run(merge_start(max_len, capacity), events.drop_last()),
            events.last(),
        );
    }
}

/// One reader's share of the console output, with what went through so far.
pub struct Share {
    /// The bytes that the reader has yet to read.
    pub unread: Seq<u8>,
    /// All bytes that were published.
    pub published: Seq<u8>,
    /// All bytes that the reader has taken.
    pub taken: Seq<u8>,
    /// How many bytes the reader has lost.
    pub lost: int,
}

/// Something that happens to the console output.
pub enum FanoutEvent {
    /// Bytes are published.
    Publish(Seq<u8>),
    /// A reader takes a packet, within its limits.
    Pull { reader: Reader, max_len: nat, capacity: nat },
}

/// A share that nothing went through yet.
pub open spec fn share_start() -> Share {
    Share { unread: Seq::empty(), published: Seq::empty(), taken: Seq::empty(), lost: 0 }
}

/// A reader's share after an event.
pub open spec fn share_step(share: Share, reader: Reader, event: FanoutEvent) -> Share {
    match event {
        FanoutEvent::Publish(bytes) => {
            let unread = newest(share.unread + bytes);
            Share {
                unread,
                published: share.published + bytes,
                lost: share.lost + share.unread.len() + bytes.len() - unread.len(),
                ..share
            }
        },
        FanoutEvent::Pull { reader: by, max_len, capacity } => if by == reader {
            let n = packet_len(share.unread.len(), max_len, capacity) as int;
            Share {
                unread: share.unread.skip(n),
                taken: share.taken + share.unread.take(n),
                ..share
            }
        } else {
            share
        },
    }
}

/// A reader's share after a series of events.
pub open spec fn share_run(share: Share, reader: Reader, events: Seq<FanoutEvent>) -> Share
    decreases events.len(),
{
    if events.len() == 0 {
        share
    } else {
        share_step(share_run(share, reader, events.drop_last()), reader, events.last())
    }
}

/// What was published before the bytes that a reader has yet to read.
pub open spec fn already_passed(share: Share) -> Seq<u8> {
    share.published.take(share.published.len() - share.unread.len())
}

/// What a share keeps, whatever happens to it.
pub open spec fn share_inv(share: Share) -> bool {
    &&& share.unread.len() <= QUEUE_DEPTH
    &&& share.unread.len() <= share.published.len()
    &&& share.published == already_passed(share) + share.unread
    &&& share.lost >= 0
    &&& share.published.len() == share.taken.len() + share.lost + share.unread.len()
    &&& occurs_in_order(share.taken, already_passed(share))
    &&& share.lost == 0 ==> share.taken == already_passed(share)
}

/// A share keeps its invariant when its reader takes the next `n` bytes.
pub(crate) proof fn lemma_share_take(before: Share, after: Share, n: int)
    requires
        share_inv(before),
        0 <= n <= before.unread.len(),
        after.unread == before.unread.skip(n),
        after.published == before.published,
        after.taken == before.taken + before.unread.take(n),
        after.lost == before.lost,
    ensures
        share_inv(after),
{
    let passed = already_passed(before);
    let packet = before.unread.take(n);
    assert(before.unread =~= packet + after.unread);
    lemma_concat(passed, packet, after.unread);
    assert(already_passed(after) =~= passed + packet);
    lemma_occurs_with_same_end(before.taken, passed, packet);
}

/// No event breaks what a share keeps.
pub(crate) proof fn lemma_share_step(before: Share, reader: Reader, event: FanoutEvent)
    requires
        share_inv(before),
    ensures
        share_inv(share_step(before, reader, event)),
{
    let after = share_step(before, reader, event);
    let passed = already_passed(before);
    match event {
        FanoutEvent::Publish(bytes) => {
            let waiting = before.unread + bytes;
            let gone = waiting.take(waiting.len() - after.unread.len());
            lemma_concat(passed, before.unread, bytes);
            assert(waiting =~= gone + after.unread);
            lemma_concat(passed, gone, after.unread);
            assert(already_passed(after) =~= passed + gone);
            lemma_occurs_in_longer(before.taken, passed, gone);
            if after.lost == 0 {
                assert(passed + gone =~= passed);
            }
        },
        FanoutEvent::Pull { reader: by, max_len, capacity } => {
            if by == reader {
                let n = packet_len(before.unread.len(), max_len, capacity) as int;
                lemma_share_take(before, after, n);
            }
        },
    }
}

/// Every series of events keeps what a share keeps.
proof fn lemma_share_run(reader: Reader, events: Seq<FanoutEvent>)
    ensures
        share_inv(share_run(share_start(), reader, events)),
    decreases events.len(),
{
    if events.len() == 0 {
        let start = share_start();
        assert(start.published =~= already_passed(start) + start.unread);
        assert(start.taken =~= already_passed(start));
    } else {
        lemma_share_run(reader, events.drop_last());
        lemma_share_step(
            share_run(share_start(), reader, events.drop_last()),
            reader,
            events.last(),
        );
    }
}

/// What a reader has yet to read is the end of what was published, and never
/// more than the channel holds.
pub proof fn law_reader_sees_the_newest(reader: Reader, events: Seq<FanoutEvent>)
    ensures
        ({
            let share = share_run(share_start(), reader, events);
            &&& share.unread.len() <= QUEUE_DEPTH
            &&& share.published == already_passed(share) + share.unread
        }),
{
    lemma_share_run(reader, events);
}

/// A reader takes published bytes in the order in which they were published
/// and none twice, and every published byte is taken, lost or yet to be read.
/// A reader that has lost nothing has taken everything up to what it has yet
/// to read.
pub proof fn law_reader_takes_in_order(reader: Reader, events: Seq<FanoutEvent>)
    ensures
        ({
            let share = share_run(share_start(), reader, events);
            &&& occurs_in_order(share.taken, already_passed(share))
            &&& share.published.len() == share.taken.len() + share.lost + share.unread.len()
            &&& share.lost >= 0
            &&& share.lost == 0 ==> share.published == share.taken + share.unread
        }),
{
    lemma_share_run(reader, events);
}

/// A reader that is not behind by more than the channel holds loses nothing.
pub proof fn law_no_loss_within_the_depth(
    reader: Reader,
    events: Seq<FanoutEvent>,
    bytes: Seq<u8>,
)
    ensures
        ({
            let before = share_run(share_start(), reader, events);
            let after = share_run(share_start(), reader, events.push(FanoutEvent::Publish(bytes)));
            after.lost == before.lost <==> before.unread.len() + bytes.len() <= QUEUE_DEPTH
        }),
{
    assert(events.push(FanoutEvent::Publish(bytes)).drop_last() =~= events);
}

/// The event is a packet that the other reader takes.
pub open spec fn is_for_other(reader: Reader, event: FanoutEvent) -> bool {
    event matches FanoutEvent::Pull { reader: by, max_len, capacity } && by != reader
}

/// A reader neither gains nor loses by what the other reader does: its share is
/// the same as if the other reader took nothing.
pub proof fn law_readers_are_independent(reader: Reader, events: Seq<FanoutEvent>)
    ensures
        share_run(share_start(), reader, events) == share_run(
            share_start(),
            reader,
            events.filter(|event: FanoutEvent| !is_for_other(reader, event)),
        ),
    decreases events.len(),
{
    reveal(Seq::filter);
    let own = |event: FanoutEvent| !is_for_other(reader, event);
    if events.len() > 0 {
        law_readers_are_independent(reader, events.drop_last());
        let rest = events.drop_last().filter(own);
        if own(events.last()) {
            assert(rest.push(events.last()).drop_last() =~= rest);
        }
    }
}

} // verus!

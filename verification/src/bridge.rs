//! The two halves of a bridge and what they keep between them.
//!
//! A bridge carries bytes one way: an [`Intake`] reads packets from one link
//! and sends their bytes into a queue, an [`Outlet`] drains the queue into
//! packets and writes them to the other link. Both are driven from outside:
//! each phase names the one thing to wait for, and a method takes what came
//! of it.

use vstd::prelude::*;
use vstd::slice::slice_subrange;

use crate::ehci_debug::{DEBUG_ENDPOINT_MAX_PACKET_SIZE, DEBUG_TRANSACTION_SIZE};
use crate::fanout::{fill_pubsub_packet, newest, DutOutput, Reader};
use crate::queue::{accepted, fill_packet, packet_len, ByteQueue};

verus! {

/// The packet size of the ACM bridge.
pub const ACM_PACKET_SIZE: usize = 64;

/// The longest packet that the ACM bridge sends. It is shorter than a full
/// packet, so the host never waits for the end of a transfer.
pub const ACM_TX_PACKET_SIZE: usize = 63;

/// How many bytes the TCP bridge reads or writes at once.
pub const TCP_IO_CHUNK: usize = 1024;

/// What a half of a bridge reads from or writes to.
#[derive(Clone, Copy, Debug, PartialEq, Eq, Structural)]
pub enum Link {
    /// A USB endpoint. The host may disable it and enable it again.
    Usb,
    /// One TCP connection. It ends with the first failure.
    Tcp,
}

/// What an intake waits for.
#[derive(Clone, Copy, Debug, PartialEq, Eq, Structural)]
pub enum IntakePhase {
    /// The host enables the endpoint.
    WaitLink,
    /// The link brings a packet.
    Read,
    /// The queue takes more bytes.
    WaitRoom,
    /// Nothing: the connection is over.
    Closed,
}

/// An intake, as contracts speak of it.
#[verifier::ext_equal]
pub struct IntakeState {
    /// What the intake reads from.
    pub link: Link,
    /// What the intake waits for.
    pub phase: IntakePhase,
    /// The bytes that were read and are not in the queue yet.
    pub backlog: Seq<u8>,
}

/// An intake that has not read anything yet. One on a USB endpoint waits for
/// the endpoint first, one on a connection starts to read.
pub open spec fn new_intake(link: Link) -> IntakeState {
    let phase = match link {
        Link::Usb => IntakePhase::WaitLink,
        Link::Tcp => IntakePhase::Read,
    };
    IntakeState { link, phase, backlog: Seq::empty() }
}

/// Something that an intake waits for.
pub enum IntakeEvent {
    /// The endpoint is enabled.
    Enabled,
    /// The link brought a packet.
    Packet { bytes: Seq<u8> },
    /// The link failed to bring a packet.
    Failed,
    /// The queue may take more bytes.
    Room,
}

/// The event is one that an intake in this phase waits for.
pub open spec fn intake_expects(phase: IntakePhase, event: IntakeEvent) -> bool {
    match event {
        IntakeEvent::Enabled => phase == IntakePhase::WaitLink,
        IntakeEvent::Packet { bytes } => phase == IntakePhase::Read,
        IntakeEvent::Failed => phase == IntakePhase::Read,
        IntakeEvent::Room => phase == IntakePhase::WaitRoom,
    }
}

/// An intake and its queue after `bytes` were sent as far as the queue takes
/// them. The next packet is read once all are sent.
pub open spec fn forward(state: IntakeState, queue: Seq<u8>, bytes: Seq<u8>) -> (
    IntakeState,
    Seq<u8>,
) {
    let n = accepted(queue, bytes);
    let phase = if n == bytes.len() {
        IntakePhase::Read
    } else {
        IntakePhase::WaitRoom
    };
    (IntakeState { link: state.link, phase, backlog: bytes.skip(n) }, queue + bytes.take(n))
}

/// An intake after its link failed: a USB endpoint is waited for again, a
/// connection is over.
pub open spec fn link_lost(state: IntakeState) -> IntakeState {
    let phase = match state.link {
        Link::Usb => IntakePhase::WaitLink,
        Link::Tcp => IntakePhase::Closed,
    };
    IntakeState { phase, ..state }
}

/// An intake and its queue after an event. Nothing happens on an event that
/// the intake does not wait for.
pub open spec fn intake_step(state: IntakeState, queue: Seq<u8>, event: IntakeEvent) -> (
    IntakeState,
    Seq<u8>,
) {
    if !intake_expects(state.phase, event) {
        (state, queue)
    } else {
        match event {
            IntakeEvent::Enabled => (IntakeState { phase: IntakePhase::Read, ..state }, queue),
            IntakeEvent::Packet { bytes } => if state.link == Link::Tcp && bytes.len() == 0 {
                (link_lost(state), queue)
            } else {
                forward(state, queue, bytes)
            },
            IntakeEvent::Failed => (link_lost(state), queue),
            IntakeEvent::Room => forward(state, queue, state.backlog),
        }
    }
}

/// The bytes that an intake in this phase reads with an event.
pub open spec fn bytes_read(phase: IntakePhase, event: IntakeEvent) -> Seq<u8> {
    match event {
        IntakeEvent::Packet { bytes } => if intake_expects(phase, event) {
            bytes
        } else {
            Seq::empty()
        },
        _ => Seq::empty(),
    }
}

/// An intake that publishes what it reads, after an event. A publisher never
/// waits, so a packet leaves it ready for the next one.
pub open spec fn publishing_step(state: IntakeState, event: IntakeEvent) -> IntakeState {
    match event {
        IntakeEvent::Enabled => if intake_expects(state.phase, event) {
            IntakeState { phase: IntakePhase::Read, ..state }
        } else {
            state
        },
        IntakeEvent::Failed => if intake_expects(state.phase, event) {
            link_lost(state)
        } else {
            state
        },
        _ => state,
    }
}

/// Reads packets of up to `N` bytes from a link and sends their bytes on, one
/// packet at a time.
pub struct Intake<const N: usize> {
    link: Link,
    phase: IntakePhase,
    chunk: [u8; N],
    sent: usize,
    len: usize,
}

impl<const N: usize> View for Intake<N> {
    type V = IntakeState;

    closed spec fn view(&self) -> IntakeState {
        IntakeState {
            link: self.link,
            phase: self.phase,
            backlog: self.chunk@.subrange(self.sent as int, self.len as int),
        }
    }
}

impl<const N: usize> Intake<N> {
    /// Bytes are left to send exactly while the intake waits for room.
    pub closed spec fn wf(&self) -> bool {
        &&& self.sent <= self.len <= N
        &&& (self.phase == IntakePhase::WaitRoom) == (self.sent < self.len)
    }

    /// Creates an intake that keeps what it has yet to send in `chunk` and has
    /// not read anything yet.
    pub fn new(link: Link, chunk: [u8; N]) -> (intake: Intake<N>)
        ensures
            intake.wf(),
            intake@ == new_intake(link),
    {
        let phase = match link {
            Link::Usb => IntakePhase::WaitLink,
            Link::Tcp => IntakePhase::Read,
        };
        Intake { link, phase, chunk, sent: 0, len: 0 }
    }

    /// What the intake waits for.
    pub fn phase(&self) -> (phase: IntakePhase)
        ensures
            phase == self@.phase,
    {
        self.phase
    }

    /// Takes note that the endpoint is enabled, if the intake waits for that.
    pub fn enabled(&mut self)
        requires
            old(self).wf(),
        ensures
            final(self).wf(),
            final(self)@ == publishing_step(old(self)@, IntakeEvent::Enabled),
            forall|queue: Seq<u8>| #[trigger]
                intake_step(old(self)@, queue, IntakeEvent::Enabled) == (final(self)@, queue),
    {
        if self.phase == IntakePhase::WaitLink {
            self.phase = IntakePhase::Read;
        }
    }

    /// Takes note that reading failed, if the intake reads.
    pub fn failed(&mut self)
        requires
            old(self).wf(),
        ensures
            final(self).wf(),
            final(self)@ == publishing_step(old(self)@, IntakeEvent::Failed),
            forall|queue: Seq<u8>| #[trigger]
                intake_step(old(self)@, queue, IntakeEvent::Failed) == (final(self)@, queue),
    {
        if self.phase == IntakePhase::Read {
            match self.link {
                Link::Usb => {
                    self.phase = IntakePhase::WaitLink;
                },
                Link::Tcp => {
                    self.phase = IntakePhase::Closed;
                },
            }
        }
    }

    /// Takes a packet that was read and sends its bytes on as far as the queue
    /// takes them. An empty packet ends a connection. An intake that does not
    /// read ignores the packet.
    pub fn packet(&mut self, bytes: &[u8], tx: &mut ByteQueue)
        requires
            old(self).wf(),
            bytes@.len() <= N,
        ensures
            final(self).wf(),
            (final(self)@, final(tx)@) == intake_step(
                old(self)@,
                old(tx)@,
                (IntakeEvent::Packet { bytes: bytes@ }),
            ),
    {
        if self.phase != IntakePhase::Read {
            return;
        }
        if bytes.len() == 0 {
            if let Link::Tcp = self.link {
                self.phase = IntakePhase::Closed;
                return;
            }
        }
        let next: usize = tx.offer(bytes, 0);
        let left: usize = bytes.len() - next;
        let mut i: usize = 0;
        while i < left
            invariant
                i <= left == bytes@.len() - next,
                bytes@.len() <= N,
                self.link == old(self).link,
                self.phase == IntakePhase::Read,
                self.chunk@.take(i as int) == bytes@.subrange(next as int, next + i),
            decreases left - i,
        {
            self.chunk[i] = bytes[next + i];
            i = i + 1;
        }
        self.sent = 0;
        self.len = left;
        if left > 0 {
            self.phase = IntakePhase::WaitRoom;
        }
    }

    /// Sends on what is left of the last packet, as far as the queue takes it,
    /// if the intake waits for room.
    pub fn room(&mut self, tx: &mut ByteQueue)
        requires
            old(self).wf(),
        ensures
            final(self).wf(),
            (final(self)@, final(tx)@) == intake_step(old(self)@, old(tx)@, IntakeEvent::Room),
    {
        if self.phase != IntakePhase::WaitRoom {
            return;
        }
        let backlog = slice_subrange(self.chunk.as_slice(), self.sent, self.len);
        let sent: usize = tx.offer(backlog, 0);
        self.sent = self.sent + sent;
        if self.sent == self.len {
            self.phase = IntakePhase::Read;
        }
    }

    /// Takes a packet that was read and publishes its bytes to both readers of
    /// the console output. The intake goes on reading. An intake that does not
    /// read ignores the packet.
    pub fn publish(&mut self, bytes: &[u8], output: &mut DutOutput<'_>)
        requires
            old(self).wf(),
            old(output).wf(),
        ensures
            final(self).wf(),
            final(output).wf(),
            final(self)@ == publishing_step(
                old(self)@,
                (IntakeEvent::Packet { bytes: bytes@ }),
            ),
            final(self)@ == old(self)@,
            old(self)@.phase == IntakePhase::Read ==> forall|reader: Reader| #[trigger]
                final(output).pending(reader) == newest(old(output).pending(reader) + bytes@),
            old(self)@.phase != IntakePhase::Read ==> forall|reader: Reader| #[trigger]
                final(output).pending(reader) == old(output).pending(reader),
            forall|reader: Reader| #[trigger]
                final(output).pending(reader) == newest(
                    old(output).pending(reader) + bytes_read(
                        old(self)@.phase,
                        (IntakeEvent::Packet { bytes: bytes@ }),
                    ),
                ),
    {
        if self.phase == IntakePhase::Read {
            output.publish(bytes);
        } else {
            assert forall|reader: Reader| #[trigger] output.pending(reader) == newest(
                output.pending(reader) + Seq::empty(),
            ) by {
                assert(output.pending(reader) + Seq::empty() =~= output.pending(reader));
            }
        }
    }
}

/// The intake of the device under test's console output.
pub fn debug_intake() -> (intake: Intake<DEBUG_ENDPOINT_MAX_PACKET_SIZE>)
    ensures
        intake.wf(),
        intake@ == new_intake(Link::Usb),
{
    Intake::new(Link::Usb, [0u8; DEBUG_ENDPOINT_MAX_PACKET_SIZE])
}

/// The intake of the USB serial port of the host.
pub fn acm_intake() -> (intake: Intake<ACM_PACKET_SIZE>)
    ensures
        intake.wf(),
        intake@ == new_intake(Link::Usb),
{
    Intake::new(Link::Usb, [0u8; ACM_PACKET_SIZE])
}

/// The intake of a TCP client.
pub fn tcp_intake() -> (intake: Intake<TCP_IO_CHUNK>)
    ensures
        intake.wf(),
        intake@ == new_intake(Link::Tcp),
{
    Intake::new(Link::Tcp, [0u8; TCP_IO_CHUNK])
}

/// What an outlet waits for.
#[derive(Clone, Copy, Debug, PartialEq, Eq, Structural)]
pub enum OutletPhase {
    /// The host enables the endpoint.
    WaitLink,
    /// The queue holds a byte.
    Fill,
    /// The packet is written.
    Write,
    /// Nothing: the connection is over.
    Closed,
}

/// An outlet, as contracts speak of it.
#[verifier::ext_equal]
pub struct OutletState {
    /// What the outlet writes to.
    pub link: Link,
    /// What the outlet waits for.
    pub phase: OutletPhase,
    /// The most that a packet is asked to carry.
    pub max_len: nat,
    /// The most that a packet has room for.
    pub capacity: nat,
    /// The packet that is to be written; empty in other phases.
    pub packet: Seq<u8>,
}

/// An outlet that has not written anything yet. One on a USB endpoint waits
/// for the endpoint first, one on a connection starts to drain its queue.
pub open spec fn new_outlet(link: Link, max_len: nat, capacity: nat) -> OutletState {
    let phase = match link {
        Link::Usb => OutletPhase::WaitLink,
        Link::Tcp => OutletPhase::Fill,
    };
    OutletState { link, phase, max_len, capacity, packet: Seq::empty() }
}

/// Something that an outlet waits for.
pub enum OutletEvent {
    /// The endpoint is enabled.
    Enabled,
    /// The queue may hold a byte.
    Pull,
    /// The packet was written, or writing it failed.
    Written { ok: bool },
}

/// The event is one that an outlet in this phase waits for.
pub open spec fn outlet_expects(phase: OutletPhase, event: OutletEvent) -> bool {
    match event {
        OutletEvent::Enabled => phase == OutletPhase::WaitLink,
        OutletEvent::Pull => phase == OutletPhase::Fill,
        OutletEvent::Written { ok } => phase == OutletPhase::Write,
    }
}

/// How many of the waiting bytes an outlet's next packet carries.
pub open spec fn next_packet_len(state: OutletState, queue: Seq<u8>) -> int {
    packet_len(queue.len(), state.max_len, state.capacity) as int
}

/// What an outlet waits for once a packet was written or lost. A USB endpoint
/// is waited for again either way; a connection is over with the first packet
/// that could not be written.
pub open spec fn after_write(link: Link, ok: bool) -> OutletPhase {
    match link {
        Link::Usb => OutletPhase::WaitLink,
        Link::Tcp => if ok {
            OutletPhase::Fill
        } else {
            OutletPhase::Closed
        },
    }
}

/// An outlet and its queue after an event. Nothing happens on an event that
/// the outlet does not wait for.
pub open spec fn outlet_step(state: OutletState, queue: Seq<u8>, event: OutletEvent) -> (
    OutletState,
    Seq<u8>,
) {
    if !outlet_expects(state.phase, event) {
        (state, queue)
    } else {
        match event {
            OutletEvent::Enabled => (OutletState { phase: OutletPhase::Fill, ..state }, queue),
            OutletEvent::Pull => if queue.len() == 0 {
                (state, queue)
            } else {
                let n = next_packet_len(state, queue);
                (
                    OutletState { phase: OutletPhase::Write, packet: queue.take(n), ..state },
                    queue.skip(n),
                )
            },
            OutletEvent::Written { ok } => (
                OutletState {
                    phase: after_write(state.link, ok),
                    packet: Seq::empty(),
                    ..state
                },
                queue,
            ),
        }
    }
}

/// Drains a queue into packets and writes them to a link, one at a time.
pub struct Outlet<const N: usize> {
    link: Link,
    phase: OutletPhase,
    max_len: usize,
    buf: [u8; N],
    len: usize,
}

impl<const N: usize> View for Outlet<N> {
    type V = OutletState;

    closed spec fn view(&self) -> OutletState {
        OutletState {
            link: self.link,
            phase: self.phase,
            max_len: self.max_len as nat,
            capacity: N as nat,
            packet: self.buf@.take(self.len as int),
        }
    }
}

impl<const N: usize> Outlet<N> {
    /// There is room for a packet, and one to write exactly while the outlet
    /// waits for that.
    pub closed spec fn wf(&self) -> bool {
        &&& N > 0
        &&& self.len <= N
        &&& (self.phase == OutletPhase::Write) == (self.len > 0)
    }

    /// Creates an outlet that assembles its packets in `buf` and has not
    /// written anything yet.
    pub fn new(link: Link, buf: [u8; N], max_len: usize) -> (outlet: Outlet<N>)
        requires
            N > 0,
        ensures
            outlet.wf(),
            outlet@ == new_outlet(link, max_len as nat, N as nat),
    {
        let phase = match link {
            Link::Usb => OutletPhase::WaitLink,
            Link::Tcp => OutletPhase::Fill,
        };
        Outlet { link, phase, max_len, buf, len: 0 }
    }

    /// What the outlet waits for.
    pub fn phase(&self) -> (phase: OutletPhase)
        ensures
            phase == self@.phase,
    {
        self.phase
    }

    /// The packet that is to be written.
    pub fn packet(&self) -> (packet: &[u8])
        requires
            self.wf(),
        ensures
            packet@ == self@.packet,
    {
        slice_subrange(self.buf.as_slice(), 0, self.len)
    }

    /// Takes note that the endpoint is enabled, if the outlet waits for that.
    pub fn enabled(&mut self)
        requires
            old(self).wf(),
        ensures
            final(self).wf(),
            forall|queue: Seq<u8>| #[trigger]
                outlet_step(old(self)@, queue, OutletEvent::Enabled) == (final(self)@, queue),
    {
        if self.phase == OutletPhase::WaitLink {
            self.phase = OutletPhase::Fill;
        }
    }

    /// Assembles the next packet from a queue, if a byte waits there and the
    /// outlet waits for one.
    pub fn pull(&mut self, rx: &mut ByteQueue)
        requires
            old(self).wf(),
        ensures
            final(self).wf(),
            (final(self)@, final(rx)@) == outlet_step(old(self)@, old(rx)@, OutletEvent::Pull),
    {
        if self.phase == OutletPhase::Fill {
            if let Some(len) = fill_packet(rx, &mut self.buf, self.max_len) {
                self.len = len;
                self.phase = OutletPhase::Write;
            }
        }
    }

    /// Assembles the next packet from a reader's share of the console output,
    /// if a byte waits there and the outlet waits for one.
    pub fn pull_pubsub(&mut self, rx: &mut DutOutput<'_>, reader: Reader)
        requires
            old(self).wf(),
            old(rx).wf(),
        ensures
            final(self).wf(),
            final(rx).wf(),
            (final(self)@, final(rx).pending(reader)) == outlet_step(
                old(self)@,
                old(rx).pending(reader),
                OutletEvent::Pull,
            ),
            forall|other: Reader|
                other != reader ==> #[trigger] final(rx).pending(other) == old(rx).pending(other),
    {
        if self.phase == OutletPhase::Fill {
            if let Some(len) = fill_pubsub_packet(rx, reader, &mut self.buf, self.max_len) {
                self.len = len;
                self.phase = OutletPhase::Write;
            }
        }
    }

    /// Takes note that the packet was written, or that writing it failed, if
    /// the outlet has one to write.
    pub fn written(&mut self, ok: bool)
        requires
            old(self).wf(),
        ensures
            final(self).wf(),
            forall|queue: Seq<u8>| #[trigger]
                outlet_step(old(self)@, queue, (OutletEvent::Written { ok })) == (
                    final(self)@,
                    queue,
                ),
    {
        if self.phase == OutletPhase::Write {
            self.len = 0;
            match self.link {
                Link::Usb => {
                    self.phase = OutletPhase::WaitLink;
                },
                Link::Tcp => {
                    self.phase = if ok { OutletPhase::Fill } else { OutletPhase::Closed };
                },
            }
            assert(self@.packet =~= Seq::empty());
        }
    }
}

/// The outlet to the device under test: its packets are EHCI debug
/// transactions.
pub fn debug_outlet() -> (outlet: Outlet<DEBUG_TRANSACTION_SIZE>)
    ensures
        outlet.wf(),
        outlet@ == new_outlet(Link::Usb, 8, 8),
{
    Outlet::new(Link::Usb, [0u8; DEBUG_TRANSACTION_SIZE], DEBUG_TRANSACTION_SIZE)
}

/// The outlet to the USB serial port of the host.
pub fn acm_outlet() -> (outlet: Outlet<ACM_PACKET_SIZE>)
    ensures
        outlet.wf(),
        outlet@ == new_outlet(Link::Usb, 63, 64),
{
    Outlet::new(Link::Usb, [0u8; ACM_PACKET_SIZE], ACM_TX_PACKET_SIZE)
}

/// The outlet to a TCP client.
pub fn tcp_outlet() -> (outlet: Outlet<TCP_IO_CHUNK>)
    ensures
        outlet.wf(),
        outlet@ == new_outlet(Link::Tcp, 1024, 1024),
{
    Outlet::new(Link::Tcp, [0u8; TCP_IO_CHUNK], TCP_IO_CHUNK)
}

/// A packet that an intake reads is carried on whole, whatever its length and
/// its bytes: what was in the queue stays in front, and all bytes of the packet
/// follow, in the queue for as long as it has room and then in the intake. The
/// intake goes on to read once it holds nothing back, and it does not end.
pub proof fn law_a_packet_is_carried_on_whole(
    intake: IntakeState,
    queue: Seq<u8>,
    bytes: Seq<u8>,
)
    requires
        intake.phase == IntakePhase::Read,
        intake.link == Link::Usb || bytes.len() > 0,
    ensures
        ({
            let (i, q) = intake_step(intake, queue, IntakeEvent::Packet { bytes });
            &&& q + i.backlog == queue + bytes
            &&& q.len() >= queue.len()
            &&& i.backlog.len() > 0 ==> q.len() >= 4096
            &&& q.len() > queue.len() ==> q.len() <= 4096
            &&& i.link == intake.link
            &&& i.backlog.len() == 0 ==> i.phase == IntakePhase::Read
            &&& i.backlog.len() > 0 ==> i.phase == IntakePhase::WaitRoom
        }),
{
    let (i, q) = intake_step(intake, queue, IntakeEvent::Packet { bytes });
    assert(q + i.backlog =~= queue + bytes);
}

/// Room in the queue lets an intake send on what it holds back, without losing,
/// repeating or reordering a byte, and for as long as there is room. The intake
/// goes on to read once it holds nothing back, and it does not end.
pub proof fn law_what_is_held_back_is_sent_on(intake: IntakeState, queue: Seq<u8>)
    requires
        intake.phase == IntakePhase::WaitRoom,
    ensures
        ({
            let (i, q) = intake_step(intake, queue, IntakeEvent::Room);
            &&& q + i.backlog == queue + intake.backlog
            &&& q.len() >= queue.len()
            &&& i.backlog.len() > 0 ==> q.len() >= 4096
            &&& q.len() > queue.len() ==> q.len() <= 4096
            &&& i.link == intake.link
            &&& i.backlog.len() == 0 ==> i.phase == IntakePhase::Read
            &&& i.backlog.len() > 0 ==> i.phase == IntakePhase::WaitRoom
        }),
{
    let (i, q) = intake_step(intake, queue, IntakeEvent::Room);
    assert(q + i.backlog =~= queue + intake.backlog);
}

/// It does not matter how the bytes of a link are divided into packets: two
/// packets in a row do what one packet with the bytes of both does, where the
/// queue has room for the first.
pub proof fn law_packets_add_up(
    intake: IntakeState,
    queue: Seq<u8>,
    first: Seq<u8>,
    second: Seq<u8>,
)
    requires
        intake.phase == IntakePhase::Read,
        intake.link == Link::Usb || (first.len() > 0 && second.len() > 0),
        queue.len() + first.len() <= 4096,
    ensures
        ({
            let (i, q) = intake_step(intake, queue, IntakeEvent::Packet { bytes: first });
            intake_step(i, q, IntakeEvent::Packet { bytes: second }) == intake_step(
                intake,
                queue,
                (IntakeEvent::Packet { bytes: first + second }),
            )
        }),
{
    let (i, q) = intake_step(intake, queue, IntakeEvent::Packet { bytes: first });
    let apart = intake_step(i, q, IntakeEvent::Packet { bytes: second });
    let whole = intake_step(intake, queue, IntakeEvent::Packet { bytes: first + second });
    assert(apart.0.backlog =~= whole.0.backlog);
    assert(apart.1 =~= whole.1);
}

/// An intake on a connection ends by an empty packet or a failure while it
/// reads, and by nothing else. An intake on a USB endpoint never ends; it waits
/// for the endpoint again after a failure while it reads, and after nothing
/// else. Either way it keeps what it holds, and nothing is added to the queue.
pub proof fn law_an_intake_ends_only_with_its_link(
    intake: IntakeState,
    queue: Seq<u8>,
    event: IntakeEvent,
)
    requires
        intake.phase != IntakePhase::Closed,
    ensures
        ({
            let (i, q) = intake_step(intake, queue, event);
            let reads = intake.phase == IntakePhase::Read;
            let empty = event matches IntakeEvent::Packet { bytes } && bytes.len() == 0;
            &&& i.phase == IntakePhase::Closed <==> intake.link == Link::Tcp && reads && (empty
                || event is Failed)
            &&& intake.phase != IntakePhase::WaitLink ==> (i.phase == IntakePhase::WaitLink <==>
                intake.link == Link::Usb && reads && event is Failed)
            &&& i.link == intake.link
            &&& i.phase == IntakePhase::Closed || event is Failed ==> q == queue && i.backlog
                == intake.backlog
        }),
{
}

/// An intake that waits for its endpoint reads once the endpoint is enabled,
/// and waits on through anything else. An event that an intake does not wait
/// for changes neither the intake nor the queue.
pub proof fn law_an_intake_does_one_thing_at_a_time(
    intake: IntakeState,
    queue: Seq<u8>,
    event: IntakeEvent,
)
    ensures
        ({
            let (i, q) = intake_step(intake, queue, event);
            &&& event is Enabled ==> q == queue && i.link == intake.link && i.backlog
                == intake.backlog
            &&& event is Enabled && intake.phase == IntakePhase::WaitLink ==> i.phase
                == IntakePhase::Read
            &&& intake.phase == IntakePhase::WaitLink && !(event is Enabled) ==> i == intake && q
                == queue
            &&& intake.phase == IntakePhase::Read && (event is Enabled || event is Room) ==> i
                == intake && q == queue
            &&& intake.phase == IntakePhase::WaitRoom && !(event is Room) ==> i == intake && q
                == queue
            &&& intake.phase == IntakePhase::Closed ==> i == intake && q == queue
        }),
{
}

/// An intake that reads takes all bytes of a packet, whatever their number and
/// content; no other event brings a byte, and an intake that does not read
/// takes none.
pub proof fn law_a_packet_is_read_whole(phase: IntakePhase, bytes: Seq<u8>, other: IntakeEvent)
    requires
        !(other is Packet),
    ensures
        phase == IntakePhase::Read ==> bytes_read(phase, IntakeEvent::Packet { bytes }) == bytes,
        phase != IntakePhase::Read ==> bytes_read(phase, IntakeEvent::Packet { bytes }).len() == 0,
        bytes_read(phase, other).len() == 0,
{
}

/// A publishing intake is never held up: packets leave it as it is, and all
/// other events do to it what they do to an intake with a queue.
pub proof fn law_a_publishing_intake_is_never_held_up(
    intake: IntakeState,
    queue: Seq<u8>,
    bytes: Seq<u8>,
    event: IntakeEvent,
)
    requires
        event is Enabled || event is Failed,
    ensures
        publishing_step(intake, IntakeEvent::Packet { bytes }) == intake,
        publishing_step(intake, IntakeEvent::Room) == intake,
        intake_step(intake, queue, event) == (publishing_step(intake, event), queue),
        intake.phase == IntakePhase::WaitLink ==> publishing_step(
            intake,
            IntakeEvent::Enabled,
        ).phase == IntakePhase::Read,
        intake.phase == IntakePhase::Read && intake.link == Link::Usb ==> publishing_step(
            intake,
            IntakeEvent::Failed,
        ).phase == IntakePhase::WaitLink,
{
}

/// The next packet of an outlet and what is left in the queue are together what
/// was in the queue. The packet has at least one byte, stays within what it is
/// asked to carry and has room for, and leaves bytes behind only where it is
/// full. Nothing happens while the queue is empty.
pub proof fn law_a_pull_takes_the_front_of_the_queue(outlet: OutletState, queue: Seq<u8>)
    requires
        outlet.phase == OutletPhase::Fill,
    ensures
        ({
            let (o, q) = outlet_step(outlet, queue, OutletEvent::Pull);
            &&& queue.len() == 0 ==> o == outlet && q == queue
            &&& queue.len() > 0 ==> {
                &&& o.packet + q == queue
                &&& o.packet.len() > 0
                &&& o.packet.len() > 1 ==> o.packet.len() <= outlet.max_len && o.packet.len()
                    <= outlet.capacity
                &&& q.len() > 0 ==> o.packet.len() >= outlet.max_len || o.packet.len()
                    >= outlet.capacity
                &&& o.phase == OutletPhase::Write
                &&& o.link == outlet.link
                &&& o.max_len == outlet.max_len
                &&& o.capacity == outlet.capacity
            }
        }),
{
    let (o, q) = outlet_step(outlet, queue, OutletEvent::Pull);
    if queue.len() > 0 {
        assert(o.packet + q =~= queue);
    }
}

/// Once a packet was handed over, the outlet holds it no longer, whatever it
/// was and whether or not it was written. A connection then goes on exactly
/// where the packet was written; a USB endpoint is waited for either way.
pub proof fn law_an_outlet_goes_on_after_a_packet(outlet: OutletState, queue: Seq<u8>, ok: bool)
    requires
        outlet.phase == OutletPhase::Write,
    ensures
        ({
            let (o, q) = outlet_step(outlet, queue, OutletEvent::Written { ok });
            &&& q == queue
            &&& o.packet.len() == 0
            &&& outlet.link == Link::Usb ==> o.phase == OutletPhase::WaitLink
            &&& outlet.link == Link::Tcp && ok ==> o.phase == OutletPhase::Fill
            &&& outlet.link == Link::Tcp && !ok ==> o.phase == OutletPhase::Closed
            &&& o.link == outlet.link
            &&& o.max_len == outlet.max_len
            &&& o.capacity == outlet.capacity
        }),
{
}

/// An outlet on a connection ends by a packet that could not be written, and by
/// nothing else. An outlet on a USB endpoint never ends.
pub proof fn law_an_outlet_ends_only_by_a_failed_write(
    outlet: OutletState,
    queue: Seq<u8>,
    event: OutletEvent,
)
    requires
        outlet.phase != OutletPhase::Closed,
    ensures
        outlet_step(outlet, queue, event).0.phase == OutletPhase::Closed <==> outlet.link
            == Link::Tcp && outlet.phase == OutletPhase::Write && event == (OutletEvent::Written {
            ok: false,
        }),
{
}

/// An outlet that waits for its endpoint drains its queue once the endpoint is
/// enabled. An event that an outlet does not wait for changes neither the
/// outlet nor the queue.
pub proof fn law_an_outlet_does_one_thing_at_a_time(
    outlet: OutletState,
    queue: Seq<u8>,
    event: OutletEvent,
)
    ensures
        ({
            let (o, q) = outlet_step(outlet, queue, event);
            &&& event is Enabled ==> q == queue && o.link == outlet.link && o.packet
                == outlet.packet && o.max_len == outlet.max_len && o.capacity == outlet.capacity
            &&& event is Enabled && outlet.phase == OutletPhase::WaitLink ==> o.phase
                == OutletPhase::Fill
            &&& outlet.phase == OutletPhase::WaitLink && !(event is Enabled) ==> o == outlet && q
                == queue
            &&& outlet.phase == OutletPhase::Fill && !(event is Pull) ==> o == outlet && q == queue
            &&& outlet.phase == OutletPhase::Write && !(event is Written) ==> o == outlet && q
                == queue
            &&& outlet.phase == OutletPhase::Closed ==> o == outlet && q == queue
        }),
{
}

/// A connection is drained packet by packet: after a packet that was written
/// the next one takes up where it ended, for as long as bytes wait.
pub proof fn law_packets_follow_each_other(outlet: OutletState, queue: Seq<u8>)
    requires
        outlet.phase == OutletPhase::Fill,
        outlet.link == Link::Tcp,
        queue.len() > 0,
    ensures
        ({
            let (first, q1) = outlet_step(outlet, queue, OutletEvent::Pull);
            let (between, q2) = outlet_step(first, q1, OutletEvent::Written { ok: true });
            let (second, q3) = outlet_step(between, q2, OutletEvent::Pull);
            &&& q1.len() > 0 ==> first.packet + second.packet + q3 == queue && second.phase
                == OutletPhase::Write && second.packet.len() > 0
            &&& q1.len() == 0 ==> first.packet == queue && second.phase == OutletPhase::Fill && q3
                == q1
        }),
{
    let (first, q1) = outlet_step(outlet, queue, OutletEvent::Pull);
    let (between, q2) = outlet_step(first, q1, OutletEvent::Written { ok: true });
    let (second, q3) = outlet_step(between, q2, OutletEvent::Pull);
    if q1.len() > 0 {
        assert(first.packet + second.packet + q3 =~= queue);
    } else {
        assert(first.packet =~= queue);
    }
}

/// What an intake reads is what the outlet behind the queue is to write: on an
/// empty queue, a packet that fits into one of the outlet's packets comes out as
/// it went in.
pub proof fn law_a_packet_comes_out_as_it_went_in(
    intake: IntakeState,
    outlet: OutletState,
    bytes: Seq<u8>,
)
    requires
        intake.phase == IntakePhase::Read,
        outlet.phase == OutletPhase::Fill,
        0 < bytes.len() <= 4096,
        bytes.len() <= outlet.max_len,
        bytes.len() <= outlet.capacity,
    ensures
        ({
            let (i, q) = intake_step(intake, Seq::empty(), IntakeEvent::Packet { bytes });
            let (o, rest) = outlet_step(outlet, q, OutletEvent::Pull);
            &&& o.packet == bytes
            &&& o.phase == OutletPhase::Write
            &&& rest.len() == 0
            &&& i.phase == IntakePhase::Read
        }),
{
    let (i, q) = intake_step(intake, Seq::empty(), IntakeEvent::Packet { bytes });
    let (o, rest) = outlet_step(outlet, q, OutletEvent::Pull);
    assert(q =~= bytes);
    assert(o.packet =~= bytes);
}

/// A new half holds nothing. On a USB endpoint it waits for the endpoint first;
/// on a connection it starts at once.
pub proof fn law_new_halves_start_empty(link: Link, max_len: nat, capacity: nat)
    ensures
        ({
            let i = new_intake(link);
            let o = new_outlet(link, max_len, capacity);
            &&& i.link == link && o.link == link
            &&& i.backlog.len() == 0 && o.packet.len() == 0
            &&& o.max_len == max_len && o.capacity == capacity
            &&& link == Link::Usb ==> i.phase == IntakePhase::WaitLink && o.phase
                == OutletPhase::WaitLink
            &&& link == Link::Tcp ==> i.phase == IntakePhase::Read && o.phase == OutletPhase::Fill
        }),
{
}

/// How many bytes each link carries at once. The serial port is never sent a
/// full packet.
pub proof fn law_packet_sizes()
    ensures
        DEBUG_ENDPOINT_MAX_PACKET_SIZE == 512,
        DEBUG_TRANSACTION_SIZE == 8,
        ACM_PACKET_SIZE == 64,
        ACM_TX_PACKET_SIZE == 63,
        ACM_TX_PACKET_SIZE < ACM_PACKET_SIZE,
        TCP_IO_CHUNK == 1024,
{
}

} // verus!

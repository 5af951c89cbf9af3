//! What holds of the bridges as a whole, from what one side reads to what the
//! other side is written, over all the clients that are served.

use vstd::prelude::*;

use crate::bridge::{
    bytes_read, new_intake, new_outlet, outlet_step, publishing_step, IntakeEvent, IntakePhase,
    IntakeState, Link, OutletEvent, OutletState,
};
use crate::fanout::{newest, Reader};
use crate::laws::{
    all_bytes, already_passed, bytes_from, hands_over_once, keeps_each_order, keeps_every_byte,
    lemma_concat, lemma_handed_over_from, lemma_hands_over_once, lemma_hands_over_once_reconnected,
    lemma_hands_over_once_start, lemma_intake_step, lemma_marked, lemma_merge_start,
    lemma_merge_step, lemma_occurs_in_itself, lemma_occurs_in_longer, lemma_occurs_with_same_end,
    lemma_occurs_without_end, lemma_one_way_step, lemma_outlet_step, lemma_packet_fits,
    lemma_read_after, lemma_share_step, lemma_share_take, merge_start, merge_step, no_writes,
    occurs_in_order, one_way_start, one_way_step, packet_fits, read_after, share_inv, share_start,
    share_step, writes_step, FanoutEvent, Merge, MergeEvent, OneWay, OneWayEvent, Share, Side, Writes,
};
use crate::queue::QUEUE_DEPTH;
use crate::server::{in_service, ServerEvent, ServerPhase};
use crate::session::{serving, tcp_intake_step, tcp_outlet_step, tcp_server_step, TcpState};

verus! {

/// The console output from the device under test to both readers, with what
/// went through so far.
pub struct Console {
    /// The half that reads from the device under test.
    pub intake: IntakeState,
    /// All bytes that it has read.
    pub read: Seq<u8>,
    /// The share of the USB serial port.
    pub acm: Share,
    /// The share of the TCP side.
    pub tcp: Share,
    /// The half that writes to the USB serial port.
    pub acm_outlet: OutletState,
    /// The half that writes to the TCP client.
    pub tcp_outlet: OutletState,
    /// What the first of these halves has done with its packets.
    pub acm_writes: Writes,
    /// What the second of these halves has done with its packets.
    pub tcp_writes: Writes,
}

/// Something that happens to the console output.
pub enum ConsoleEvent {
    /// An event of the half that reads.
    Intake(IntakeEvent),
    /// An event of a reader's half.
    Outlet(Reader, OutletEvent),
}

/// A console that nothing went through yet.
pub open spec fn console_start() -> Console {
    Console {
        intake: new_intake(Link::Usb),
        read: Seq::empty(),
        acm: share_start(),
        tcp: share_start(),
        acm_outlet: new_outlet(Link::Usb, 63, 64),
        tcp_outlet: new_outlet(Link::Tcp, 1024, 1024),
        acm_writes: no_writes(),
        tcp_writes: no_writes(),
    }
}

/// A reader's share after an event of the outlet that drains it.
pub open spec fn drained(share: Share, outlet: OutletState, event: OutletEvent) -> Share {
    let unread = outlet_step(outlet, share.unread, event).1;
    Share {
        unread,
        taken: share.taken + share.unread.take(share.unread.len() - unread.len()),
        ..share
    }
}

/// The console after an event.
pub open spec fn console_step(console: Console, event: ConsoleEvent) -> Console {
    match event {
        ConsoleEvent::Intake(event) => {
            let bytes = bytes_read(console.intake.phase, event);
            Console {
                intake: publishing_step(console.intake, event),
                read: read_after(console.read, console.intake.phase, event),
                acm: share_step(console.acm, Reader::Acm, FanoutEvent::Publish(bytes)),
                tcp: share_step(console.tcp, Reader::Tcp, FanoutEvent::Publish(bytes)),
                ..console
            }
        },
        ConsoleEvent::Outlet(Reader::Acm, event) => Console {
            acm: drained(console.acm, console.acm_outlet, event),
            acm_outlet: outlet_step(console.acm_outlet, console.acm.unread, event).0,
            acm_writes: writes_step(console.acm_writes, console.acm_outlet, event),
            ..console
        },
        ConsoleEvent::Outlet(Reader::Tcp, event) => Console {
            tcp: drained(console.tcp, console.tcp_outlet, event),
            tcp_outlet: outlet_step(console.tcp_outlet, console.tcp.unread, event).0,
            tcp_writes: writes_step(console.tcp_writes, console.tcp_outlet, event),
            ..console
        },
    }
}

/// What a console keeps, whatever happens to it.
pub open spec fn console_inv(console: Console) -> bool {
    &&& share_inv(console.acm)
    &&& share_inv(console.tcp)
    &&& console.acm.published == console.read
    &&& console.tcp.published == console.read
    &&& console.intake.link == Link::Usb
    &&& console.intake.backlog.len() == 0
    &&& console.intake.phase == IntakePhase::WaitLink || console.intake.phase == IntakePhase::Read
    &&& packet_fits(console.acm_outlet)
    &&& console.acm_outlet.max_len == 63 && console.acm_outlet.capacity == 64
    &&& packet_fits(console.tcp_outlet)
    &&& console.tcp_outlet.max_len == 1024 && console.tcp_outlet.capacity == 1024
    &&& console.acm_outlet.link == Link::Usb
    &&& console.tcp_outlet.link == Link::Tcp
    &&& hands_over_once(console.acm_writes, console.acm_outlet, console.acm.taken)
    &&& hands_over_once(console.tcp_writes, console.tcp_outlet, console.tcp.taken)
}

/// An outlet's event keeps what the share that it drains keeps.
proof fn lemma_drained(share: Share, outlet: OutletState, event: OutletEvent)
    requires
        share_inv(share),
    ensures
        share_inv(drained(share, outlet, event)),
{
    let after = drained(share, outlet, event);
    let n = share.unread.len() - after.unread.len();
    lemma_outlet_step(outlet, share.unread, event);
    assert(after.unread =~= share.unread.skip(n));
    lemma_share_take(share, after, n);
}

/// No event breaks what a console keeps.
proof fn lemma_console_step(before: Console, event: ConsoleEvent)
    requires
        console_inv(before),
    ensures
        console_inv(console_step(before, event)),
{
    match event {
        ConsoleEvent::Intake(event) => {
            let bytes = bytes_read(before.intake.phase, event);
            lemma_read_after(before.read, before.intake.phase, event);
            lemma_share_step(before.acm, Reader::Acm, FanoutEvent::Publish(bytes));
            lemma_share_step(before.tcp, Reader::Tcp, FanoutEvent::Publish(bytes));
        },
        ConsoleEvent::Outlet(Reader::Acm, event) => {
            lemma_drained(before.acm, before.acm_outlet, event);
            lemma_packet_fits(before.acm_outlet, before.acm.unread, event);
            lemma_hands_over_once(
                before.acm_writes,
                before.acm_outlet,
                before.acm.taken,
                before.acm.unread,
                event,
            );
        },
        ConsoleEvent::Outlet(Reader::Tcp, event) => {
            lemma_drained(before.tcp, before.tcp_outlet, event);
            lemma_packet_fits(before.tcp_outlet, before.tcp.unread, event);
            lemma_hands_over_once(
                before.tcp_writes,
                before.tcp_outlet,
                before.tcp.taken,
                before.tcp.unread,
                event,
            );
        },
    }
}

/// A new console keeps what it has to.
proof fn lemma_console_start()
    ensures
        console_inv(console_start()),
{
    lemma_hands_over_once_start(console_start().acm_outlet);
    lemma_hands_over_once_start(console_start().tcp_outlet);
    let start = share_start();
    assert(start.published =~= already_passed(start) + start.unread);
    assert(start.taken =~= already_passed(start));
}

/// What the server has seen and done so far.
pub struct Service {
    /// The link was seen up.
    pub link_seen: bool,
    /// The network was configured.
    pub configured: bool,
    /// How many clients were accepted.
    pub accepted: int,
    /// How many sockets were aborted.
    pub aborted: int,
}

/// What a new server has seen and done.
pub open spec fn service_start() -> Service {
    Service { link_seen: false, configured: false, accepted: 0, aborted: 0 }
}

/// What the server has seen and done after an event.
pub open spec fn service_step(service: Service, server: ServerPhase, event: ServerEvent) -> Service {
    match event {
        ServerEvent::Link { up } => Service {
            link_seen: service.link_seen || (up && server == ServerPhase::CheckLink),
            ..service
        },
        ServerEvent::Configured => Service {
            configured: service.configured || server == ServerPhase::WaitConfig,
            ..service
        },
        ServerEvent::Accepted { ok } => if ok && server == ServerPhase::Accept {
            Service { accepted: service.accepted + 1, ..service }
        } else {
            service
        },
        ServerEvent::Aborted => if server == ServerPhase::Abort {
            Service { aborted: service.aborted + 1, ..service }
        } else {
            service
        },
        _ => service,
    }
}

/// Whether a server in this phase has a client's socket.
pub open spec fn has_client(server: ServerPhase) -> bool {
    server == ServerPhase::Serve || server == ServerPhase::Abort
}

/// Clients are accepted only once the link was up and, after that, the network
/// was configured, and every client's socket is aborted before the next client
/// is accepted.
pub open spec fn service_inv(service: Service, server: ServerPhase) -> bool {
    &&& server == ServerPhase::WaitConfig ==> service.link_seen
    &&& service.configured ==> service.link_seen
    &&& in_service(server) ==> service.configured
    &&& service.accepted == service.aborted + (if has_client(server) {
        1int
    } else {
        0int
    })
}

/// The bridge between the device under test and the TCP side alone.
pub struct TcpBridge {
    /// From the device under test to the client.
    pub down: OneWay,
    /// From the client to the device under test.
    pub up: OneWay,
    /// Where the server stands.
    pub server: ServerPhase,
    /// What the server has seen and done.
    pub service: Service,
    /// All bytes that clients sent.
    pub brought: Seq<u8>,
}

/// Something that happens to a bridge with a TCP side.
pub enum TcpBridgeEvent {
    /// An event of the half that reads from the device under test.
    DutIn(IntakeEvent),
    /// An event of the half that writes to the device under test.
    DutOut(OutletEvent),
    /// An event of the half that reads from the client.
    TcpIn(IntakeEvent),
    /// An event of the half that writes to the client.
    TcpOut(OutletEvent),
    /// An event of the server.
    Server(ServerEvent),
}

/// A bridge that nothing went through yet.
pub open spec fn tcp_bridge_start() -> TcpBridge {
    TcpBridge {
        down: one_way_start(Link::Usb, Link::Tcp, 1024, 1024),
        up: one_way_start(Link::Tcp, Link::Usb, 8, 8),
        server: ServerPhase::CheckLink,
        service: service_start(),
        brought: Seq::empty(),
    }
}

/// The TCP side of a bridge.
pub open spec fn tcp_of(bridge: TcpBridge) -> TcpState {
    TcpState { server: bridge.server, intake: bridge.up.intake, outlet: bridge.down.outlet }
}

/// A bridge after an event.
pub open spec fn tcp_bridge_step(bridge: TcpBridge, event: TcpBridgeEvent) -> TcpBridge {
    match event {
        TcpBridgeEvent::DutIn(event) => TcpBridge {
            down: one_way_step(bridge.down, OneWayEvent::Intake(event)),
            ..bridge
        },
        TcpBridgeEvent::DutOut(event) => TcpBridge {
            up: one_way_step(bridge.up, OneWayEvent::Outlet(event)),
            ..bridge
        },
        TcpBridgeEvent::TcpIn(event) => if serving(tcp_of(bridge)) {
            TcpBridge {
                up: one_way_step(bridge.up, OneWayEvent::Intake(event)),
                brought: read_after(bridge.brought, bridge.up.intake.phase, event),
                ..bridge
            }
        } else {
            bridge
        },
        TcpBridgeEvent::TcpOut(event) => if serving(tcp_of(bridge)) {
            TcpBridge {
                down: one_way_step(bridge.down, OneWayEvent::Outlet(event)),
                ..bridge
            }
        } else {
            bridge
        },
        TcpBridgeEvent::Server(event) => {
            let server = tcp_server_step(tcp_of(bridge), event).server;
            let service = service_step(bridge.service, bridge.server, event);
            if bridge.server == ServerPhase::Accept && server == ServerPhase::Serve {
                TcpBridge {
                    down: one_way_step(bridge.down, OneWayEvent::Reconnect),
                    up: one_way_step(bridge.up, OneWayEvent::Reconnect),
                    server,
                    service,
                    ..bridge
                }
            } else {
                TcpBridge { server, service, ..bridge }
            }
        },
    }
}

/// A bridge after a series of events.
pub open spec fn tcp_bridge_run(bridge: TcpBridge, events: Seq<TcpBridgeEvent>) -> TcpBridge
    decreases events.len(),
{
    if events.len() == 0 {
        bridge
    } else {
        tcp_bridge_step(tcp_bridge_run(bridge, events.drop_last()), events.last())
    }
}

/// What a bridge with a TCP side keeps, whatever happens to it.
pub open spec fn tcp_bridge_inv(bridge: TcpBridge) -> bool {
    &&& keeps_every_byte(bridge.down)
    &&& keeps_every_byte(bridge.up)
    &&& occurs_in_order(bridge.up.read, bridge.brought)
    &&& service_inv(bridge.service, bridge.server)
    &&& bridge.down.intake.link == Link::Usb
    &&& bridge.up.intake.link == Link::Tcp
    &&& packet_fits(bridge.down.outlet)
    &&& bridge.down.outlet.link == Link::Tcp
    &&& bridge.down.outlet.max_len == 1024 && bridge.down.outlet.capacity == 1024
    &&& packet_fits(bridge.up.outlet)
    &&& bridge.up.outlet.link == Link::Usb
    &&& bridge.up.outlet.max_len == 8 && bridge.up.outlet.capacity == 8
    &&& hands_over_once(bridge.down.writes, bridge.down.outlet, bridge.down.packed)
    &&& hands_over_once(bridge.up.writes, bridge.up.outlet, bridge.up.packed)
}

/// No event breaks what a bridge with a TCP side keeps.
#[verifier::spinoff_prover]
proof fn lemma_tcp_bridge_step(before: TcpBridge, event: TcpBridgeEvent)
    requires
        tcp_bridge_inv(before),
    ensures
        tcp_bridge_inv(tcp_bridge_step(before, event)),
{
    match event {
        TcpBridgeEvent::DutIn(event) => {
            lemma_one_way_step(before.down, OneWayEvent::Intake(event));
        },
        TcpBridgeEvent::DutOut(event) => {
            lemma_one_way_step(before.up, OneWayEvent::Outlet(event));
            lemma_packet_fits(before.up.outlet, before.up.queue, event);
            lemma_hands_over_once(
                before.up.writes,
                before.up.outlet,
                before.up.packed,
                before.up.queue,
                event,
            );
        },
        TcpBridgeEvent::TcpIn(event) => {
            lemma_one_way_step(before.up, OneWayEvent::Intake(event));
            lemma_read_after(before.up.read, before.up.intake.phase, event);
            lemma_read_after(before.brought, before.up.intake.phase, event);
            lemma_occurs_with_same_end(
                before.up.read,
                before.brought,
                bytes_read(before.up.intake.phase, event),
            );
        },
        TcpBridgeEvent::TcpOut(event) => {
            lemma_one_way_step(before.down, OneWayEvent::Outlet(event));
            lemma_packet_fits(before.down.outlet, before.down.queue, event);
            lemma_hands_over_once(
                before.down.writes,
                before.down.outlet,
                before.down.packed,
                before.down.queue,
                event,
            );
        },
        TcpBridgeEvent::Server(event) => {
            lemma_one_way_step(before.down, OneWayEvent::Reconnect);
            lemma_one_way_step(before.up, OneWayEvent::Reconnect);
            lemma_hands_over_once_reconnected(
                before.down.writes,
                before.down.outlet,
                before.down.packed,
            );
            lemma_occurs_without_end(
                before.up.read,
                before.brought,
                before.up.read.len() - before.up.intake.backlog.len(),
            );
        },
    }
}

/// Every series of events keeps what a bridge with a TCP side keeps.
proof fn lemma_tcp_bridge_run(events: Seq<TcpBridgeEvent>)
    ensures
        tcp_bridge_inv(tcp_bridge_run(tcp_bridge_start(), events)),
    decreases events.len(),
{
    let start = tcp_bridge_start();
    if events.len() == 0 {
        assert(start.down.read =~= start.down.packed + start.down.queue
            + start.down.intake.backlog);
        assert(start.up.read =~= start.up.packed + start.up.queue + start.up.intake.backlog);
        lemma_hands_over_once_start(start.down.outlet);
        lemma_hands_over_once_start(start.up.outlet);
    } else {
        lemma_tcp_bridge_run(events.drop_last());
        lemma_tcp_bridge_step(tcp_bridge_run(start, events.drop_last()), events.last());
    }
}

/// The TCP side of a bridge moves as its parts do: by the steps of its server,
/// its intake and its outlet, on the bridge's own two queues.
pub proof fn law_tcp_bridge_moves_as_its_tcp_side(
    earlier: Seq<TcpBridgeEvent>,
    server_event: ServerEvent,
    intake_event: IntakeEvent,
    outlet_event: OutletEvent,
)
    ensures
        ({
            let b = tcp_bridge_run(tcp_bridge_start(), earlier);
            let served = tcp_bridge_step(b, TcpBridgeEvent::Server(server_event));
            let received = tcp_bridge_step(b, TcpBridgeEvent::TcpIn(intake_event));
            let sent = tcp_bridge_step(b, TcpBridgeEvent::TcpOut(outlet_event));
            &&& tcp_of(served) == tcp_server_step(tcp_of(b), server_event)
            &&& (tcp_of(received), received.up.queue) == tcp_intake_step(
                tcp_of(b),
                b.up.queue,
                intake_event,
            )
            &&& (tcp_of(sent), sent.down.queue) == tcp_outlet_step(
                tcp_of(b),
                b.down.queue,
                outlet_event,
            )
        }),
{
    lemma_tcp_bridge_run(earlier);
}

/// Over all clients together, a bridge with a TCP side loses, repeats and
/// reorders nothing. What it has read from the device under test is what it
/// has put into packets for its clients, then what is in the queue, then what
/// the intake still holds. What it has put into packets for the device under
/// test and what waits there are bytes that clients sent, in order; only what
/// was held back when a client left is missing.
pub proof fn law_clients_share_one_stream(events: Seq<TcpBridgeEvent>)
    ensures
        ({
            let b = tcp_bridge_run(tcp_bridge_start(), events);
            &&& b.down.read == b.down.packed + b.down.queue + b.down.intake.backlog
            &&& b.up.read == b.up.packed + b.up.queue + b.up.intake.backlog
            &&& occurs_in_order(b.up.packed + b.up.queue, b.brought)
            &&& b.down.queue.len() <= QUEUE_DEPTH
            &&& b.up.queue.len() <= QUEUE_DEPTH
            &&& b.down.outlet.packet.len() <= 1024
            &&& b.up.outlet.packet.len() <= 8
        }),
{
    lemma_tcp_bridge_run(events);
    let b = tcp_bridge_run(tcp_bridge_start(), events);
    let through = b.up.packed + b.up.queue;
    assert(b.up.read.take(through.len() as int) =~= through);
    lemma_occurs_without_end(b.up.read, b.brought, through.len() as int);
}

/// On a bridge with a TCP side every byte is handed over for writing once and
/// in order, and a packet whose write fails is not handed over again. What went
/// into packets for the device under test is what was handed over, then the
/// packet that is to be written. What was handed over for the clients is what
/// went into packets for them, without what was on its way when a client left.
/// What was written is a part of what was read or sent, in order.
pub proof fn law_tcp_bridge_hands_over_once(events: Seq<TcpBridgeEvent>)
    ensures
        ({
            let b = tcp_bridge_run(tcp_bridge_start(), events);
            &&& b.up.packed == b.up.writes.handed + b.up.outlet.packet
            &&& occurs_in_order(b.down.writes.handed + b.down.outlet.packet, b.down.packed)
            &&& occurs_in_order(b.up.writes.written, b.up.writes.handed)
            &&& occurs_in_order(b.down.writes.written, b.down.writes.handed)
            &&& occurs_in_order(b.up.writes.written, b.brought)
            &&& occurs_in_order(b.down.writes.written, b.down.read)
        }),
{
    lemma_tcp_bridge_run(events);
    let b = tcp_bridge_run(tcp_bridge_start(), events);
    assert(b.up.read.take(b.up.packed.len() as int) =~= b.up.packed);
    lemma_occurs_without_end(b.up.read, b.brought, b.up.packed.len() as int);
    lemma_handed_over_from(b.up.writes, b.up.outlet, b.up.packed, b.brought);
    lemma_occurs_in_itself(b.down.read);
    assert(b.down.read.take(b.down.packed.len() as int) =~= b.down.packed);
    lemma_occurs_without_end(b.down.read, b.down.read, b.down.packed.len() as int);
    lemma_handed_over_from(b.down.writes, b.down.outlet, b.down.packed, b.down.read);
}

/// No client is accepted before the link was up and the network configured, and
/// at most one client has a socket that is not aborted yet.
pub proof fn law_tcp_bridge_serves_one_client(events: Seq<TcpBridgeEvent>)
    ensures
        ({
            let b = tcp_bridge_run(tcp_bridge_start(), events);
            &&& in_service(b.server) ==> b.service.link_seen && b.service.configured
            &&& b.service.accepted == b.service.aborted + (if has_client(b.server) {
                1int
            } else {
                0int
            })
            &&& serving(tcp_of(b)) ==> b.service.accepted == b.service.aborted + 1
        }),
{
    lemma_tcp_bridge_run(events);
}

/// No client is served when any of the events happens.
pub open spec fn tcp_bridge_idle(bridge: TcpBridge, events: Seq<TcpBridgeEvent>) -> bool
    decreases events.len(),
{
    if events.len() == 0 {
        true
    } else {
        &&& tcp_bridge_idle(bridge, events.drop_last())
        &&& !serving(tcp_of(tcp_bridge_run(bridge, events.drop_last())))
    }
}

/// While no client is served, nothing is taken from the queue to the client
/// and nothing is sent into the queue to the device under test: what waits for
/// the next client is what waited when the last one left, in the same order,
/// with what the device under test wrote since behind it.
#[verifier::spinoff_prover]
pub proof fn law_tcp_bridge_is_quiet_between_clients(
    earlier: Seq<TcpBridgeEvent>,
    events: Seq<TcpBridgeEvent>,
)
    requires
        tcp_bridge_idle(tcp_bridge_run(tcp_bridge_start(), earlier), events),
    ensures
        ({
            let before = tcp_bridge_run(tcp_bridge_start(), earlier);
            let after = tcp_bridge_run(before, events);
            &&& after.down.packed == before.down.packed
            &&& before.down.queue.len() <= after.down.queue.len()
            &&& after.down.queue.take(before.down.queue.len() as int) == before.down.queue
            &&& after.brought == before.brought
            &&& after.up.packed + after.up.queue == before.up.packed + before.up.queue
        }),
    decreases events.len(),
{
    let before = tcp_bridge_run(tcp_bridge_start(), earlier);
    if events.len() == 0 {
        assert(before.down.queue.take(before.down.queue.len() as int) =~= before.down.queue);
    } else {
        law_tcp_bridge_is_quiet_between_clients(earlier, events.drop_last());
        let almost = tcp_bridge_run(before, events.drop_last());
        let after = tcp_bridge_run(before, events);
        lemma_tcp_bridge_from(earlier, events.drop_last());
        match events.last() {
            TcpBridgeEvent::DutIn(event) => {
                lemma_intake_step(almost.down.intake, almost.down.queue, event);
                assert(after.down.queue.take(before.down.queue.len() as int) =~= after.down.queue.take(
                    almost.down.queue.len() as int,
                ).take(before.down.queue.len() as int));
            },
            TcpBridgeEvent::DutOut(event) => {
                lemma_outlet_step(almost.up.outlet, almost.up.queue, event);
                let taken = almost.up.queue.take(almost.up.queue.len() - after.up.queue.len());
                lemma_concat(almost.up.packed, taken, after.up.queue);
            },
            _ => {},
        }
    }
}

/// What a bridge keeps, it keeps however the events are divided.
proof fn lemma_tcp_bridge_from(earlier: Seq<TcpBridgeEvent>, events: Seq<TcpBridgeEvent>)
    ensures
        tcp_bridge_inv(tcp_bridge_run(tcp_bridge_run(tcp_bridge_start(), earlier), events)),
    decreases events.len(),
{
    if events.len() == 0 {
        lemma_tcp_bridge_run(earlier);
    } else {
        lemma_tcp_bridge_from(earlier, events.drop_last());
        lemma_tcp_bridge_step(
            tcp_bridge_run(tcp_bridge_run(tcp_bridge_start(), earlier), events.drop_last()),
            events.last(),
        );
    }
}

/// The bridge between the device under test and both the USB serial port and
/// the TCP side.
pub struct FullBridge {
    /// From the device under test to both readers.
    pub console: Console,
    /// From both sides to the device under test.
    pub merge: Merge,
    /// Where the server stands.
    pub server: ServerPhase,
    /// What the server has seen and done.
    pub service: Service,
    /// All bytes that clients sent.
    pub brought: Seq<u8>,
}

/// Something that happens to the full bridge.
pub enum FullBridgeEvent {
    /// An event of the half that reads from the device under test.
    DutIn(IntakeEvent),
    /// An event of the half that writes to the device under test.
    DutOut(OutletEvent),
    /// An event of the half that reads from the USB serial port.
    AcmIn(IntakeEvent),
    /// An event of the half that writes to the USB serial port.
    AcmOut(OutletEvent),
    /// An event of the half that reads from the client.
    TcpIn(IntakeEvent),
    /// An event of the half that writes to the client.
    TcpOut(OutletEvent),
    /// An event of the server.
    Server(ServerEvent),
}

/// A full bridge that nothing went through yet.
pub open spec fn full_bridge_start() -> FullBridge {
    FullBridge {
        console: console_start(),
        merge: merge_start(8, 8),
        server: ServerPhase::CheckLink,
        service: service_start(),
        brought: Seq::empty(),
    }
}

/// The TCP side of a full bridge.
pub open spec fn full_tcp_of(bridge: FullBridge) -> TcpState {
    TcpState {
        server: bridge.server,
        intake: bridge.merge.tcp,
        outlet: bridge.console.tcp_outlet,
    }
}

/// A full bridge after an event.
pub open spec fn full_bridge_step(bridge: FullBridge, event: FullBridgeEvent) -> FullBridge {
    match event {
        FullBridgeEvent::DutIn(event) => FullBridge {
            console: console_step(bridge.console, ConsoleEvent::Intake(event)),
            ..bridge
        },
        FullBridgeEvent::DutOut(event) => FullBridge {
            merge: merge_step(bridge.merge, MergeEvent::Outlet(event)),
            ..bridge
        },
        FullBridgeEvent::AcmIn(event) => FullBridge {
            merge: merge_step(bridge.merge, MergeEvent::Intake(Side::Acm, event)),
            ..bridge
        },
        FullBridgeEvent::AcmOut(event) => FullBridge {
            console: console_step(bridge.console, ConsoleEvent::Outlet(Reader::Acm, event)),
            ..bridge
        },
        FullBridgeEvent::TcpIn(event) => if serving(full_tcp_of(bridge)) {
            FullBridge {
                merge: merge_step(bridge.merge, MergeEvent::Intake(Side::Tcp, event)),
                brought: read_after(bridge.brought, bridge.merge.tcp.phase, event),
                ..bridge
            }
        } else {
            bridge
        },
        FullBridgeEvent::TcpOut(event) => if serving(full_tcp_of(bridge)) {
            FullBridge {
                console: console_step(bridge.console, ConsoleEvent::Outlet(Reader::Tcp, event)),
                ..bridge
            }
        } else {
            bridge
        },
        FullBridgeEvent::Server(event) => {
            let tcp = tcp_server_step(full_tcp_of(bridge), event);
            let service = service_step(bridge.service, bridge.server, event);
            if bridge.server == ServerPhase::Accept && tcp.server == ServerPhase::Serve {
                FullBridge {
                    console: Console { tcp_outlet: tcp.outlet, ..bridge.console },
                    merge: merge_step(bridge.merge, MergeEvent::Reconnect),
                    server: tcp.server,
                    service,
                    ..bridge
                }
            } else {
                FullBridge { server: tcp.server, service, ..bridge }
            }
        },
    }
}

/// A full bridge after a series of events.
pub open spec fn full_bridge_run(bridge: FullBridge, events: Seq<FullBridgeEvent>) -> FullBridge
    decreases events.len(),
{
    if events.len() == 0 {
        bridge
    } else {
        full_bridge_step(full_bridge_run(bridge, events.drop_last()), events.last())
    }
}

/// What a full bridge keeps, whatever happens to it.
pub open spec fn full_bridge_inv(bridge: FullBridge) -> bool {
    &&& console_inv(bridge.console)
    &&& keeps_each_order(bridge.merge)
    &&& occurs_in_order(bridge.merge.tcp_read, bridge.brought)
    &&& service_inv(bridge.service, bridge.server)
    &&& bridge.merge.acm.link == Link::Usb
    &&& bridge.merge.tcp.link == Link::Tcp
    &&& packet_fits(bridge.merge.outlet)
    &&& bridge.merge.outlet.max_len == 8 && bridge.merge.outlet.capacity == 8
    &&& bridge.merge.outlet.link == Link::Usb
    &&& hands_over_once(bridge.merge.writes, bridge.merge.outlet, bridge.merge.packed)
}

/// No event of the server breaks what a full bridge keeps.
#[verifier::spinoff_prover]
proof fn lemma_full_bridge_server(before: FullBridge, event: ServerEvent)
    requires
        full_bridge_inv(before),
    ensures
        full_bridge_inv(full_bridge_step(before, FullBridgeEvent::Server(event))),
{
    let after = full_bridge_step(before, FullBridgeEvent::Server(event));
    lemma_merge_step(before.merge, MergeEvent::Reconnect);
    lemma_occurs_without_end(
        before.merge.tcp_read,
        before.brought,
        before.merge.tcp_read.len() - before.merge.tcp.backlog.len(),
    );
    lemma_hands_over_once_reconnected(
        before.console.tcp_writes,
        before.console.tcp_outlet,
        before.console.tcp.taken,
    );
    assert(service_inv(after.service, after.server));
    assert(keeps_each_order(after.merge));
    assert(console_inv(after.console));
}

/// No event of the half that reads from the client breaks what a full bridge
/// keeps.
#[verifier::spinoff_prover]
proof fn lemma_full_bridge_received(before: FullBridge, event: IntakeEvent)
    requires
        full_bridge_inv(before),
    ensures
        full_bridge_inv(full_bridge_step(before, FullBridgeEvent::TcpIn(event))),
{
    lemma_merge_step(before.merge, MergeEvent::Intake(Side::Tcp, event));
    lemma_read_after(before.merge.tcp_read, before.merge.tcp.phase, event);
    lemma_read_after(before.brought, before.merge.tcp.phase, event);
    lemma_occurs_with_same_end(
        before.merge.tcp_read,
        before.brought,
        bytes_read(before.merge.tcp.phase, event),
    );
}

/// No event breaks what a full bridge keeps.
#[verifier::spinoff_prover]
proof fn lemma_full_bridge_step(before: FullBridge, event: FullBridgeEvent)
    requires
        full_bridge_inv(before),
    ensures
        full_bridge_inv(full_bridge_step(before, event)),
{
    match event {
        FullBridgeEvent::DutIn(event) => {
            lemma_console_step(before.console, ConsoleEvent::Intake(event));
        },
        FullBridgeEvent::DutOut(event) => {
            lemma_merge_step(before.merge, MergeEvent::Outlet(event));
            lemma_packet_fits(before.merge.outlet, before.merge.queue, event);
            lemma_hands_over_once(
                before.merge.writes,
                before.merge.outlet,
                before.merge.packed,
                before.merge.queue,
                event,
            );
        },
        FullBridgeEvent::AcmIn(event) => {
            lemma_merge_step(before.merge, MergeEvent::Intake(Side::Acm, event));
        },
        FullBridgeEvent::AcmOut(event) => {
            lemma_console_step(before.console, ConsoleEvent::Outlet(Reader::Acm, event));
        },
        FullBridgeEvent::TcpIn(event) => {
            lemma_full_bridge_received(before, event);
        },
        FullBridgeEvent::TcpOut(event) => {
            lemma_console_step(before.console, ConsoleEvent::Outlet(Reader::Tcp, event));
        },
        FullBridgeEvent::Server(event) => {
            lemma_full_bridge_server(before, event);
        },
    }
}

/// What a full bridge keeps, it keeps however the events are divided.
proof fn lemma_full_bridge_from(earlier: Seq<FullBridgeEvent>, events: Seq<FullBridgeEvent>)
    ensures
        full_bridge_inv(full_bridge_run(full_bridge_run(full_bridge_start(), earlier), events)),
    decreases earlier.len() + events.len(),
{
    let start = full_bridge_start();
    if events.len() > 0 {
        lemma_full_bridge_from(earlier, events.drop_last());
        lemma_full_bridge_step(
            full_bridge_run(full_bridge_run(start, earlier), events.drop_last()),
            events.last(),
        );
    } else if earlier.len() > 0 {
        lemma_full_bridge_from(earlier.drop_last(), events);
        lemma_full_bridge_step(full_bridge_run(start, earlier.drop_last()), earlier.last());
    } else {
        lemma_console_start();
        lemma_merge_start(8, 8);
        lemma_hands_over_once_start(start.merge.outlet);
    }
}

/// Every series of events keeps what a full bridge keeps.
proof fn lemma_full_bridge_run(events: Seq<FullBridgeEvent>)
    ensures
        full_bridge_inv(full_bridge_run(full_bridge_start(), events)),
{
    lemma_full_bridge_from(events, Seq::empty());
}

/// The TCP side of a full bridge moves as its parts do: by the steps of its
/// server, its intake and its outlet, on the queue to the device under test and
/// on the TCP side's share of the console output.
pub proof fn law_full_bridge_moves_as_its_tcp_side(
    earlier: Seq<FullBridgeEvent>,
    server_event: ServerEvent,
    intake_event: IntakeEvent,
    outlet_event: OutletEvent,
)
    ensures
        ({
            let b = full_bridge_run(full_bridge_start(), earlier);
            let served = full_bridge_step(b, FullBridgeEvent::Server(server_event));
            let received = full_bridge_step(b, FullBridgeEvent::TcpIn(intake_event));
            let sent = full_bridge_step(b, FullBridgeEvent::TcpOut(outlet_event));
            &&& full_tcp_of(served) == tcp_server_step(full_tcp_of(b), server_event)
            &&& (full_tcp_of(received), received.merge.queue) == tcp_intake_step(
                full_tcp_of(b),
                b.merge.queue,
                intake_event,
            )
            &&& (full_tcp_of(sent), sent.console.tcp.unread) == tcp_outlet_step(
                full_tcp_of(b),
                b.console.tcp.unread,
                outlet_event,
            )
        }),
{
    lemma_full_bridge_run(earlier);
}

/// What one reader has been given of what was read from the device under test:
/// bytes of it, in order and none twice, each of them taken, lost or yet to be
/// read, and all of them where none was lost.
pub open spec fn follows(share: Share, read: Seq<u8>) -> bool {
    &&& occurs_in_order(share.taken, read)
    &&& share.lost >= 0
    &&& read.len() == share.taken.len() + share.lost + share.unread.len()
    &&& share.unread.len() <= QUEUE_DEPTH
    &&& share.lost == 0 ==> read == share.taken + share.unread
}

/// What the USB serial port and what the clients together are given is what
/// was read from the device under test, in order, and nothing else; a reader
/// that has lost nothing has been given all of it. The share of the TCP side is
/// one stream over all clients. Packets stay within their limits.
pub proof fn law_console_reaches_both_readers(events: Seq<FullBridgeEvent>)
    ensures
        ({
            let b = full_bridge_run(full_bridge_start(), events);
            &&& follows(b.console.acm, b.console.read)
            &&& follows(b.console.tcp, b.console.read)
            &&& b.console.acm_outlet.packet.len() <= 63
            &&& b.console.tcp_outlet.packet.len() <= 1024
        }),
{
    lemma_full_bridge_run(events);
    let console = full_bridge_run(full_bridge_start(), events).console;
    lemma_occurs_in_longer(console.acm.taken, already_passed(console.acm), console.acm.unread);
    lemma_occurs_in_longer(console.tcp.taken, already_passed(console.tcp), console.tcp.unread);
}

/// What is written to the device under test is a mix of what the USB serial
/// port and the clients sent, and nothing else. In it the bytes of the USB
/// serial port are complete, up to what its intake still holds, and in order;
/// those of the clients are in order, and only what was held back when a client
/// left is missing. Packets stay within the size of a debug transaction.
pub proof fn law_input_is_a_mix_of_both_sides(events: Seq<FullBridgeEvent>)
    ensures
        ({
            let b = full_bridge_run(full_bridge_start(), events);
            &&& b.merge.packed + b.merge.queue == all_bytes(b.merge.log)
            &&& b.merge.acm_read == bytes_from(b.merge.log, Side::Acm) + b.merge.acm.backlog
            &&& occurs_in_order(bytes_from(b.merge.log, Side::Tcp), b.brought)
            &&& b.merge.queue.len() <= QUEUE_DEPTH
            &&& b.merge.outlet.packet.len() <= 8
        }),
{
    lemma_full_bridge_run(events);
    let b = full_bridge_run(full_bridge_start(), events);
    let through = bytes_from(b.merge.log, Side::Tcp);
    assert(b.merge.tcp_read.take(through.len() as int) =~= through);
    lemma_occurs_without_end(b.merge.tcp_read, b.brought, through.len() as int);
}

/// On the full bridge every byte is handed over for writing once and in order,
/// and a packet whose write fails is not handed over again. What the USB serial
/// port has taken, and what went into packets for the device under test, is
/// what was handed over, then the packet that is to be written. What was handed
/// over for the clients is what they have taken, without what was on its way
/// when a client left. What was written to either reader is a part of what was
/// read from the device under test, in order.
pub proof fn law_full_bridge_hands_over_once(events: Seq<FullBridgeEvent>)
    ensures
        ({
            let b = full_bridge_run(full_bridge_start(), events);
            let c = b.console;
            &&& c.acm.taken == c.acm_writes.handed + c.acm_outlet.packet
            &&& occurs_in_order(c.tcp_writes.handed + c.tcp_outlet.packet, c.tcp.taken)
            &&& b.merge.packed == b.merge.writes.handed + b.merge.outlet.packet
            &&& occurs_in_order(c.acm_writes.written, c.acm_writes.handed)
            &&& occurs_in_order(c.tcp_writes.written, c.tcp_writes.handed)
            &&& occurs_in_order(b.merge.writes.written, b.merge.writes.handed)
            &&& occurs_in_order(c.acm_writes.written, c.read)
            &&& occurs_in_order(c.tcp_writes.written, c.read)
        }),
{
    lemma_full_bridge_run(events);
    law_console_reaches_both_readers(events);
    let c = full_bridge_run(full_bridge_start(), events).console;
    lemma_handed_over_from(c.acm_writes, c.acm_outlet, c.acm.taken, c.read);
    lemma_handed_over_from(c.tcp_writes, c.tcp_outlet, c.tcp.taken, c.read);
}

/// The event is one of the half that reads from the device under test.
pub open spec fn is_dut_in(event: FullBridgeEvent) -> bool {
    event is DutIn
}

/// Reading from the device under test never waits for a reader: it is ready to
/// read whenever the endpoint is enabled, and what it has read is the same as
/// if nothing else had happened.
pub proof fn law_readers_never_block_the_console(events: Seq<FullBridgeEvent>)
    ensures
        ({
            let all = full_bridge_run(full_bridge_start(), events).console;
            let alone = full_bridge_run(
                full_bridge_start(),
                events.filter(|event: FullBridgeEvent| is_dut_in(event)),
            ).console;
            &&& all.intake.phase == IntakePhase::WaitLink || all.intake.phase == IntakePhase::Read
            &&& all.intake == alone.intake
            &&& all.read == alone.read
        }),
    decreases events.len(),
{
    reveal(Seq::filter);
    lemma_full_bridge_run(events);
    let dut_in = |event: FullBridgeEvent| is_dut_in(event);
    if events.len() > 0 {
        law_readers_never_block_the_console(events.drop_last());
        let rest = events.drop_last().filter(dut_in);
        if dut_in(events.last()) {
            assert(rest.push(events.last()).drop_last() =~= rest);
        }
    }
}

/// No client is accepted before the link was up and the network configured, and
/// at most one client has a socket that is not aborted yet.
pub proof fn law_full_bridge_serves_one_client(events: Seq<FullBridgeEvent>)
    ensures
        ({
            let b = full_bridge_run(full_bridge_start(), events);
            &&& in_service(b.server) ==> b.service.link_seen && b.service.configured
            &&& b.service.accepted == b.service.aborted + (if has_client(b.server) {
                1int
            } else {
                0int
            })
            &&& serving(full_tcp_of(b)) ==> b.service.accepted == b.service.aborted + 1
        }),
{
    lemma_full_bridge_run(events);
}

/// No client is served when any of the events happens.
pub open spec fn full_bridge_idle(bridge: FullBridge, events: Seq<FullBridgeEvent>) -> bool
    decreases events.len(),
{
    if events.len() == 0 {
        true
    } else {
        &&& full_bridge_idle(bridge, events.drop_last())
        &&& !serving(full_tcp_of(full_bridge_run(bridge, events.drop_last())))
    }
}

/// While no client is served, nothing is taken from the TCP side's share of the
/// console output and nothing of the TCP side is sent to the device under test:
/// what the next client has to read is what the last one left, with what was
/// read from the device under test since behind it, as far as the channel holds
/// it.
#[verifier::spinoff_prover]
#[verifier::rlimit(30)]
pub proof fn law_full_bridge_is_quiet_between_clients(
    earlier: Seq<FullBridgeEvent>,
    events: Seq<FullBridgeEvent>,
)
    requires
        full_bridge_idle(full_bridge_run(full_bridge_start(), earlier), events),
    ensures
        ({
            let before = full_bridge_run(full_bridge_start(), earlier);
            let after = full_bridge_run(before, events);
            let since = after.console.read.skip(before.console.read.len() as int);
            &&& after.console.read == before.console.read + since
            &&& after.console.tcp.taken == before.console.tcp.taken
            &&& after.console.tcp.unread == newest(before.console.tcp.unread + since)
            &&& after.brought == before.brought
            &&& bytes_from(after.merge.log, Side::Tcp) == bytes_from(before.merge.log, Side::Tcp)
        }),
    decreases events.len(),
{
    let before = full_bridge_run(full_bridge_start(), earlier);
    let after = full_bridge_run(before, events);
    let since = after.console.read.skip(before.console.read.len() as int);
    lemma_full_bridge_from(earlier, Seq::empty());
    if events.len() == 0 {
        assert(since =~= Seq::empty());
        assert(before.console.tcp.unread + since =~= before.console.tcp.unread);
        assert(after.console.read =~= before.console.read + since);
    } else {
        law_full_bridge_is_quiet_between_clients(earlier, events.drop_last());
        let almost = full_bridge_run(before, events.drop_last());
        let soon = almost.console.read.skip(before.console.read.len() as int);
        lemma_full_bridge_from(earlier, events.drop_last());
        match events.last() {
            FullBridgeEvent::DutIn(event) => {
                let bytes = bytes_read(almost.console.intake.phase, event);
                lemma_read_after(almost.console.read, almost.console.intake.phase, event);
                assert(since =~= soon + bytes);
                lemma_concat(before.console.read, soon, bytes);
                lemma_newest(before.console.tcp.unread, soon, bytes);
            },
            FullBridgeEvent::AcmIn(event) => {
                let added = after.merge.queue.skip(almost.merge.queue.len() as int);
                lemma_marked(almost.merge.log, Side::Acm, added);
            },
            _ => {},
        }
    }
}

/// Keeping the newest bytes at each of two steps is keeping them once.
proof fn lemma_newest(unread: Seq<u8>, first: Seq<u8>, second: Seq<u8>)
    ensures
        newest(newest(unread + first) + second) == newest(unread + (first + second)),
{
    assert(newest(newest(unread + first) + second) =~= newest(unread + (first + second)));
}

/// Every packet of the device under test that the full bridge reads reaches both
/// readers whole: where a reader has room for it, all of its bytes wait there
/// behind what waited before, and otherwise as many of the last bytes as the
/// channel holds. Nothing else that the device under test does reaches them.
pub proof fn law_a_console_packet_reaches_both_readers(
    earlier: Seq<FullBridgeEvent>,
    bytes: Seq<u8>,
    other: IntakeEvent,
)
    requires
        !(other is Packet),
    ensures
        ({
            let b = full_bridge_run(full_bridge_start(), earlier).console;
            let packet = FullBridgeEvent::DutIn(IntakeEvent::Packet { bytes });
            let after = full_bridge_run(full_bridge_start(), earlier.push(packet)).console;
            let idle = full_bridge_run(
                full_bridge_start(),
                earlier.push(FullBridgeEvent::DutIn(other)),
            ).console;
            let acm = b.acm.unread + bytes;
            let tcp = b.tcp.unread + bytes;
            &&& b.intake.phase == IntakePhase::Read ==> {
                &&& after.read == b.read + bytes
                &&& after.intake.phase == IntakePhase::Read
                &&& acm.len() <= 4096 ==> after.acm.unread == acm
                &&& acm.len() > 4096 ==> after.acm.unread == acm.skip(acm.len() - 4096)
                &&& tcp.len() <= 4096 ==> after.tcp.unread == tcp
                &&& tcp.len() > 4096 ==> after.tcp.unread == tcp.skip(tcp.len() - 4096)
            }
            &&& b.intake.phase != IntakePhase::Read ==> {
                &&& after.read == b.read
                &&& after.acm.unread == b.acm.unread
                &&& after.tcp.unread == b.tcp.unread
            }
            &&& idle.read == b.read
            &&& idle.acm.unread == b.acm.unread
            &&& idle.tcp.unread == b.tcp.unread
        }),
{
    let b = full_bridge_run(full_bridge_start(), earlier).console;
    let packet = FullBridgeEvent::DutIn(IntakeEvent::Packet { bytes });
    lemma_full_bridge_run(earlier);
    assert(earlier.push(packet).drop_last() =~= earlier);
    assert(earlier.push(FullBridgeEvent::DutIn(other)).drop_last() =~= earlier);
    assert(b.acm.unread + Seq::empty() =~= b.acm.unread);
    assert(b.tcp.unread + Seq::empty() =~= b.tcp.unread);
}

} // verus!

//! The TCP side of a bridge: the server with the two halves of its session.
//!
//! The halves move bytes only while a client is served. The queues outlive the
//! sessions: a client goes on where the one before it stopped.

use vstd::prelude::*;

use crate::bridge::{
    intake_step, law_a_packet_is_carried_on_whole, law_a_pull_takes_the_front_of_the_queue,
    new_intake, new_outlet, outlet_step, tcp_intake, tcp_outlet, Intake, IntakeEvent, IntakePhase,
    IntakeState, Link, Outlet, OutletEvent, OutletPhase, OutletState, TCP_IO_CHUNK,
};
use crate::fanout::{DutOutput, Reader};
use crate::queue::ByteQueue;
use crate::server::{server_action, server_step, Server, ServerAction, ServerEvent, ServerPhase};

verus! {

/// The TCP side, as contracts speak of it.
#[verifier::ext_equal]
pub struct TcpState {
    /// Where the server stands.
    pub server: ServerPhase,
    /// The half that reads from the client.
    pub intake: IntakeState,
    /// The half that writes to the client.
    pub outlet: OutletState,
}

/// A TCP side that has yet to look for the link.
pub open spec fn new_tcp() -> TcpState {
    TcpState {
        server: ServerPhase::CheckLink,
        intake: new_intake(Link::Tcp),
        outlet: new_outlet(Link::Tcp, 1024, 1024),
    }
}

/// A client is served, and neither direction has ended yet.
pub open spec fn serving(tcp: TcpState) -> bool {
    &&& tcp.server == ServerPhase::Serve
    &&& tcp.intake.phase != IntakePhase::Closed
    &&& tcp.outlet.phase != OutletPhase::Closed
}

/// The TCP side after an event of its server. A session is not over before one
/// of its directions is, and a client that is accepted gets new halves.
pub open spec fn tcp_server_step(tcp: TcpState, event: ServerEvent) -> TcpState {
    if event == ServerEvent::Served && serving(tcp) {
        tcp
    } else {
        let server = server_step(tcp.server, event);
        if tcp.server == ServerPhase::Accept && server == ServerPhase::Serve {
            TcpState { server, ..new_tcp() }
        } else {
            TcpState { server, ..tcp }
        }
    }
}

/// The TCP side and the queue that it sends into after an event of its intake.
/// Nothing happens outside a session.
pub open spec fn tcp_intake_step(tcp: TcpState, queue: Seq<u8>, event: IntakeEvent) -> (
    TcpState,
    Seq<u8>,
) {
    if serving(tcp) {
        let (intake, queue) = intake_step(tcp.intake, queue, event);
        (TcpState { intake, ..tcp }, queue)
    } else {
        (tcp, queue)
    }
}

/// The TCP side and the queue that it drains after an event of its outlet.
/// Nothing happens outside a session.
pub open spec fn tcp_outlet_step(tcp: TcpState, queue: Seq<u8>, event: OutletEvent) -> (
    TcpState,
    Seq<u8>,
) {
    if serving(tcp) {
        let (outlet, queue) = outlet_step(tcp.outlet, queue, event);
        (TcpState { outlet, ..tcp }, queue)
    } else {
        (tcp, queue)
    }
}

/// Serves TCP clients, one after the other.
pub struct TcpSide {
    server: Server,
    intake: Intake<TCP_IO_CHUNK>,
    outlet: Outlet<TCP_IO_CHUNK>,
}

impl View for TcpSide {
    type V = TcpState;

    closed spec fn view(&self) -> TcpState {
        TcpState { server: self.server@, intake: self.intake@, outlet: self.outlet@ }
    }
}

impl TcpSide {
    /// Both halves are well-formed.
    pub closed spec fn wf(&self) -> bool {
        &&& self.intake.wf()
        &&& self.outlet.wf()
    }

    /// Creates a TCP side that has yet to look for the link.
    pub fn new() -> (tcp: TcpSide)
        ensures
            tcp.wf(),
            tcp@ == new_tcp(),
    {
        TcpSide { server: Server::new(), intake: tcp_intake(), outlet: tcp_outlet() }
    }

    /// What the server is to do next.
    pub fn action(&self) -> (action: ServerAction)
        ensures
            action == server_action(self@.server),
    {
        self.server.action()
    }

    /// Whether a client is served and neither direction has ended yet.
    pub fn serving(&self) -> (open: bool)
        ensures
            open == serving(self@),
    {
        match self.server.action() {
            ServerAction::Serve => self.intake.phase() != IntakePhase::Closed
                && self.outlet.phase() != OutletPhase::Closed,
            _ => false,
        }
    }

    /// What the half that reads waits for.
    pub fn intake_phase(&self) -> (phase: IntakePhase)
        ensures
            phase == self@.intake.phase,
    {
        self.intake.phase()
    }

    /// What the half that writes waits for.
    pub fn outlet_phase(&self) -> (phase: OutletPhase)
        ensures
            phase == self@.outlet.phase,
    {
        self.outlet.phase()
    }

    /// The packet that is to be written to the client.
    pub fn packet(&self) -> (packet: &[u8])
        requires
            self.wf(),
        ensures
            packet@ == self@.outlet.packet,
    {
        self.outlet.packet()
    }

    /// Takes what came of the server's last action. An event that cannot come
    /// of it is ignored.
    pub fn advance(&mut self, event: ServerEvent)
        requires
            old(self).wf(),
        ensures
            final(self).wf(),
            final(self)@ == tcp_server_step(old(self)@, event),
    {
        if let ServerEvent::Served = event {
            if self.serving() {
                return;
            }
        }
        if let ServerEvent::Accepted { ok: true } = event {
            if let ServerAction::Accept { .. } = self.server.action() {
                self.intake = tcp_intake();
                self.outlet = tcp_outlet();
            }
        }
        self.server.advance(event);
    }

    /// Takes what the client sent and sends it on as far as the queue takes it.
    /// An empty chunk ends the session.
    pub fn received(&mut self, bytes: &[u8], tx: &mut ByteQueue)
        requires
            old(self).wf(),
            bytes@.len() <= TCP_IO_CHUNK,
        ensures
            final(self).wf(),
            (final(self)@, final(tx)@) == tcp_intake_step(
                old(self)@,
                old(tx)@,
                (IntakeEvent::Packet { bytes: bytes@ }),
            ),
    {
        if self.serving() {
            self.intake.packet(bytes, tx);
        }
    }

    /// Takes note that reading from the client failed.
    pub fn receive_failed(&mut self)
        requires
            old(self).wf(),
        ensures
            final(self).wf(),
            forall|queue: Seq<u8>| #[trigger]
                tcp_intake_step(old(self)@, queue, IntakeEvent::Failed) == (final(self)@, queue),
    {
        let ghost before = self@;
        if self.serving() {
            self.intake.failed();
        }
        assert forall|queue: Seq<u8>| #[trigger]
            tcp_intake_step(before, queue, IntakeEvent::Failed) == (self@, queue) by {
            let step = intake_step(before.intake, queue, IntakeEvent::Failed);
        }
    }

    /// Sends on what is left of what the client sent, as far as the queue takes
    /// it.
    pub fn room(&mut self, tx: &mut ByteQueue)
        requires
            old(self).wf(),
        ensures
            final(self).wf(),
            (final(self)@, final(tx)@) == tcp_intake_step(
                old(self)@,
                old(tx)@,
                IntakeEvent::Room,
            ),
    {
        if self.serving() {
            self.intake.room(tx);
        }
    }

    /// Assembles the next packet for the client from a queue.
    pub fn pull(&mut self, rx: &mut ByteQueue)
        requires
            old(self).wf(),
        ensures
            final(self).wf(),
            (final(self)@, final(rx)@) == tcp_outlet_step(
                old(self)@,
                old(rx)@,
                OutletEvent::Pull,
            ),
    {
        if self.serving() {
            self.outlet.pull(rx);
        }
    }

    /// Assembles the next packet for the client from its share of the console
    /// output.
    pub fn pull_pubsub(&mut self, rx: &mut DutOutput<'_>)
        requires
            old(self).wf(),
            old(rx).wf(),
        ensures
            final(self).wf(),
            final(rx).wf(),
            (final(self)@, final(rx).pending(Reader::Tcp)) == tcp_outlet_step(
                old(self)@,
                old(rx).pending(Reader::Tcp),
                OutletEvent::Pull,
            ),
            final(rx).pending(Reader::Acm) == old(rx).pending(Reader::Acm),
    {
        if self.serving() {
            self.outlet.pull_pubsub(rx, Reader::Tcp);
        }
    }

    /// Takes note that the packet was written to the client, or that writing
    /// it failed. A failure ends the session.
    pub fn written(&mut self, ok: bool)
        requires
            old(self).wf(),
        ensures
            final(self).wf(),
            forall|queue: Seq<u8>| #[trigger]
                tcp_outlet_step(old(self)@, queue, (OutletEvent::Written { ok })) == (
                    final(self)@,
                    queue,
                ),
    {
        let ghost before = self@;
        if self.serving() {
            self.outlet.written(ok);
        }
        assert forall|queue: Seq<u8>| #[trigger]
            tcp_outlet_step(before, queue, (OutletEvent::Written { ok })) == (self@, queue) by {
            let step = outlet_step(before.outlet, queue, (OutletEvent::Written { ok }));
        }
    }
}

/// A session lasts until one of its directions ends: no event of the server
/// ends it before that, and once a direction has ended the socket is aborted
/// next.
pub proof fn law_a_session_lasts_until_a_direction_ends(tcp: TcpState, event: ServerEvent)
    ensures
        serving(tcp) ==> tcp_server_step(tcp, event) == tcp,
        tcp.server == ServerPhase::Serve && !serving(tcp) ==> server_action(
            tcp_server_step(tcp, ServerEvent::Served).server,
        ) == ServerAction::Abort,
{
}

/// Outside a session neither half does anything and neither queue changes.
pub proof fn law_no_traffic_outside_a_session(
    tcp: TcpState,
    queue: Seq<u8>,
    intake_event: IntakeEvent,
    outlet_event: OutletEvent,
)
    requires
        !serving(tcp),
    ensures
        tcp_intake_step(tcp, queue, intake_event) == (tcp, queue),
        tcp_outlet_step(tcp, queue, outlet_event) == (tcp, queue),
{
}

/// A client that is accepted is served by new halves, whatever the client
/// before it left in the old ones.
pub proof fn law_a_session_starts_afresh(tcp: TcpState)
    requires
        tcp.server == ServerPhase::Accept,
    ensures
        tcp_server_step(tcp, (ServerEvent::Accepted { ok: true })) == (TcpState {
            server: ServerPhase::Serve,
            ..new_tcp()
        }),
        serving(tcp_server_step(tcp, (ServerEvent::Accepted { ok: true }))),
{
}

/// The server goes from phase to phase whatever the halves of a session hold:
/// it looks for the link until it is up, waits for the network, and from then on
/// always gets back to accepting, from a pause after a failed accept and from an
/// aborted socket. Only whether a served client is done depends on the halves.
pub proof fn law_the_server_gets_back_to_accepting(tcp: TcpState, event: ServerEvent)
    ensures
        ({
            let next = tcp_server_step(tcp, event).server;
            match (tcp.server, event) {
                (ServerPhase::CheckLink, ServerEvent::Link { up: true }) => next
                    == ServerPhase::WaitConfig,
                (ServerPhase::CheckLink, ServerEvent::Link { up: false }) => next
                    == ServerPhase::LinkDelay,
                (ServerPhase::LinkDelay, ServerEvent::Elapsed) => next == ServerPhase::CheckLink,
                (ServerPhase::WaitConfig, ServerEvent::Configured) => next == ServerPhase::Accept,
                (ServerPhase::Accept, ServerEvent::Accepted { ok: true }) => next
                    == ServerPhase::Serve,
                (ServerPhase::Accept, ServerEvent::Accepted { ok: false }) => next
                    == ServerPhase::AcceptDelay,
                (ServerPhase::AcceptDelay, ServerEvent::Elapsed) => next == ServerPhase::Accept,
                (ServerPhase::Serve, ServerEvent::Served) => {
                    if tcp.intake.phase == IntakePhase::Closed || tcp.outlet.phase
                        == OutletPhase::Closed {
                        next == ServerPhase::Abort
                    } else {
                        next == ServerPhase::Serve
                    }
                },
                (ServerPhase::Abort, ServerEvent::Aborted) => next == ServerPhase::Accept,
                _ => next == tcp.server,
            }
        }),
{
}

/// Two servers in the same phase stay in the same phase through any event, but
/// for the end of a session, however different their halves are.
pub proof fn law_the_server_does_not_look_into_the_halves(
    one: TcpState,
    other: TcpState,
    event: ServerEvent,
)
    requires
        one.server == other.server,
        event != ServerEvent::Served,
    ensures
        tcp_server_step(one, event).server == tcp_server_step(other, event).server,
{
}

/// The server leaves the halves as they are until it accepts a client. That
/// client's halves hold nothing of an earlier client: one reads at once, the
/// other drains its queue at once, both in chunks of up to 1024 bytes.
pub proof fn law_halves_are_replaced_only_for_a_new_client(tcp: TcpState, event: ServerEvent)
    ensures
        ({
            let next = tcp_server_step(tcp, event);
            let accepts = tcp.server == ServerPhase::Accept && event == (ServerEvent::Accepted {
                ok: true,
            });
            &&& !accepts ==> next.intake == tcp.intake && next.outlet == tcp.outlet
            &&& accepts ==> {
                &&& next.intake.link == Link::Tcp
                &&& next.intake.phase == IntakePhase::Read
                &&& next.intake.backlog.len() == 0
                &&& next.outlet.link == Link::Tcp
                &&& next.outlet.phase == OutletPhase::Fill
                &&& next.outlet.max_len == 1024
                &&& next.outlet.capacity == 1024
                &&& next.outlet.packet.len() == 0
            }
        }),
{
}

/// When a session has ended, its socket is aborted, the next client is accepted
/// without a pause, and that client is served, whatever the one before it left
/// in the halves.
pub proof fn law_an_ended_session_makes_way_for_the_next_client(tcp: TcpState)
    requires
        tcp.server == ServerPhase::Serve,
        tcp.intake.phase == IntakePhase::Closed || tcp.outlet.phase == OutletPhase::Closed,
    ensures
        ({
            let ended = tcp_server_step(tcp, ServerEvent::Served);
            let aborted = tcp_server_step(ended, ServerEvent::Aborted);
            let accepted = tcp_server_step(aborted, ServerEvent::Accepted { ok: true });
            &&& server_action(ended.server) == ServerAction::Abort
            &&& server_action(aborted.server) == (ServerAction::Accept { port: 3333 })
            &&& server_action(accepted.server) == ServerAction::Serve
            &&& serving(accepted)
        }),
{
}

/// A session goes on through anything that its client sends and anything that is
/// written to it: it ends by an empty chunk or a failure of a half that reads,
/// by a failed write of a half that writes, and by nothing else.
pub proof fn law_a_session_ends_only_by_an_end_or_a_failure(
    tcp: TcpState,
    queue: Seq<u8>,
    intake_event: IntakeEvent,
    outlet_event: OutletEvent,
)
    requires
        tcp.server == ServerPhase::Serve,
        tcp.intake.link == Link::Tcp && tcp.intake.phase != IntakePhase::Closed,
        tcp.outlet.link == Link::Tcp && tcp.outlet.phase != OutletPhase::Closed,
    ensures
        serving(tcp),
        ({
            let empty = intake_event matches IntakeEvent::Packet { bytes } && bytes.len() == 0;
            serving(tcp_intake_step(tcp, queue, intake_event).0) <==> !(tcp.intake.phase
                == IntakePhase::Read && (empty || intake_event is Failed))
        }),
        serving(tcp_outlet_step(tcp, queue, outlet_event).0) <==> !(tcp.outlet.phase
            == OutletPhase::Write && outlet_event == (OutletEvent::Written { ok: false })),
{
}

/// What a served client sends is carried on whole, whatever its length and its
/// bytes, and leaves the rest of the TCP side as it is.
pub proof fn law_what_a_client_sends_is_carried_on_whole(
    tcp: TcpState,
    queue: Seq<u8>,
    bytes: Seq<u8>,
)
    requires
        tcp.server == ServerPhase::Serve,
        tcp.intake.phase == IntakePhase::Read,
        tcp.outlet.phase != OutletPhase::Closed,
        bytes.len() > 0,
    ensures
        ({
            let (next, q) = tcp_intake_step(tcp, queue, IntakeEvent::Packet { bytes });
            &&& q + next.intake.backlog == queue + bytes
            &&& next.intake.backlog.len() > 0 ==> q.len() >= 4096
            &&& next.intake.backlog.len() == 0 ==> next.intake.phase == IntakePhase::Read
            &&& next.intake.backlog.len() > 0 ==> next.intake.phase == IntakePhase::WaitRoom
            &&& next.outlet == tcp.outlet
            &&& serving(next)
        }),
{
    law_a_packet_is_carried_on_whole(tcp.intake, queue, bytes);
}

/// A served client is written what waits for it, chunk after chunk: each chunk
/// is the front of what waits, up to 1024 bytes, and once it is written the next
/// one follows, without an end to the session.
pub proof fn law_a_client_is_written_what_waits(tcp: TcpState, queue: Seq<u8>)
    requires
        tcp.server == ServerPhase::Serve,
        tcp.intake.phase != IntakePhase::Closed,
        tcp.outlet.phase == OutletPhase::Fill,
        tcp.outlet.link == Link::Tcp,
        tcp.outlet.max_len == 1024,
        tcp.outlet.capacity == 1024,
        queue.len() > 0,
    ensures
        ({
            let (pulled, rest) = tcp_outlet_step(tcp, queue, OutletEvent::Pull);
            let (next, q) = tcp_outlet_step(pulled, rest, OutletEvent::Written { ok: true });
            &&& pulled.outlet.packet + rest == queue
            &&& 0 < pulled.outlet.packet.len() <= 1024
            &&& rest.len() > 0 ==> pulled.outlet.packet.len() == 1024
            &&& q == rest
            &&& next.outlet.phase == OutletPhase::Fill
            &&& next.outlet.packet.len() == 0
            &&& next.intake == tcp.intake
            &&& serving(pulled) && serving(next)
        }),
{
    law_a_pull_takes_the_front_of_the_queue(tcp.outlet, queue);
}

/// A half that serves a client moves as it would without a server, and moves
/// alone: neither the server nor the other half changes with it.
pub proof fn law_halves_of_a_session_move_on_their_own(
    tcp: TcpState,
    queue: Seq<u8>,
    intake_event: IntakeEvent,
    outlet_event: OutletEvent,
)
    requires
        tcp.server == ServerPhase::Serve,
        tcp.intake.phase != IntakePhase::Closed,
        tcp.outlet.phase != OutletPhase::Closed,
    ensures
        ({
            let (read, q) = tcp_intake_step(tcp, queue, intake_event);
            let (written, rest) = tcp_outlet_step(tcp, queue, outlet_event);
            &&& (read.intake, q) == intake_step(tcp.intake, queue, intake_event)
            &&& read.server == tcp.server && read.outlet == tcp.outlet
            &&& (written.outlet, rest) == outlet_step(tcp.outlet, queue, outlet_event)
            &&& written.server == tcp.server && written.intake == tcp.intake
        }),
{
}

/// A client is served exactly while the server serves it and neither half has
/// ended; at any other time neither half moves a byte.
pub proof fn law_bytes_move_only_while_a_client_is_served(
    tcp: TcpState,
    queue: Seq<u8>,
    intake_event: IntakeEvent,
    outlet_event: OutletEvent,
)
    requires
        tcp.server != ServerPhase::Serve || tcp.intake.phase == IntakePhase::Closed
            || tcp.outlet.phase == OutletPhase::Closed,
    ensures
        !serving(tcp),
        tcp_intake_step(tcp, queue, intake_event) == (tcp, queue),
        tcp_outlet_step(tcp, queue, outlet_event) == (tcp, queue),
{
}

/// A new TCP side looks for the link first. Once it is up and the network is
/// configured, a client that is accepted is served, however often the link was
/// looked for in vain before that.
pub proof fn law_a_new_tcp_side_looks_for_the_link()
    ensures
        ({
            let tcp = new_tcp();
            let down = tcp_server_step(tcp, ServerEvent::Link { up: false });
            let up = tcp_server_step(tcp, ServerEvent::Link { up: true });
            let ready = tcp_server_step(up, ServerEvent::Configured);
            &&& server_action(tcp.server) == ServerAction::CheckLink
            &&& server_action(down.server) == (ServerAction::Sleep { millis: 100 })
            &&& tcp_server_step(down, ServerEvent::Elapsed) == tcp
            &&& server_action(up.server) == ServerAction::WaitConfig
            &&& server_action(ready.server) == (ServerAction::Accept { port: 3333 })
            &&& serving(tcp_server_step(ready, ServerEvent::Accepted { ok: true }))
            &&& tcp.intake.phase == IntakePhase::Read && tcp.outlet.phase == OutletPhase::Fill
            &&& tcp.intake.link == Link::Tcp && tcp.intake.backlog.len() == 0
            &&& tcp.outlet.link == Link::Tcp && tcp.outlet.packet.len() == 0
            &&& tcp.outlet.max_len == 1024 && tcp.outlet.capacity == 1024
        }),
{
}

} // verus!

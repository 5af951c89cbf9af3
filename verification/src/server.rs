//! The TCP side's server: when to look for the link, wait, accept and serve.

use vstd::prelude::*;

verus! {

/// The port that the server listens on.
pub const TCP_PORT: u16 = 3333;

/// The size of each of a socket's two buffers.
pub const TCP_BUFFER_SIZE: usize = 1536;

/// How long to wait before looking for the link again, in milliseconds.
pub const LINK_POLL_MS: u64 = 100;

/// How long to wait after a failed accept, in milliseconds.
pub const ACCEPT_RETRY_MS: u64 = 250;

/// What the server is to do next.
#[derive(Clone, Copy, Debug, PartialEq, Eq, Structural)]
pub enum ServerAction {
    /// See whether the link is up.
    CheckLink,
    /// Wait for so many milliseconds.
    Sleep { millis: u64 },
    /// Wait until the network is configured.
    WaitConfig,
    /// Accept a client on a new socket.
    Accept { port: u16 },
    /// Serve the client until one direction ends.
    Serve,
    /// Abort the socket.
    Abort,
}

/// Where the server stands.
#[derive(Clone, Copy, Debug, PartialEq, Eq, Structural)]
pub enum ServerPhase {
    /// It looks whether the link is up.
    CheckLink,
    /// It waits before it looks again.
    LinkDelay,
    /// It waits for the network configuration.
    WaitConfig,
    /// It accepts a client.
    Accept,
    /// It waits after a failed accept.
    AcceptDelay,
    /// It serves a client.
    Serve,
    /// It ends a served client's connection.
    Abort,
}

/// What came of the server's last action.
#[derive(Clone, Copy, Debug, PartialEq, Eq, Structural)]
pub enum ServerEvent {
    /// The link was looked at.
    Link { up: bool },
    /// The time to wait is over.
    Elapsed,
    /// The network is configured.
    Configured,
    /// A client was accepted, or accepting one failed.
    Accepted { ok: bool },
    /// The client is served.
    Served,
    /// The socket is aborted.
    Aborted,
}

/// The event can come of what the server does in this phase.
pub open spec fn server_expects(phase: ServerPhase, event: ServerEvent) -> bool {
    match event {
        ServerEvent::Link { up } => phase == ServerPhase::CheckLink,
        ServerEvent::Elapsed => phase == ServerPhase::LinkDelay || phase
            == ServerPhase::AcceptDelay,
        ServerEvent::Configured => phase == ServerPhase::WaitConfig,
        ServerEvent::Accepted { ok } => phase == ServerPhase::Accept,
        ServerEvent::Served => phase == ServerPhase::Serve,
        ServerEvent::Aborted => phase == ServerPhase::Abort,
    }
}

/// What the server does in a phase.
pub open spec fn server_action(phase: ServerPhase) -> ServerAction {
    match phase {
        ServerPhase::CheckLink => ServerAction::CheckLink,
        ServerPhase::LinkDelay => ServerAction::Sleep { millis: LINK_POLL_MS },
        ServerPhase::WaitConfig => ServerAction::WaitConfig,
        ServerPhase::Accept => ServerAction::Accept { port: TCP_PORT },
        ServerPhase::AcceptDelay => ServerAction::Sleep { millis: ACCEPT_RETRY_MS },
        ServerPhase::Serve => ServerAction::Serve,
        ServerPhase::Abort => ServerAction::Abort,
    }
}

/// Where the server stands after an event. Nothing happens on an event that
/// cannot come of what it does.
pub open spec fn server_step(phase: ServerPhase, event: ServerEvent) -> ServerPhase {
    if !server_expects(phase, event) {
        phase
    } else {
        match event {
            ServerEvent::Link { up } => if up {
                ServerPhase::WaitConfig
            } else {
                ServerPhase::LinkDelay
            },
            ServerEvent::Elapsed => if phase == ServerPhase::LinkDelay {
                ServerPhase::CheckLink
            } else {
                ServerPhase::Accept
            },
            ServerEvent::Configured => ServerPhase::Accept,
            ServerEvent::Accepted { ok } => if ok {
                ServerPhase::Serve
            } else {
                ServerPhase::AcceptDelay
            },
            ServerEvent::Served => ServerPhase::Abort,
            ServerEvent::Aborted => ServerPhase::Accept,
        }
    }
}

/// Decides what the TCP server does. It serves one client at a time and never
/// stops.
pub struct Server {
    phase: ServerPhase,
}

impl View for Server {
    type V = ServerPhase;

    closed spec fn view(&self) -> ServerPhase {
        self.phase
    }
}

impl Server {
    /// Creates a server that has yet to look for the link.
    pub fn new() -> (server: Server)
        ensures
            server@ == ServerPhase::CheckLink,
    {
        Server { phase: ServerPhase::CheckLink }
    }

    /// What the server is to do next.
    pub fn action(&self) -> (action: ServerAction)
        ensures
            action == server_action(self@),
    {
        match self.phase {
            ServerPhase::CheckLink => ServerAction::CheckLink,
            ServerPhase::LinkDelay => ServerAction::Sleep { millis: LINK_POLL_MS },
            ServerPhase::WaitConfig => ServerAction::WaitConfig,
            ServerPhase::Accept => ServerAction::Accept { port: TCP_PORT },
            ServerPhase::AcceptDelay => ServerAction::Sleep { millis: ACCEPT_RETRY_MS },
            ServerPhase::Serve => ServerAction::Serve,
            ServerPhase::Abort => ServerAction::Abort,
        }
    }

    /// Takes what came of the last action. An event that cannot come of it is
    /// ignored.
    pub fn advance(&mut self, event: ServerEvent)
        ensures
            final(self)@ == server_step(old(self)@, event),
    {
        let next = match (self.phase, event) {
            (ServerPhase::CheckLink, ServerEvent::Link { up }) => if up {
                ServerPhase::WaitConfig
            } else {
                ServerPhase::LinkDelay
            },
            (ServerPhase::LinkDelay, ServerEvent::Elapsed) => ServerPhase::CheckLink,
            (ServerPhase::WaitConfig, ServerEvent::Configured) => ServerPhase::Accept,
            (ServerPhase::Accept, ServerEvent::Accepted { ok }) => if ok {
                ServerPhase::Serve
            } else {
                ServerPhase::AcceptDelay
            },
            (ServerPhase::AcceptDelay, ServerEvent::Elapsed) => ServerPhase::Accept,
            (ServerPhase::Serve, ServerEvent::Served) => ServerPhase::Abort,
            (ServerPhase::Abort, ServerEvent::Aborted) => ServerPhase::Accept,
            (phase, _) => phase,
        };
        self.phase = next;
    }
}

/// Where a new server stands after a series of events.
pub open spec fn server_run(events: Seq<ServerEvent>) -> ServerPhase
    decreases events.len(),
{
    if events.len() == 0 {
        ServerPhase::CheckLink
    } else {
        server_step(server_run(events.drop_last()), events.last())
    }
}

/// The server is past its start: the network was there at least once.
pub open spec fn in_service(phase: ServerPhase) -> bool {
    ||| phase == ServerPhase::Accept
    ||| phase == ServerPhase::AcceptDelay
    ||| phase == ServerPhase::Serve
    ||| phase == ServerPhase::Abort
}

/// How many clients were accepted in a series of events.
pub open spec fn clients_accepted(events: Seq<ServerEvent>) -> nat
    decreases events.len(),
{
    if events.len() == 0 {
        0
    } else {
        let before = events.drop_last();
        clients_accepted(before) + if server_run(before) == ServerPhase::Accept && events.last()
            == (ServerEvent::Accepted { ok: true }) {
            1nat
        } else {
            0nat
        }
    }
}

/// How many sockets were aborted in a series of events.
pub open spec fn sockets_aborted(events: Seq<ServerEvent>) -> nat
    decreases events.len(),
{
    if events.len() == 0 {
        0
    } else {
        let before = events.drop_last();
        sockets_aborted(before) + if server_run(before) == ServerPhase::Abort && events.last()
            == ServerEvent::Aborted {
            1nat
        } else {
            0nat
        }
    }
}

/// The server does not go back to its start: once in service, it stays.
pub proof fn law_service_is_never_left(events: Seq<ServerEvent>, more: Seq<ServerEvent>)
    requires
        in_service(server_run(events)),
    ensures
        in_service(server_run(events + more)),
    decreases more.len(),
{
    if more.len() == 0 {
        assert(events + more =~= events);
    } else {
        law_service_is_never_left(events, more.drop_last());
        assert((events + more).drop_last() =~= events + more.drop_last());
    }
}

/// No client is accepted before the link was seen up and, after that, the
/// network was configured.
pub proof fn law_service_needs_the_network(events: Seq<ServerEvent>)
    ensures
        server_run(events) == ServerPhase::WaitConfig ==> exists|i: int|
            0 <= i < events.len() && #[trigger] events[i] == (ServerEvent::Link { up: true }),
        in_service(server_run(events)) ==> exists|i: int, j: int|
            0 <= i < j < events.len() && #[trigger] events[i] == (ServerEvent::Link { up: true })
                && #[trigger] events[j] == ServerEvent::Configured,
    decreases events.len(),
{
    if events.len() > 0 {
        let before = events.drop_last();
        let last = events.len() - 1;
        law_service_needs_the_network(before);
        assert(forall|k: int| 0 <= k < last ==> before[k] == #[trigger] events[k]);
        if server_run(events) == ServerPhase::WaitConfig {
            if server_run(before) == ServerPhase::WaitConfig {
                let i = choose|i: int|
                    0 <= i < before.len() && #[trigger] before[i] == (ServerEvent::Link {
                        up: true,
                    });
                assert(events[i] == (ServerEvent::Link { up: true }));
            } else {
                assert(events[last] == (ServerEvent::Link { up: true }));
            }
        }
        if in_service(server_run(events)) {
            if in_service(server_run(before)) {
                let (i, j) = choose|i: int, j: int|
                    0 <= i < j < before.len() && #[trigger] before[i] == (ServerEvent::Link {
                        up: true,
                    }) && #[trigger] before[j] == ServerEvent::Configured;
                assert(events[i] == before[i] && events[j] == before[j]);
            } else {
                let i = choose|i: int|
                    0 <= i < before.len() && #[trigger] before[i] == (ServerEvent::Link {
                        up: true,
                    });
                assert(events[i] == before[i] && events[last] == ServerEvent::Configured);
            }
        }
    }
}

/// Every accepted client's socket is aborted before the next client is
/// accepted: at any time at most the client that is being served has a socket
/// that is not aborted yet.
pub proof fn law_one_client_at_a_time(events: Seq<ServerEvent>)
    ensures
        clients_accepted(events) == sockets_aborted(events) + (if server_run(events)
            == ServerPhase::Serve || server_run(events) == ServerPhase::Abort {
            1int
        } else {
            0int
        }),
    decreases events.len(),
{
    if events.len() > 0 {
        law_one_client_at_a_time(events.drop_last());
    }
}

/// What the server does next tells the phases apart: no two phases ask for the
/// same, and an accept is always on the one port. The two pauses are of 100 and
/// of 250 milliseconds.
pub proof fn law_each_phase_asks_for_one_thing(one: ServerPhase, other: ServerPhase)
    ensures
        one != other ==> server_action(one) != server_action(other),
        server_action(one) is CheckLink <==> one == ServerPhase::CheckLink,
        server_action(one) == (ServerAction::Sleep { millis: 100 }) <==> one
            == ServerPhase::LinkDelay,
        server_action(one) is WaitConfig <==> one == ServerPhase::WaitConfig,
        server_action(one) == (ServerAction::Accept { port: 3333 }) <==> one
            == ServerPhase::Accept,
        server_action(one) == (ServerAction::Sleep { millis: 250 }) <==> one
            == ServerPhase::AcceptDelay,
        server_action(one) is Serve <==> one == ServerPhase::Serve,
        server_action(one) is Abort <==> one == ServerPhase::Abort,
        TCP_BUFFER_SIZE == 1536,
{
}

/// Each phase of the server is left by what its own action brings, and by
/// nothing else. The link is looked for until it is up, the network is waited
/// for once, and from then on the server accepts, after a pause where that
/// failed, serves and aborts.
pub proof fn law_the_server_goes_round(phase: ServerPhase, event: ServerEvent)
    ensures
        ({
            let next = server_step(phase, event);
            match (server_action(phase), event) {
                (ServerAction::CheckLink, ServerEvent::Link { up: true }) => next
                    == ServerPhase::WaitConfig,
                (ServerAction::CheckLink, ServerEvent::Link { up: false }) => server_action(next)
                    == (ServerAction::Sleep { millis: 100 }) && server_step(
                    next,
                    ServerEvent::Elapsed,
                ) == phase,
                (ServerAction::Sleep { millis: 100 }, ServerEvent::Elapsed) => next
                    == ServerPhase::CheckLink,
                (ServerAction::WaitConfig, ServerEvent::Configured) => next
                    == ServerPhase::Accept,
                (ServerAction::Accept { port: 3333 }, ServerEvent::Accepted { ok: true }) => next
                    == ServerPhase::Serve,
                (ServerAction::Accept { port: 3333 }, ServerEvent::Accepted { ok: false }) =>
                server_action(next) == (ServerAction::Sleep { millis: 250 }) && server_step(
                    next,
                    ServerEvent::Elapsed,
                ) == phase,
                (ServerAction::Sleep { millis: 250 }, ServerEvent::Elapsed) => next
                    == ServerPhase::Accept,
                (ServerAction::Serve, ServerEvent::Served) => next == ServerPhase::Abort,
                (ServerAction::Abort, ServerEvent::Aborted) => next == ServerPhase::Accept,
                _ => next == phase,
            }
        }),
{
}

} // verus!

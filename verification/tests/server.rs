use ehci_debug_bridge::server::{Server, ServerAction, ServerEvent, TCP_BUFFER_SIZE, TCP_PORT};

#[test]
fn the_server_waits_for_the_network() {
    let mut server = Server::new();
    assert_eq!(server.action(), ServerAction::CheckLink);
    server.advance(ServerEvent::Link { up: false });
    assert_eq!(server.action(), ServerAction::Sleep { millis: 100 });
    server.advance(ServerEvent::Elapsed);
    assert_eq!(server.action(), ServerAction::CheckLink);
    server.advance(ServerEvent::Link { up: true });
    assert_eq!(server.action(), ServerAction::WaitConfig);
    server.advance(ServerEvent::Configured);
    assert_eq!(server.action(), ServerAction::Accept { port: 3333 });
}

#[test]
fn the_server_serves_one_client_after_the_other() {
    let mut server = Server::new();
    server.advance(ServerEvent::Link { up: true });
    server.advance(ServerEvent::Configured);
    for _ in 0..3 {
        server.advance(ServerEvent::Accepted { ok: false });
        assert_eq!(server.action(), ServerAction::Sleep { millis: 250 });
        server.advance(ServerEvent::Elapsed);
        assert_eq!(server.action(), ServerAction::Accept { port: TCP_PORT });
        server.advance(ServerEvent::Accepted { ok: true });
        assert_eq!(server.action(), ServerAction::Serve);
        server.advance(ServerEvent::Served);
        assert_eq!(server.action(), ServerAction::Abort);
        server.advance(ServerEvent::Aborted);
        assert_eq!(server.action(), ServerAction::Accept { port: 3333 });
    }
    assert_eq!(TCP_BUFFER_SIZE, 1536);
}

#[test]
fn the_server_ignores_what_cannot_come_of_its_action() {
    let mut server = Server::new();
    for event in [
        ServerEvent::Elapsed,
        ServerEvent::Configured,
        ServerEvent::Accepted { ok: true },
        ServerEvent::Served,
        ServerEvent::Aborted,
    ] {
        server.advance(event);
        assert_eq!(server.action(), ServerAction::CheckLink);
    }
    server.advance(ServerEvent::Link { up: true });
    server.advance(ServerEvent::Link { up: false });
    assert_eq!(server.action(), ServerAction::WaitConfig);
}

use ehci_debug_bridge::bridge::{IntakePhase, OutletPhase};
use ehci_debug_bridge::fanout::{fill_pubsub_packet, DutOutput, DutOutputStorage, Reader};
use ehci_debug_bridge::queue::{fill_packet, ByteQueue, QUEUE_DEPTH};
use ehci_debug_bridge::server::{ServerAction, ServerEvent};
use ehci_debug_bridge::session::TcpSide;

fn accepting() -> TcpSide {
    let mut tcp = TcpSide::new();
    tcp.advance(ServerEvent::Link { up: true });
    tcp.advance(ServerEvent::Configured);
    assert_eq!(tcp.action(), ServerAction::Accept { port: 3333 });
    tcp
}

#[test]
fn no_byte_moves_outside_a_session() {
    let mut rx = ByteQueue::new();
    let mut tx = ByteQueue::new();
    rx.offer(&[1, 2, 3], 0);
    let mut tcp = TcpSide::new();
    for event in [
        ServerEvent::Link { up: false },
        ServerEvent::Elapsed,
        ServerEvent::Link { up: true },
        ServerEvent::Configured,
        ServerEvent::Accepted { ok: false },
        ServerEvent::Elapsed,
    ] {
        tcp.advance(event);
        assert!(!tcp.serving());
        tcp.received(&[9], &mut tx);
        tcp.room(&mut tx);
        tcp.pull(&mut rx);
        tcp.written(false);
        tcp.receive_failed();
    }
    let mut buf = [0u8; 8];
    assert_eq!(fill_packet(&mut tx, &mut buf, 8), None);
    tcp.advance(ServerEvent::Accepted { ok: true });
    assert!(tcp.serving());
    tcp.pull(&mut rx);
    assert_eq!(tcp.packet(), &[1, 2, 3]);
}

#[test]
fn a_session_carries_both_directions() {
    let mut rx = ByteQueue::new();
    let mut tx = ByteQueue::new();
    let mut tcp = accepting();
    tcp.advance(ServerEvent::Accepted { ok: true });
    assert_eq!(tcp.intake_phase(), IntakePhase::Read);
    assert_eq!(tcp.outlet_phase(), OutletPhase::Fill);
    tcp.received(&[1, 2], &mut tx);
    let mut buf = [0u8; 8];
    assert_eq!(fill_packet(&mut tx, &mut buf, 8), Some(2));
    assert_eq!(&buf[..2], &[1, 2]);
    rx.offer(&[3], 0);
    tcp.pull(&mut rx);
    assert_eq!(tcp.packet(), &[3]);
    tcp.written(true);
    assert_eq!(tcp.outlet_phase(), OutletPhase::Fill);
}

#[test]
fn a_session_ends_with_either_direction_and_not_before() {
    let mut tx = ByteQueue::new();
    let mut rx = ByteQueue::new();
    let mut tcp = accepting();

    tcp.advance(ServerEvent::Accepted { ok: true });
    tcp.advance(ServerEvent::Served);
    assert_eq!(tcp.action(), ServerAction::Serve);
    tcp.received(&[], &mut tx);
    assert!(!tcp.serving());
    tcp.advance(ServerEvent::Served);
    assert_eq!(tcp.action(), ServerAction::Abort);
    tcp.advance(ServerEvent::Aborted);

    tcp.advance(ServerEvent::Accepted { ok: true });
    tcp.receive_failed();
    assert!(!tcp.serving());
    tcp.advance(ServerEvent::Served);
    tcp.advance(ServerEvent::Aborted);

    tcp.advance(ServerEvent::Accepted { ok: true });
    rx.offer(&[1, 2], 0);
    tcp.pull(&mut rx);
    tcp.written(false);
    assert!(!tcp.serving());
    tcp.received(&[5], &mut tx);
    let mut buf = [0u8; 8];
    assert_eq!(fill_packet(&mut tx, &mut buf, 8), None);
    tcp.advance(ServerEvent::Served);
    tcp.advance(ServerEvent::Aborted);
    assert_eq!(tcp.action(), ServerAction::Accept { port: 3333 });
}

#[test]
fn the_next_client_goes_on_where_the_last_one_stopped() {
    let mut rx = ByteQueue::new();
    let mut tx = ByteQueue::new();
    rx.offer(&vec![7u8; 1500], 0);
    let mut tcp = accepting();
    tcp.advance(ServerEvent::Accepted { ok: true });
    tcp.pull(&mut rx);
    assert_eq!(tcp.packet().len(), 1024);
    tcp.written(true);
    tcp.received(&[], &mut tx);
    tcp.advance(ServerEvent::Served);
    tcp.advance(ServerEvent::Aborted);
    rx.offer(&[8], 0);
    tcp.advance(ServerEvent::Accepted { ok: true });
    assert!(tcp.serving());
    tcp.pull(&mut rx);
    assert_eq!(tcp.packet().len(), 477);
    assert_eq!(tcp.packet()[475..], [7, 8]);
}

#[test]
fn a_client_that_leaves_takes_what_was_held_back_with_it() {
    let mut tx = ByteQueue::new();
    let mut rx = ByteQueue::new();
    tx.offer(&vec![0u8; QUEUE_DEPTH - 1], 0);
    rx.offer(&[1], 0);
    let mut tcp = accepting();
    tcp.advance(ServerEvent::Accepted { ok: true });
    tcp.received(&[1, 2, 3], &mut tx);
    assert_eq!(tcp.intake_phase(), IntakePhase::WaitRoom);
    tcp.pull(&mut rx);
    tcp.written(false);
    let mut buf = [0u8; QUEUE_DEPTH];
    assert_eq!(fill_packet(&mut tx, &mut buf, QUEUE_DEPTH), Some(4096));
    assert_eq!(buf[4095], 1);
    tcp.room(&mut tx);
    tcp.advance(ServerEvent::Served);
    tcp.advance(ServerEvent::Aborted);
    tcp.advance(ServerEvent::Accepted { ok: true });
    tcp.received(&[4], &mut tx);
    assert_eq!(fill_packet(&mut tx, &mut buf, QUEUE_DEPTH), Some(1));
    assert_eq!(buf[0], 4);
}

#[test]
fn one_reader_serves_all_clients() {
    let mut storage = DutOutputStorage::new();
    let mut output = DutOutput::subscribe(&mut storage).unwrap();
    let mut tx = ByteQueue::new();
    let mut tcp = accepting();
    output.publish(&[1, 2]);
    tcp.pull_pubsub(&mut output);
    assert_eq!(tcp.packet(), &[] as &[u8]);
    tcp.advance(ServerEvent::Accepted { ok: true });
    tcp.pull_pubsub(&mut output);
    assert_eq!(tcp.packet(), &[1, 2]);
    tcp.written(true);
    tcp.received(&[], &mut tx);
    tcp.advance(ServerEvent::Served);
    tcp.advance(ServerEvent::Aborted);
    output.publish(&[3]);
    tcp.advance(ServerEvent::Accepted { ok: true });
    tcp.pull_pubsub(&mut output);
    assert_eq!(tcp.packet(), &[3]);
    let mut buf = [0u8; 8];
    assert_eq!(fill_pubsub_packet(&mut output, Reader::Acm, &mut buf, 8), Some(3));
    assert_eq!(&buf[..3], &[1, 2, 3]);
}

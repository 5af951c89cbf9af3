use ehci_debug_bridge::bridge::{
    acm_intake, acm_outlet, debug_intake, debug_outlet, tcp_intake, tcp_outlet, Intake,
    IntakePhase, Link, Outlet, OutletPhase,
};
use ehci_debug_bridge::fanout::{DutOutput, DutOutputStorage, Reader};
use ehci_debug_bridge::queue::{fill_packet, ByteQueue, QUEUE_DEPTH};

#[test]
fn a_usb_intake_waits_for_its_endpoint() {
    let mut intake = debug_intake();
    let mut queue = ByteQueue::new();
    assert_eq!(intake.phase(), IntakePhase::WaitLink);
    intake.enabled();
    assert_eq!(intake.phase(), IntakePhase::Read);
    intake.packet(&[], &mut queue);
    assert_eq!(intake.phase(), IntakePhase::Read);
    intake.failed();
    assert_eq!(intake.phase(), IntakePhase::WaitLink);
}

#[test]
fn a_tcp_intake_ends_with_an_empty_chunk_or_a_failure() {
    let mut queue = ByteQueue::new();
    let mut intake = tcp_intake();
    assert_eq!(intake.phase(), IntakePhase::Read);
    intake.packet(&[1], &mut queue);
    assert_eq!(intake.phase(), IntakePhase::Read);
    intake.packet(&[], &mut queue);
    assert_eq!(intake.phase(), IntakePhase::Closed);
    let mut intake = tcp_intake();
    intake.failed();
    assert_eq!(intake.phase(), IntakePhase::Closed);
}

#[test]
fn an_intake_waits_for_room() {
    let mut queue = ByteQueue::new();
    queue.offer(&vec![0u8; QUEUE_DEPTH - 2], 0);
    let mut intake = tcp_intake();
    intake.packet(&[1, 2, 3, 4], &mut queue);
    assert_eq!(intake.phase(), IntakePhase::WaitRoom);
    intake.room(&mut queue);
    assert_eq!(intake.phase(), IntakePhase::WaitRoom);
    let mut one = [0u8; 1];
    fill_packet(&mut queue, &mut one, 1);
    intake.room(&mut queue);
    assert_eq!(intake.phase(), IntakePhase::WaitRoom);
    fill_packet(&mut queue, &mut one, 1);
    intake.room(&mut queue);
    assert_eq!(intake.phase(), IntakePhase::Read);
    let mut rest = [0u8; QUEUE_DEPTH];
    assert_eq!(fill_packet(&mut queue, &mut rest, QUEUE_DEPTH), Some(4096));
    assert_eq!(&rest[4092..], &[1, 2, 3, 4]);
}

#[test]
fn the_debug_outlet_sends_transactions_of_eight_bytes() {
    let mut queue = ByteQueue::new();
    queue.offer(&[1, 2, 3, 4, 5, 6, 7, 8, 9], 0);
    let mut outlet = debug_outlet();
    assert_eq!(outlet.phase(), OutletPhase::WaitLink);
    assert_eq!(outlet.packet(), &[] as &[u8]);
    outlet.enabled();
    outlet.pull(&mut queue);
    assert_eq!(outlet.phase(), OutletPhase::Write);
    assert_eq!(outlet.packet(), &[1, 2, 3, 4, 5, 6, 7, 8]);
    outlet.written(true);
    assert_eq!(outlet.phase(), OutletPhase::WaitLink);
    outlet.enabled();
    outlet.pull(&mut queue);
    assert_eq!(outlet.packet(), &[9]);
    outlet.written(false);
    assert_eq!(outlet.phase(), OutletPhase::WaitLink);
    assert_eq!(outlet.packet(), &[] as &[u8]);
    outlet.enabled();
    outlet.pull(&mut queue);
    assert_eq!(outlet.phase(), OutletPhase::Fill);
}

#[test]
fn the_acm_outlet_never_sends_a_full_packet() {
    let mut queue = ByteQueue::new();
    queue.offer(&[5u8; 100], 0);
    let mut outlet = acm_outlet();
    outlet.enabled();
    outlet.pull(&mut queue);
    assert_eq!(outlet.packet().len(), 63);
    outlet.written(true);
    outlet.enabled();
    outlet.pull(&mut queue);
    assert_eq!(outlet.packet().len(), 37);
}

#[test]
fn a_tcp_outlet_ends_with_a_failed_write() {
    let mut queue = ByteQueue::new();
    queue.offer(&[5u8; 2000], 0);
    let mut outlet = tcp_outlet();
    assert_eq!(outlet.phase(), OutletPhase::Fill);
    outlet.pull(&mut queue);
    assert_eq!(outlet.packet().len(), 1024);
    outlet.written(true);
    assert_eq!(outlet.phase(), OutletPhase::Fill);
    outlet.pull(&mut queue);
    assert_eq!(outlet.packet().len(), 976);
    outlet.written(false);
    assert_eq!(outlet.phase(), OutletPhase::Closed);
}

#[test]
fn an_outlet_drains_its_reader_of_the_console_output() {
    let mut storage = DutOutputStorage::new();
    let mut output = DutOutput::subscribe(&mut storage).unwrap();
    let mut outlet = Outlet::new(Link::Tcp, [0u8; 2], 2);
    outlet.pull_pubsub(&mut output, Reader::Tcp);
    assert_eq!(outlet.phase(), OutletPhase::Fill);
    output.publish(&[1, 2, 3]);
    outlet.pull_pubsub(&mut output, Reader::Tcp);
    assert_eq!(outlet.packet(), &[1, 2]);
    outlet.written(true);
    outlet.pull_pubsub(&mut output, Reader::Tcp);
    assert_eq!(outlet.packet(), &[3]);
}

#[test]
fn a_bridge_keeps_every_byte_in_order() {
    let mut queue = ByteQueue::new();
    let mut intake = debug_intake();
    let mut outlet = debug_outlet();
    intake.enabled();
    let mut read: Vec<u8> = Vec::new();
    let mut packed: Vec<u8> = Vec::new();
    for round in 0..100u32 {
        let packet: Vec<u8> = (0..512u32).map(|i| (i + round) as u8).collect();
        while intake.phase() == IntakePhase::WaitRoom {
            outlet.enabled();
            outlet.pull(&mut queue);
            packed.extend_from_slice(outlet.packet());
            outlet.written(true);
            intake.room(&mut queue);
        }
        intake.packet(&packet, &mut queue);
        read.extend_from_slice(&packet);
    }
    while intake.phase() == IntakePhase::WaitRoom || packed.len() < read.len() {
        outlet.enabled();
        outlet.pull(&mut queue);
        packed.extend_from_slice(outlet.packet());
        outlet.written(true);
        if intake.phase() == IntakePhase::WaitRoom {
            intake.room(&mut queue);
        }
    }
    assert_eq!(packed, read);
}

#[test]
fn two_intakes_share_a_queue() {
    let mut queue = ByteQueue::new();
    let mut acm = acm_intake();
    let mut tcp = tcp_intake();
    acm.enabled();
    acm.packet(&[1, 2], &mut queue);
    tcp.packet(&[101], &mut queue);
    acm.packet(&[3], &mut queue);
    tcp.packet(&[102, 103], &mut queue);
    let mut outlet = debug_outlet();
    outlet.enabled();
    outlet.pull(&mut queue);
    assert_eq!(outlet.packet(), &[1, 2, 101, 3, 102, 103]);
}

#[test]
fn a_replaced_connection_drops_only_what_its_intake_held() {
    let mut queue = ByteQueue::new();
    queue.offer(&vec![0u8; QUEUE_DEPTH - 1], 0);
    let mut old = tcp_intake();
    old.packet(&[1, 2, 3], &mut queue);
    assert_eq!(old.phase(), IntakePhase::WaitRoom);
    let mut rest = [9u8; QUEUE_DEPTH];
    assert_eq!(fill_packet(&mut queue, &mut rest, QUEUE_DEPTH), Some(4096));
    assert_eq!(rest[4095], 1);
    let mut new = tcp_intake();
    new.packet(&[4], &mut queue);
    assert_eq!(fill_packet(&mut queue, &mut rest, QUEUE_DEPTH), Some(1));
    assert_eq!(rest[0], 4);
}

#[test]
fn halves_ignore_what_they_do_not_wait_for() {
    let mut queue = ByteQueue::new();
    let mut storage = DutOutputStorage::new();
    let mut output = DutOutput::subscribe(&mut storage).unwrap();
    let mut intake = acm_intake();
    intake.packet(&[1], &mut queue);
    intake.publish(&[1], &mut output);
    intake.failed();
    intake.room(&mut queue);
    assert_eq!(intake.phase(), IntakePhase::WaitLink);
    intake.enabled();
    intake.enabled();
    intake.room(&mut queue);
    assert_eq!(intake.phase(), IntakePhase::Read);

    let mut outlet = acm_outlet();
    outlet.written(false);
    outlet.pull(&mut queue);
    assert_eq!(outlet.phase(), OutletPhase::WaitLink);
    outlet.enabled();
    outlet.enabled();
    outlet.written(true);
    assert_eq!(outlet.phase(), OutletPhase::Fill);
    outlet.pull(&mut queue);
    outlet.pull_pubsub(&mut output, Reader::Acm);
    assert_eq!(outlet.phase(), OutletPhase::Fill);
    queue.offer(&[1, 2], 0);
    outlet.pull(&mut queue);
    queue.offer(&[3], 0);
    outlet.pull(&mut queue);
    outlet.enabled();
    assert_eq!(outlet.packet(), &[1, 2]);
}

#[test]
fn what_is_read_is_published_to_both_readers() {
    let mut storage = DutOutputStorage::new();
    let mut output = DutOutput::subscribe(&mut storage).unwrap();
    let mut intake = debug_intake();
    intake.enabled();
    intake.publish(&[1, 2, 3], &mut output);
    intake.publish(&[], &mut output);
    intake.publish(&[4], &mut output);
    assert_eq!(intake.phase(), IntakePhase::Read);
    let mut acm = acm_outlet();
    acm.enabled();
    acm.pull_pubsub(&mut output, Reader::Acm);
    assert_eq!(acm.packet(), &[1, 2, 3, 4]);
    let mut tcp = tcp_outlet();
    tcp.pull_pubsub(&mut output, Reader::Tcp);
    assert_eq!(tcp.packet(), &[1, 2, 3, 4]);
    intake.failed();
    assert_eq!(intake.phase(), IntakePhase::WaitLink);
}

#[test]
fn publishing_never_waits_for_a_reader() {
    let mut storage = DutOutputStorage::new();
    let mut output = DutOutput::subscribe(&mut storage).unwrap();
    let mut intake = debug_intake();
    intake.enabled();
    for i in 0..20u8 {
        intake.publish(&[i; 512], &mut output);
        assert_eq!(intake.phase(), IntakePhase::Read);
    }
    let mut outlet = tcp_outlet();
    outlet.pull_pubsub(&mut output, Reader::Tcp);
    assert_eq!(outlet.packet(), &[[12u8; 512], [13u8; 512]].concat()[..]);
}

#[test]
fn an_outlet_without_a_limit_sends_single_bytes() {
    let mut queue = ByteQueue::new();
    queue.offer(&[1, 2], 0);
    let mut outlet = Outlet::new(Link::Tcp, [0u8; 4], 0);
    outlet.pull(&mut queue);
    assert_eq!(outlet.packet(), &[1]);
}

#[test]
fn an_intake_takes_packets_up_to_its_size() {
    let mut queue = ByteQueue::new();
    queue.offer(&vec![0u8; QUEUE_DEPTH], 0);
    let mut intake = Intake::new(Link::Tcp, [0u8; 3]);
    intake.packet(&[7, 8, 9], &mut queue);
    assert_eq!(intake.phase(), IntakePhase::WaitRoom);
    let mut buf = [0u8; QUEUE_DEPTH];
    fill_packet(&mut queue, &mut buf, QUEUE_DEPTH);
    intake.room(&mut queue);
    assert_eq!(intake.phase(), IntakePhase::Read);
    assert_eq!(fill_packet(&mut queue, &mut buf, QUEUE_DEPTH), Some(3));
    assert_eq!(&buf[..3], &[7, 8, 9]);
}

#[test]
fn packets_are_handed_over_once_even_when_writing_fails() {
    let mut queue = ByteQueue::new();
    let sent: Vec<u8> = (0..50).collect();
    queue.offer(&sent, 0);
    let mut outlet = debug_outlet();
    let mut handed: Vec<u8> = Vec::new();
    let mut written: Vec<u8> = Vec::new();
    for round in 0..4 {
        outlet.enabled();
        outlet.pull(&mut queue);
        handed.extend_from_slice(outlet.packet());
        if round % 2 == 0 {
            written.extend_from_slice(outlet.packet());
        }
        outlet.written(round % 2 == 0);
    }
    outlet.enabled();
    outlet.pull(&mut queue);
    assert_eq!(handed, sent[..32]);
    assert_eq!(written, [&sent[..8], &sent[16..24]].concat());
    assert_eq!(outlet.packet(), &sent[32..40]);
}

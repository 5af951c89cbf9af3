use ehci_debug_bridge::queue::{fill_packet, ByteQueue, QUEUE_DEPTH};

#[test]
fn a_new_queue_has_no_packet() {
    let mut queue = ByteQueue::new();
    let mut buf = [9u8; 4];
    assert_eq!(fill_packet(&mut queue, &mut buf, 4), None);
    assert_eq!(buf, [9, 9, 9, 9]);
}

#[test]
fn packets_are_drained_in_order() {
    let mut queue = ByteQueue::new();
    assert_eq!(queue.offer(&[1, 2, 3, 4, 5], 0), 5);
    let mut buf = [9u8; 4];
    assert_eq!(fill_packet(&mut queue, &mut buf, 3), Some(3));
    assert_eq!(buf, [1, 2, 3, 9]);
    assert_eq!(fill_packet(&mut queue, &mut buf, 3), Some(2));
    assert_eq!(buf, [4, 5, 3, 9]);
    assert_eq!(fill_packet(&mut queue, &mut buf, 3), None);
}

#[test]
fn a_packet_is_limited_by_its_buffer() {
    let mut queue = ByteQueue::new();
    queue.offer(&[1, 2, 3, 4, 5], 0);
    let mut buf = [0u8; 2];
    assert_eq!(fill_packet(&mut queue, &mut buf, 100), Some(2));
    assert_eq!(buf, [1, 2]);
}

#[test]
fn a_packet_carries_the_byte_that_it_waited_for() {
    let mut queue = ByteQueue::new();
    queue.offer(&[7, 8], 0);
    let mut buf = [0u8; 8];
    assert_eq!(fill_packet(&mut queue, &mut buf, 0), Some(1));
    assert_eq!(buf, [7, 0, 0, 0, 0, 0, 0, 0]);
    assert_eq!(fill_packet(&mut queue, &mut buf, 1), Some(1));
    assert_eq!(buf[0], 8);
}

#[test]
fn an_offer_starts_where_the_last_one_ended() {
    let mut queue = ByteQueue::new();
    assert_eq!(queue.offer(&[1, 2, 3], 1), 3);
    assert_eq!(queue.offer(&[1, 2, 3], 3), 3);
    let mut buf = [0u8; 8];
    assert_eq!(fill_packet(&mut queue, &mut buf, 8), Some(2));
    assert_eq!(&buf[..2], &[2, 3]);
}

#[test]
fn a_full_queue_takes_no_more() {
    let mut queue = ByteQueue::new();
    let many = vec![1u8; QUEUE_DEPTH - 1];
    assert_eq!(queue.offer(&many, 0), 4095);
    assert_eq!(queue.offer(&[2, 3, 4], 0), 1);
    assert_eq!(queue.offer(&[2, 3, 4], 1), 1);
    let mut buf = [0u8; 2];
    assert_eq!(fill_packet(&mut queue, &mut buf, 2), Some(2));
    assert_eq!(queue.offer(&[2, 3, 4], 1), 3);
    assert_eq!(queue.offer(&[5], 0), 0);
}

#[test]
fn a_long_run_keeps_every_byte_in_order() {
    let mut queue = ByteQueue::new();
    let sent: Vec<u8> = (0..10_000u32).map(|i| (i % 251) as u8).collect();
    let mut received: Vec<u8> = Vec::new();
    let mut next = 0;
    let mut buf = [0u8; 64];
    while received.len() < sent.len() {
        next = queue.offer(&sent, next);
        while let Some(n) = fill_packet(&mut queue, &mut buf, 63) {
            assert!(0 < n && n <= 63);
            received.extend_from_slice(&buf[..n]);
        }
    }
    assert_eq!(received, sent);
}

use ehci_debug_bridge::fanout::{fill_pubsub_packet, DutOutput, DutOutputStorage, Reader};
use ehci_debug_bridge::queue::QUEUE_DEPTH;

#[test]
fn both_readers_get_every_byte() {
    let mut storage = DutOutputStorage::new();
    let mut output = DutOutput::subscribe(&mut storage).unwrap();
    output.publish(&[1, 2, 3]);
    let mut buf = [0u8; 8];
    assert_eq!(fill_pubsub_packet(&mut output, Reader::Acm, &mut buf, 8), Some(3));
    assert_eq!(&buf[..3], &[1, 2, 3]);
    let mut buf = [0u8; 8];
    assert_eq!(fill_pubsub_packet(&mut output, Reader::Tcp, &mut buf, 2), Some(2));
    assert_eq!(buf, [1, 2, 0, 0, 0, 0, 0, 0]);
    assert_eq!(fill_pubsub_packet(&mut output, Reader::Tcp, &mut buf, 2), Some(1));
    assert_eq!(buf[0], 3);
    assert_eq!(fill_pubsub_packet(&mut output, Reader::Acm, &mut buf, 8), None);
    assert_eq!(fill_pubsub_packet(&mut output, Reader::Tcp, &mut buf, 8), None);
}

#[test]
fn a_packet_for_a_reader_carries_at_least_one_byte() {
    let mut storage = DutOutputStorage::new();
    let mut output = DutOutput::subscribe(&mut storage).unwrap();
    output.publish(&[5, 6]);
    let mut buf = [0u8; 1];
    assert_eq!(fill_pubsub_packet(&mut output, Reader::Acm, &mut buf, 0), Some(1));
    assert_eq!(buf, [5]);
}

#[test]
fn nothing_is_lost_up_to_the_depth() {
    let mut storage = DutOutputStorage::new();
    let mut output = DutOutput::subscribe(&mut storage).unwrap();
    let bytes: Vec<u8> = (0..QUEUE_DEPTH).map(|i| (i % 251) as u8).collect();
    output.publish(&bytes);
    let mut buf = [0u8; QUEUE_DEPTH];
    assert_eq!(
        fill_pubsub_packet(&mut output, Reader::Tcp, &mut buf, QUEUE_DEPTH),
        Some(4096)
    );
    assert_eq!(&buf[..], &bytes[..]);
}

#[test]
fn a_slow_reader_loses_its_oldest_bytes_and_the_other_none() {
    let mut storage = DutOutputStorage::new();
    let mut output = DutOutput::subscribe(&mut storage).unwrap();
    let first: Vec<u8> = (0..QUEUE_DEPTH).map(|i| (i % 251) as u8).collect();
    output.publish(&first);
    let mut buf = [0u8; 8];
    assert_eq!(fill_pubsub_packet(&mut output, Reader::Acm, &mut buf, 2), Some(2));
    output.publish(&[101, 102, 103]);

    // The ACM reader was two bytes ahead and loses one, the TCP reader three.
    assert_eq!(fill_pubsub_packet(&mut output, Reader::Acm, &mut buf, 1), Some(1));
    assert_eq!(buf[0], 3);
    assert_eq!(fill_pubsub_packet(&mut output, Reader::Tcp, &mut buf, 1), Some(1));
    assert_eq!(buf[0], 3);

    let mut rest = [0u8; QUEUE_DEPTH];
    assert_eq!(
        fill_pubsub_packet(&mut output, Reader::Acm, &mut rest, QUEUE_DEPTH),
        Some(4095)
    );
    assert_eq!(&rest[4092..4095], &[101, 102, 103]);
    assert_eq!(&rest[..4092], &first[4..]);
}

#[test]
fn readers_do_not_disturb_each_other() {
    let mut storage = DutOutputStorage::new();
    let mut output = DutOutput::subscribe(&mut storage).unwrap();
    let mut buf = [0u8; 8];
    let mut seen: Vec<u8> = Vec::new();
    for i in 0..5000u32 {
        output.publish(&[(i % 7) as u8]);
        let n = fill_pubsub_packet(&mut output, Reader::Acm, &mut buf, 8).unwrap();
        seen.extend_from_slice(&buf[..n]);
    }
    let published: Vec<u8> = (0..5000u32).map(|i| (i % 7) as u8).collect();
    assert_eq!(seen, published);
    let mut rest = [0u8; QUEUE_DEPTH];
    assert_eq!(
        fill_pubsub_packet(&mut output, Reader::Tcp, &mut rest, QUEUE_DEPTH),
        Some(4096)
    );
    assert_eq!(&rest[..], &published[5000 - 4096..]);
}

#[test]
fn a_storage_can_be_subscribed_again_after_its_readers_are_gone() {
    let mut storage = DutOutputStorage::new();
    {
        let mut output = DutOutput::subscribe(&mut storage).unwrap();
        output.publish(&[1, 2, 3]);
    }
    let mut output = DutOutput::subscribe(&mut storage).unwrap();
    let mut buf = [0u8; 8];
    assert_eq!(fill_pubsub_packet(&mut output, Reader::Acm, &mut buf, 8), None);
}

#[test]
fn a_storage_with_subscribers_left_in_it_is_refused() {
    let mut storage = DutOutputStorage::new();
    std::mem::forget(DutOutput::subscribe(&mut storage));
    assert!(DutOutput::subscribe(&mut storage).is_none());
}

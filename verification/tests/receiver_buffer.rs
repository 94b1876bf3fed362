//! Jitter buffer tests: in-order delivery, gap tolerance with silence
//! substitution, overflow eviction, stale rejection, and resynchronization.

use wifiparty::channelreceiver::ChannelReceiver;
use wifiparty::packet::Packet;

fn segment(base: i16, len: usize) -> Vec<i16> {
    let mut v = Vec::with_capacity(len);
    for k in 0..len {
        v.push(base + k as i16);
    }
    v
}

#[test]
fn in_order_delivery() {
    let mut receiver = ChannelReceiver::new("music");
    let mut segments = Vec::new();
    for idx in 0u32..5 {
        let data = segment(100 * idx as i16, 4);
        segments.push(data.clone());
        receiver.receive_packet(&Packet::new(0, idx, data));
    }
    assert_eq!(receiver.pending(), 5);
    assert_eq!(receiver.missed_list().len(), 0);
    for expected in &segments {
        assert_eq!(receiver.read(), *expected);
    }
    assert_eq!(receiver.pending(), 0);
}

#[test]
fn single_gap_silence() {
    let mut receiver = ChannelReceiver::new("music");
    let seg0 = segment(0, 4);
    let seg1 = segment(10, 4);
    let seg3 = segment(30, 4);
    receiver.receive_packet(&Packet::new(0, 0, seg0.clone()));
    receiver.receive_packet(&Packet::new(0, 1, seg1.clone()));
    receiver.receive_packet(&Packet::new(0, 3, seg3.clone()));
    assert_eq!(receiver.pending(), 4);
    assert_eq!(*receiver.missed_list(), vec![2]);
    assert_eq!(receiver.read(), seg0);
    assert_eq!(receiver.read(), seg1);
    // the missing segment comes out as silence of the expected length
    assert_eq!(receiver.read(), vec![0i16; 4]);
    assert_eq!(receiver.read(), seg3);
    assert_eq!(receiver.missed_list().len(), 0);
}

#[test]
fn overflow_eviction() {
    // capacity is 10: feeding 15 in-order packets keeps the last 10
    let mut receiver = ChannelReceiver::new("music");
    for idx in 0u32..15 {
        receiver.receive_packet(&Packet::new(0, idx, segment(idx as i16, 3)));
    }
    assert_eq!(receiver.pending(), 10);
    assert_eq!(receiver.last_index(), 14);
    assert_eq!(receiver.missed_list().len(), 0);
    for idx in 5u32..15 {
        assert_eq!(receiver.read(), segment(idx as i16, 3));
    }
    assert_eq!(receiver.pending(), 0);
}

#[test]
fn stale_duplicate_rejection() {
    let mut receiver = ChannelReceiver::new("music");
    receiver.receive_packet(&Packet::new(0, 0, segment(0, 2)));
    receiver.receive_packet(&Packet::new(0, 1, segment(1, 2)));
    receiver.receive_packet(&Packet::new(0, 3, segment(3, 2)));
    let lidx = receiver.last_index();
    let pending = receiver.pending();
    let missed = receiver.missed_list().clone();

    // a duplicate of the newest index and an older index change nothing
    receiver.receive_packet(&Packet::new(0, 3, segment(77, 2)));
    receiver.receive_packet(&Packet::new(0, 2, segment(88, 2)));
    assert_eq!(receiver.last_index(), lidx);
    assert_eq!(receiver.pending(), pending);
    assert_eq!(*receiver.missed_list(), missed);

    // the buffered contents are also unchanged
    assert_eq!(receiver.read(), segment(0, 2));
    assert_eq!(receiver.read(), segment(1, 2));
    assert_eq!(receiver.read(), vec![0i16; 2]);
    assert_eq!(receiver.read(), segment(3, 2));
}

#[test]
fn large_gap_resync() {
    let mut receiver = ChannelReceiver::new("music");
    for idx in 0u32..4 {
        receiver.receive_packet(&Packet::new(0, idx, segment(idx as i16, 2)));
    }
    receiver.receive_packet(&Packet::new(0, 5, segment(5, 2)));
    assert_eq!(receiver.last_index(), 5);
    assert_eq!(*receiver.missed_list(), vec![4]);

    // 16 = 5 + capacity + 1 cannot be represented in the window
    receiver.receive_packet(&Packet::new(0, 16, segment(16, 2)));
    assert_eq!(receiver.last_index(), 16);
    assert_eq!(receiver.missed_list().len(), 0);
    assert_eq!(receiver.pending(), 1);
    assert_eq!(receiver.read(), segment(16, 2));
}

#[test]
fn read_on_empty_gives_silence() {
    let mut receiver = ChannelReceiver::new("music");
    // before anything arrived, the expected segment length is zero
    assert_eq!(receiver.read(), Vec::<i16>::new());
    receiver.receive_packet(&Packet::new(0, 0, segment(1, 6)));
    assert_eq!(receiver.read(), segment(1, 6));
    // drained: a read yields silence of the expected length, never blocks
    assert_eq!(receiver.read(), vec![0i16; 6]);
    assert_eq!(receiver.last_index(), 0);
}

#[test]
fn starts_at_any_index() {
    let mut receiver = ChannelReceiver::new("music");
    assert!(!receiver.has_started());
    receiver.receive_packet(&Packet::new(0, 7, segment(7, 2)));
    assert!(receiver.has_started());
    assert_eq!(receiver.last_index(), 7);
    assert_eq!(receiver.read(), segment(7, 2));
}

#[test]
fn receiver_keeps_its_name() {
    let mut receiver = ChannelReceiver::new("left");
    assert_eq!(receiver.name().as_str(), "left");
    receiver.receive_packet(&Packet::new(0, 0, segment(0, 1)));
    receiver.read();
    assert_eq!(receiver.name().as_str(), "left");
}

//! Demultiplexing and send-side tests: routing by channel id, unknown ids,
//! the build step, and the send sequence counter.

use wifiparty::channel::Channel;
use wifiparty::channelreceiver::{ChannelReceiver, ChannelReceiverBuildConfig};
use wifiparty::demux::ChannelRegistry;
use wifiparty::packet::Packet;

#[test]
fn channel_demultiplexing() {
    let mut registry = ChannelRegistry::new();
    registry.register(0, "left");
    registry.register(1, "right");

    let encoded = Packet::new(1, 0, vec![5, 6, 7]).encode().unwrap();
    let packet = Packet::decode(encoded).unwrap();
    registry.deliver(&packet);

    // only the receiver registered for channel 1 saw the packet
    assert!(!registry.receiver_at(0).has_started());
    assert_eq!(registry.receiver_at(0).pending(), 0);
    assert!(registry.receiver_at(1).has_started());
    assert_eq!(registry.receiver_at(1).pending(), 1);
    assert_eq!(registry.read_at(1), vec![5, 6, 7]);
}

#[test]
fn unknown_channel_dropped() {
    let mut registry = ChannelRegistry::new();
    registry.register(0, "left");
    registry.register(1, "right");
    let packet = Packet::new(99, 0, vec![1]);
    registry.deliver(&packet);
    assert!(!registry.receiver_at(0).has_started());
    assert!(!registry.receiver_at(1).has_started());
}

#[test]
fn repeated_delivery_advances_one_receiver() {
    let mut registry = ChannelRegistry::new();
    registry.register(0, "left");
    registry.register(1, "right");
    registry.deliver(&Packet::new(1, 0, vec![1, 1]));
    registry.deliver(&Packet::new(1, 1, vec![2, 2]));
    assert_eq!(registry.receiver_at(1).last_index(), 1);
    assert_eq!(registry.receiver_at(1).pending(), 2);
    assert!(!registry.receiver_at(0).has_started());
}

#[test]
fn send_channel_counter() {
    let mut channel = Channel::new(String::from("left"), 3);
    assert_eq!(channel.send_index(), 0);
    let p0 = channel.next_packet(vec![1]);
    let p1 = channel.next_packet(vec![2]);
    let p2 = channel.next_packet(vec![3]);
    assert_eq!(channel.send_index(), 3);
    assert_eq!(p0.get_index(), 0);
    assert_eq!(p1.get_index(), 1);
    assert_eq!(p2.get_index(), 2);
    assert_eq!(p0.get_channel(), 3);
    assert_eq!(p2.get_channel(), 3);
    assert_eq!(channel.id(), 3);
    assert_eq!(channel.name().as_str(), "left");
}

#[test]
fn build_assigns_ids_in_order() {
    let config = ChannelReceiverBuildConfig::new(
        Some(String::from("239.195.10.10:8355")),
        vec![String::from("left"), String::from("right")],
    );
    assert_eq!(
        config.addr().as_deref(),
        Some("239.195.10.10:8355")
    );
    let (registry, channels) = ChannelReceiver::build(config);
    assert_eq!(registry.len(), 2);
    assert_eq!(registry.id_at(0), 0);
    assert_eq!(registry.id_at(1), 1);
    assert_eq!(registry.receiver_at(0).name().as_str(), "left");
    assert_eq!(registry.receiver_at(1).name().as_str(), "right");
    assert_eq!(channels.len(), 2);
    assert_eq!(channels[0].id(), 0);
    assert_eq!(channels[1].id(), 1);
    assert_eq!(channels[0].name().as_str(), "left");
    assert_eq!(channels[1].name().as_str(), "right");
    assert_eq!(channels[0].send_index(), 0);
}

#[test]
fn publisher_to_consumer_path() {
    // publisher side: build the packet and its wire image
    let config = ChannelReceiverBuildConfig::new(None, vec![String::from("a"), String::from("b")]);
    let (mut registry, mut channels) = ChannelReceiver::build(config);
    let bytes = channels[1].next_packet(vec![9, 8, 7]).encode().unwrap();

    // receiver side: decode the datagram and route it
    let packet = Packet::decode(bytes).unwrap();
    registry.deliver(&packet);
    assert_eq!(registry.read_at(1), vec![9, 8, 7]);
    assert!(!registry.receiver_at(0).has_started());
}

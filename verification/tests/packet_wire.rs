//! Wire-format tests: round trips, exact byte layout, and rejection of
//! malformed buffers.

use wifiparty::packet::{DecodeError, EncodeError, Packet};

#[test]
fn test_packet() {
    let packet = Packet::new(0, 0, vec![0, 1, 2, 3, 4, 5, 6, 7, 8, 9]);
    let encoded = packet.encode().unwrap();

    let a = Packet::decode(encoded).unwrap();

    assert_eq!(a.get_data(), vec![0, 1, 2, 3, 4, 5, 6, 7, 8, 9]);

    assert_eq!(a.get_channel(), 0);
    assert_eq!(a.get_index(), 0);
}

#[test]
fn round_trip_preserves_fields() {
    let samples: Vec<i16> = vec![-32768, -1, 0, 1, 32767, 256, -257];
    let packet = Packet::new(7, 4242, samples.clone());
    let encoded = packet.encode().unwrap();
    let decoded = Packet::decode(encoded).unwrap();
    assert_eq!(decoded.get_channel(), 7);
    assert_eq!(decoded.get_index(), 4242);
    assert_eq!(decoded.get_data(), samples);
}

#[test]
fn wire_layout_exact() {
    // channel 0x01020304, index 0x0A0B0C0D, samples 0x0102 and -2.
    let packet = Packet::new(0x01020304, 0x0A0B0C0D, vec![0x0102, -2]);
    let encoded = packet.encode().unwrap();
    assert_eq!(
        encoded,
        vec![
            b'w', b'p', b'p', 0, // magic
            1, 2, 3, 4, // channel, big endian
            0x0A, 0x0B, 0x0C, 0x0D, // index, big endian
            1, 2, // 0x0102, big endian
            0xFF, 0xFE, // -2, two's complement, big endian
        ]
    );
}

#[test]
fn empty_payload_round_trip() {
    let packet = Packet::new(3, 9, vec![]);
    let encoded = packet.encode().unwrap();
    assert_eq!(encoded.len(), 12);
    let decoded = Packet::decode(encoded).unwrap();
    assert_eq!(decoded.get_channel(), 3);
    assert_eq!(decoded.get_index(), 9);
    assert_eq!(decoded.get_data(), Vec::<i16>::new());
}

#[test]
fn decode_truncated_header() {
    assert_eq!(Packet::decode(vec![]).err(), Some(DecodeError::Truncated));
    assert_eq!(
        Packet::decode(vec![b'w', b'p', b'p', 0, 0, 0, 0, 0, 0, 0, 0]).err(),
        Some(DecodeError::Truncated)
    );
}

#[test]
fn decode_odd_payload() {
    let mut buf = Packet::new(1, 2, vec![5, 6]).encode().unwrap();
    buf.push(0xAA);
    assert_eq!(Packet::decode(buf).err(), Some(DecodeError::OddPayload));
}

#[test]
fn decode_bad_magic() {
    let mut buf = Packet::new(1, 2, vec![5, 6]).encode().unwrap();
    buf[3] = b'x';
    assert_eq!(Packet::decode(buf).err(), Some(DecodeError::BadMagic));
}

#[test]
fn truncation_reported_before_magic() {
    // a short buffer without the magic is reported as truncated
    assert_eq!(
        Packet::decode(vec![0xDE, 0xAD, 0xBE, 0xEF, 1, 2, 3]).err(),
        Some(DecodeError::Truncated)
    );
}

#[test]
fn encode_received_packet_refused() {
    let encoded = Packet::new(1, 2, vec![3]).encode().unwrap();
    let received = Packet::decode(encoded).unwrap();
    assert_eq!(received.encode(), Err(EncodeError::ReceivedPacket));
}

//! Wire-format round trips and malformed-input rejection.

use hebo::base::{read_varint, write_varint, DecodeError, FixedHeader, PacketType, QoS};
use hebo::byte_array::ByteArray;
use hebo::data::{BinaryData, StringData};
use hebo::string_pair_data::StringPairData;
use hebo::u16_data::U16Data;
use hebo::stream::{detect_frame, FrameStatus};
use hebo::v3::{
    ConnectAckPacket, ConnectReturnCode, DisconnectPacket, PingRequestPacket, PingResponsePacket,
    PublishAckPacket, PublishCompletePacket, PublishPacket, PublishReceivedPacket,
    PublishReleasePacket, SubscribeAck, SubscribeAckPacket, SubscribePacket, SubscribeTopic,
    UnsubscribeAckPacket, UnsubscribePacket,
};

#[test]
fn byte_array_reads() {
    let data = [1u8, 2, 3, 4, 5, 6, 7];
    let mut ba = ByteArray::new(&data);
    assert_eq!(ba.len(), 7);
    assert_eq!(ba.read_byte().unwrap(), 1);
    assert_eq!(ba.read_u16().unwrap(), 0x0203);
    assert_eq!(ba.read_u32().unwrap(), 0x04050607);
    assert_eq!(ba.remaining_bytes(), 0);
    assert!(ba.read_byte().is_err());
    ba.reset_offset();
    assert_eq!(ba.read_byte().unwrap(), 1);
}

#[test]
fn byte_array_read_string() {
    let data = [104u8, 105];
    let mut ba = ByteArray::new(&data);
    assert_eq!(ba.read_string(2).unwrap(), "hi");
    let bad = [0xffu8, 0xfe];
    let mut ba = ByteArray::new(&bad);
    assert!(ba.read_string(2).is_err());
}

#[test]
fn varint_round_trips() {
    for v in [0u32, 1, 127, 128, 16383, 16384, 2097151, 2097152, 268435455] {
        let mut buf: Vec<u8> = Vec::new();
        write_varint(&mut buf, v);
        let mut ba = ByteArray::new(&buf);
        assert_eq!(read_varint(&mut ba).unwrap(), v);
    }
}

#[test]
fn varint_known_bytes() {
    let mut buf: Vec<u8> = Vec::new();
    write_varint(&mut buf, 321);
    assert_eq!(buf, vec![0xC1, 0x02]);
}

#[test]
fn varint_rejects_over_four_bytes() {
    let data = [0x80u8, 0x80, 0x80, 0x80, 0x01];
    let mut ba = ByteArray::new(&data);
    assert!(read_varint(&mut ba).is_err());
}

#[test]
fn string_data_round_trip() {
    let d = StringData::from_str("hello").unwrap();
    let mut buf: Vec<u8> = Vec::new();
    d.encode(&mut buf).unwrap();
    assert_eq!(buf, vec![0, 5, 104, 101, 108, 108, 111]);
    let mut ba = ByteArray::new(&buf);
    let q = StringData::decode(&mut ba).unwrap();
    assert_eq!(q.as_str(), "hello");
}

#[test]
fn string_data_rejects_nul() {
    assert!(StringData::from_str("a\u{0}b").is_err());
}

#[test]
fn binary_data_round_trip() {
    let d = BinaryData::from_slice(&[9, 8, 7]).unwrap();
    let mut buf: Vec<u8> = Vec::new();
    d.encode(&mut buf).unwrap();
    assert_eq!(buf, vec![0, 3, 9, 8, 7]);
    let mut ba = ByteArray::new(&buf);
    let q = BinaryData::decode(&mut ba).unwrap();
    assert_eq!(q.as_slice(), &[9, 8, 7]);
}

#[test]
fn string_pair_round_trip() {
    let d = StringPairData::new("k", "v").unwrap();
    let mut buf: Vec<u8> = Vec::new();
    d.encode(&mut buf).unwrap();
    let mut ba = ByteArray::new(&buf);
    let q = StringPairData::decode(&mut ba).unwrap();
    assert_eq!(q.key().as_str(), "k");
    assert_eq!(q.value().as_str(), "v");
}

#[test]
fn u16_data_round_trip() {
    let d = U16Data::new(0xBEEF);
    assert_eq!(d.value(), 0xBEEF);
    assert_eq!(d.bytes(), 2);
    assert_eq!(U16Data::const_bytes(), 2);
    let mut buf: Vec<u8> = Vec::new();
    d.encode(&mut buf);
    assert_eq!(buf, vec![0xBE, 0xEF]);
    let mut ba = ByteArray::new(&buf);
    assert_eq!(U16Data::decode(&mut ba).unwrap().value(), 0xBEEF);
}

#[test]
fn ack_packets_round_trip() {
    let mut buf: Vec<u8> = Vec::new();
    PublishAckPacket::new(17).encode(&mut buf).unwrap();
    assert_eq!(buf, vec![0x40, 2, 0, 17]);
    let mut ba = ByteArray::new(&buf);
    assert_eq!(PublishAckPacket::decode(&mut ba).unwrap().packet_id(), 17);

    let mut buf: Vec<u8> = Vec::new();
    PublishReceivedPacket::new(42).encode(&mut buf).unwrap();
    assert_eq!(buf, vec![0x50, 2, 0, 42]);
    let mut ba = ByteArray::new(&buf);
    assert_eq!(PublishReceivedPacket::decode(&mut ba).unwrap().packet_id(), 42);

    // PUBREL carries the 0b0010 flag nibble.
    let mut buf: Vec<u8> = Vec::new();
    PublishReleasePacket::new(42).encode(&mut buf).unwrap();
    assert_eq!(buf, vec![0x62, 2, 0, 42]);
    let mut ba = ByteArray::new(&buf);
    assert_eq!(PublishReleasePacket::decode(&mut ba).unwrap().packet_id(), 42);

    let mut buf: Vec<u8> = Vec::new();
    PublishCompletePacket::new(42).encode(&mut buf).unwrap();
    assert_eq!(buf, vec![0x70, 2, 0, 42]);

    let mut buf: Vec<u8> = Vec::new();
    UnsubscribeAckPacket::new(9).encode(&mut buf).unwrap();
    assert_eq!(buf, vec![0xB0, 2, 0, 9]);
    let mut ba = ByteArray::new(&buf);
    assert_eq!(UnsubscribeAckPacket::decode(&mut ba).unwrap().packet_id(), 9);
}

#[test]
fn ack_packet_rejects_wrong_flags() {
    // PUBREL without the required 0b0010 nibble.
    let buf = vec![0x60u8, 2, 0, 42];
    let mut ba = ByteArray::new(&buf);
    assert!(matches!(
        PublishReleasePacket::decode(&mut ba),
        Err(DecodeError::InvalidFixedHeader)
    ));
}

#[test]
fn disconnect_round_trip() {
    let mut buf: Vec<u8> = Vec::new();
    DisconnectPacket::new().encode(&mut buf).unwrap();
    assert_eq!(buf, vec![0xE0, 0]);
    let mut ba = ByteArray::new(&buf);
    assert!(DisconnectPacket::decode(&mut ba).is_ok());
}

#[test]
fn malformed_first_byte_is_not_a_connect() {
    // A stream that starts with the CONNACK packet type is refused.
    let buf = vec![0x20u8, 2, 0, 0];
    let mut ba = ByteArray::new(&buf);
    assert!(matches!(
        hebo::v3::ConnectPacket::decode(&mut ba),
        Err(DecodeError::InvalidPacketType)
    ));
}

#[test]
fn fixed_header_rejects_reserved_type() {
    let buf = vec![0x00u8, 0];
    let mut ba = ByteArray::new(&buf);
    assert!(matches!(
        FixedHeader::decode(&mut ba),
        Err(DecodeError::InvalidPacketType)
    ));
    let buf = vec![0xF0u8, 0];
    let mut ba = ByteArray::new(&buf);
    assert!(FixedHeader::decode(&mut ba).is_err());
}

#[test]
fn publish_round_trip_qos0() {
    let p = PublishPacket::new("sport/tennis", QoS::AtMostOnce, b"hi").unwrap();
    let mut buf: Vec<u8> = Vec::new();
    p.encode(&mut buf).unwrap();
    assert_eq!(
        buf,
        vec![
            0x30, 16, 0, 12, b's', b'p', b'o', b'r', b't', b'/', b't', b'e', b'n', b'n', b'i',
            b's', b'h', b'i'
        ]
    );
    let mut ba = ByteArray::new(&buf);
    let q = PublishPacket::decode(&mut ba).unwrap();
    assert_eq!(q.topic(), "sport/tennis");
    assert_eq!(q.message(), b"hi");
    assert!(matches!(q.qos(), QoS::AtMostOnce));
    assert!(!q.dup());
    assert!(!q.retain());
}

#[test]
fn publish_round_trip_qos2() {
    let mut p = PublishPacket::new("t", QoS::ExactOnce, b"x").unwrap();
    p.set_packet_id(42);
    let mut buf: Vec<u8> = Vec::new();
    p.encode(&mut buf).unwrap();
    let mut ba = ByteArray::new(&buf);
    let q = PublishPacket::decode(&mut ba).unwrap();
    assert_eq!(q.packet_id(), 42);
    assert!(matches!(q.qos(), QoS::ExactOnce));
    let mut buf2: Vec<u8> = Vec::new();
    q.encode(&mut buf2).unwrap();
    assert_eq!(buf, buf2);
}

#[test]
fn publish_rejects_dup_on_qos0() {
    // Flag nibble 0b1000: duplicate on a fire-and-forget message.
    let buf = vec![0x38u8, 5, 0, 1, b't', b'h', b'i'];
    let mut ba = ByteArray::new(&buf);
    assert!(matches!(
        PublishPacket::decode(&mut ba),
        Err(DecodeError::InvalidPacketFlags)
    ));
}

#[test]
fn publish_rejects_zero_packet_id() {
    let buf = vec![0x32u8, 7, 0, 1, b't', 0, 0, b'h', b'i'];
    let mut ba = ByteArray::new(&buf);
    assert!(matches!(
        PublishPacket::decode(&mut ba),
        Err(DecodeError::InvalidPacketId)
    ));
}

#[test]
fn subscribe_round_trip() {
    let p = SubscribePacket::new("sport/tennis", QoS::AtLeastOnce, 7).unwrap();
    let mut buf: Vec<u8> = Vec::new();
    p.encode(&mut buf).unwrap();
    assert_eq!(
        buf,
        vec![
            0x82, 17, 0, 7, 0, 12, b's', b'p', b'o', b'r', b't', b'/', b't', b'e', b'n', b'n',
            b'i', b's', 1
        ]
    );
    let mut ba = ByteArray::new(&buf);
    let q = SubscribePacket::decode(&mut ba).unwrap();
    assert_eq!(q.packet_id(), 7);
    assert_eq!(q.topics().len(), 1);
    assert_eq!(q.topics()[0].topic(), "sport/tennis");
    assert!(matches!(q.topics()[0].qos(), QoS::AtLeastOnce));
}

#[test]
fn subscribe_rejects_zero_packet_id() {
    let buf = vec![0x82u8, 6, 0, 0, 0, 1, b'a', 0];
    let mut ba = ByteArray::new(&buf);
    assert!(matches!(
        SubscribePacket::decode(&mut ba),
        Err(DecodeError::InvalidPacketId)
    ));
}

#[test]
fn subscribe_rejects_empty_topic_list() {
    let buf = vec![0x82u8, 2, 0, 7];
    let mut ba = ByteArray::new(&buf);
    assert!(matches!(
        SubscribePacket::decode(&mut ba),
        Err(DecodeError::EmptyTopicFilter)
    ));
}

#[test]
fn subscribe_rejects_bad_qos_byte() {
    let buf = vec![0x82u8, 6, 0, 7, 0, 1, b'a', 3];
    let mut ba = ByteArray::new(&buf);
    assert!(matches!(
        SubscribePacket::decode(&mut ba),
        Err(DecodeError::InvalidQoS)
    ));
}

#[test]
fn subscribe_topic_list_edit() {
    let mut p = SubscribePacket::new("a", QoS::AtMostOnce, 3).unwrap();
    let extra = SubscribeTopic::new(String::from("b/+"), QoS::ExactOnce).unwrap();
    p.set_topics(&[extra.duplicate()]);
    assert_eq!(p.topics().len(), 1);
    assert_eq!(p.topics()[0].topic(), "b/+");
    p.mut_topics().push(extra);
    assert_eq!(p.topics().len(), 2);
    p.set_packet_id(9);
    assert_eq!(p.packet_id(), 9);
}

#[test]
fn packet_type_codes() {
    assert_eq!(PacketType::from(3u8), PacketType::Publish);
    assert_eq!(PacketType::from(14u8), PacketType::Disconnect);
    assert_eq!(PacketType::from(99u8), PacketType::Unknown);
    assert_eq!(PacketType::Subscribe.code(), 8);
}

#[test]
fn qos_conversions() {
    assert_eq!(QoS::try_from(0).unwrap().value(), 0);
    assert_eq!(QoS::try_from(2).unwrap().value(), 2);
    assert!(QoS::try_from(3).is_err());
    assert!(matches!(QoS::AtLeastOnce.min(QoS::ExactOnce), QoS::AtLeastOnce));
    assert!(matches!(QoS::ExactOnce.min(QoS::AtMostOnce), QoS::AtMostOnce));
}

#[test]
fn connect_ack_round_trip() {
    let p = ConnectAckPacket::new(ConnectReturnCode::Accepted, true);
    let mut buf: Vec<u8> = Vec::new();
    p.encode(&mut buf).unwrap();
    assert_eq!(buf, vec![0x20, 2, 1, 0]);
    let mut ba = ByteArray::new(&buf);
    let q = ConnectAckPacket::decode(&mut ba).unwrap();
    assert!(q.session_present());
    assert!(matches!(q.return_code(), ConnectReturnCode::Accepted));

    let p = ConnectAckPacket::new(ConnectReturnCode::NotAuthorized, false);
    let mut buf: Vec<u8> = Vec::new();
    p.encode(&mut buf).unwrap();
    assert_eq!(buf, vec![0x20, 2, 0, 5]);
}

#[test]
fn subscribe_ack_round_trip() {
    let p = SubscribeAckPacket::new(
        7,
        vec![
            SubscribeAck::QoS(QoS::AtLeastOnce),
            SubscribeAck::Failed,
            SubscribeAck::QoS(QoS::AtMostOnce),
        ],
    );
    let mut buf: Vec<u8> = Vec::new();
    p.encode(&mut buf).unwrap();
    assert_eq!(buf, vec![0x90, 5, 0, 7, 1, 128, 0]);
    let mut ba = ByteArray::new(&buf);
    let q = SubscribeAckPacket::decode(&mut ba).unwrap();
    assert_eq!(q.packet_id(), 7);
    assert_eq!(q.acks().len(), 3);
    assert!(matches!(q.acks()[1], SubscribeAck::Failed));
}

#[test]
fn unsubscribe_round_trip() {
    let p = UnsubscribePacket::new("sport/tennis", 9).unwrap();
    let mut buf: Vec<u8> = Vec::new();
    p.encode(&mut buf).unwrap();
    assert_eq!(
        buf,
        vec![
            0xA2, 16, 0, 9, 0, 12, b's', b'p', b'o', b'r', b't', b'/', b't', b'e', b'n', b'n',
            b'i', b's'
        ]
    );
    let mut ba = ByteArray::new(&buf);
    let q = UnsubscribePacket::decode(&mut ba).unwrap();
    assert_eq!(q.packet_id(), 9);
    assert_eq!(q.topics().len(), 1);
    assert_eq!(q.topics()[0].as_str(), "sport/tennis");
}

#[test]
fn ping_packets_round_trip() {
    let mut buf: Vec<u8> = Vec::new();
    PingRequestPacket::new().encode(&mut buf).unwrap();
    assert_eq!(buf, vec![0xC0, 0]);
    let mut ba = ByteArray::new(&buf);
    assert!(PingRequestPacket::decode(&mut ba).is_ok());

    let mut buf: Vec<u8> = Vec::new();
    PingResponsePacket::new().encode(&mut buf).unwrap();
    assert_eq!(buf, vec![0xD0, 0]);
    let mut ba = ByteArray::new(&buf);
    assert!(PingResponsePacket::decode(&mut ba).is_ok());
}

#[test]
fn frame_detection() {
    // A full four-byte PUBACK in the buffer.
    assert!(matches!(detect_frame(&[0x40, 2, 0, 7], 1024), FrameStatus::Complete(4)));
    // Extra bytes after the packet do not change its length.
    assert!(matches!(detect_frame(&[0x40, 2, 0, 7, 9, 9], 1024), FrameStatus::Complete(4)));
    // Body bytes still missing.
    assert!(matches!(detect_frame(&[0x40, 2, 0], 1024), FrameStatus::NeedMore));
    assert!(matches!(detect_frame(&[], 1024), FrameStatus::NeedMore));
    // A packet over the size cap fails the connection.
    assert!(matches!(detect_frame(&[0x40, 200, 1, 0], 10), FrameStatus::Invalid));
    // A remaining length of more than four bytes is broken framing.
    assert!(matches!(
        detect_frame(&[0x40, 0x80, 0x80, 0x80, 0x80, 1], 1024),
        FrameStatus::Invalid
    ));
}

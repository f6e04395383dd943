//! CONNECT packet decoding and round trips.

use hebo::base::{DecodeError, QoS, Version};
use hebo::v5::Property;
use hebo::byte_array::ByteArray;
use hebo::v3::ConnectPacket;

#[test]
fn test_decode() {
    let buf: Vec<u8> = vec![
        16, 20, 0, 4, 77, 81, 84, 84, 4, 2, 0, 60, 0, 8, 119, 118, 80, 84, 88, 99, 67, 119,
    ];
    let mut ba = ByteArray::new(&buf);
    let packet = ConnectPacket::decode(&mut ba);
    assert!(packet.is_ok());
    let packet = packet.unwrap();
    assert_eq!(packet.client_id(), "wvPTXcCw");
}

#[test]
fn connect_packet_test_decode() {
    // The same bytes carry protocol level 4, so they are not an MQTT 5
    // CONNECT: the version is chosen by this byte and the 5.0 decoder
    // rejects any other.
    let buf: Vec<u8> = vec![
        16, 20, 0, 4, 77, 81, 84, 84, 4, 2, 0, 60, 0, 8, 119, 118, 80, 84, 88, 99, 67, 119,
    ];
    let mut ba = ByteArray::new(&buf);
    let packet = hebo::v5::ConnectPacket::decode(&mut ba);
    assert!(matches!(packet, Err(DecodeError::InvalidProtocolLevel)));
}

#[test]
fn connect_decode_fields() {
    let buf: Vec<u8> = vec![
        16, 20, 0, 4, 77, 81, 84, 84, 4, 2, 0, 60, 0, 8, 119, 118, 80, 84, 88, 99, 67, 119,
    ];
    let mut ba = ByteArray::new(&buf);
    let packet = ConnectPacket::decode(&mut ba).unwrap();
    assert_eq!(packet.keep_alive(), 60);
    assert!(matches!(packet.protocol_level(), Version::V311));
    assert!(packet.connect_flags().clean_session());
    assert!(!packet.connect_flags().will());
    assert!(packet.will_topic().is_none());
}

#[test]
fn connect_round_trip() {
    let mut p = ConnectPacket::new("client1").unwrap();
    p.set_keep_alive(30);
    p.set_will_topic("status/client1").unwrap();
    p.set_will_message(b"gone").unwrap();
    p.set_qos(QoS::AtLeastOnce);
    p.set_username("user").unwrap();
    let mut flags = *p.connect_flags();
    flags.set_clean_session(true);
    p.set_connect_flags(flags);

    let mut buf: Vec<u8> = Vec::new();
    let n = p.encode(&mut buf).unwrap();
    assert_eq!(n, buf.len());

    let mut ba = ByteArray::new(&buf);
    let q = ConnectPacket::decode(&mut ba).unwrap();
    assert_eq!(q.client_id(), "client1");
    assert_eq!(q.keep_alive(), 30);
    assert_eq!(q.will_topic(), Some("status/client1"));
    assert_eq!(q.will_message(), b"gone");
    assert_eq!(q.username(), "user");
    assert!(q.connect_flags().clean_session());

    // Decoding what was encoded gives the same bytes back on re-encode.
    let mut buf2: Vec<u8> = Vec::new();
    q.encode(&mut buf2).unwrap();
    assert_eq!(buf, buf2);
}

#[test]
fn connect_rejects_bad_protocol_name() {
    // "MQTX" in place of "MQTT".
    let buf: Vec<u8> = vec![16, 12, 0, 4, 77, 81, 84, 88, 4, 2, 0, 60, 0, 0];
    let mut ba = ByteArray::new(&buf);
    assert!(matches!(
        ConnectPacket::decode(&mut ba),
        Err(DecodeError::InvalidProtocolName)
    ));
}

#[test]
fn connect_rejects_reserved_flag_bit() {
    // Connect flags 0x03: reserved bit set.
    let buf: Vec<u8> = vec![16, 12, 0, 4, 77, 81, 84, 84, 4, 3, 0, 60, 0, 0];
    let mut ba = ByteArray::new(&buf);
    assert!(matches!(
        ConnectPacket::decode(&mut ba),
        Err(DecodeError::InvalidConnectFlags)
    ));
}

#[test]
fn connect_rejects_empty_client_id_without_clean_session() {
    // Clean-session off with a zero-length client identifier.
    let buf: Vec<u8> = vec![16, 12, 0, 4, 77, 81, 84, 84, 4, 0, 0, 60, 0, 0];
    let mut ba = ByteArray::new(&buf);
    assert!(matches!(
        ConnectPacket::decode(&mut ba),
        Err(DecodeError::InvalidClientId)
    ));
}

#[test]
fn connect_rejects_wrong_remaining_length() {
    // Remaining length says 21 but the body carries one byte more.
    let buf: Vec<u8> = vec![
        16, 21, 0, 4, 77, 81, 84, 84, 4, 2, 0, 60, 0, 8, 119, 118, 80, 84, 88, 99, 67, 119, 0,
    ];
    let mut ba = ByteArray::new(&buf);
    assert!(ConnectPacket::decode(&mut ba).is_err());
}

#[test]
fn connect_v5_round_trip() {
    let mut p = hebo::v5::ConnectPacket::new("client5").unwrap();
    p.set_keep_alive(25);
    p.set_clean_session(true);
    p.set_username(Some("user")).unwrap();

    let mut buf: Vec<u8> = Vec::new();
    let n = p.encode(&mut buf).unwrap();
    assert_eq!(n, buf.len());

    let mut ba = ByteArray::new(&buf);
    let q = hebo::v5::ConnectPacket::decode(&mut ba).unwrap();
    assert_eq!(q.client_id(), "client5");
    assert_eq!(q.keep_alive(), 25);
    assert!(q.clean_session());
    assert_eq!(q.username(), Some("user"));
    assert!(q.password().is_none());

    let mut buf2: Vec<u8> = Vec::new();
    q.encode(&mut buf2).unwrap();
    assert_eq!(buf, buf2);
}

#[test]
fn connect_v5_with_properties_round_trip() {
    let mut p = hebo::v5::ConnectPacket::new("c5props").unwrap();
    p.set_clean_session(true);
    let props = vec![
        Property::SessionExpiryInterval(3600),
        Property::ReceiveMaximum(hebo::u16_data::U16Data::new(20)),
    ];
    p.set_properties(props);

    let mut buf: Vec<u8> = Vec::new();
    p.encode(&mut buf).unwrap();

    let mut ba = ByteArray::new(&buf);
    let q = hebo::v5::ConnectPacket::decode(&mut ba).unwrap();
    assert_eq!(q.properties().len(), 2);
    assert!(matches!(q.properties()[0], Property::SessionExpiryInterval(3600)));
}

#[test]
fn client_id_rules() {
    assert!(ConnectPacket::new("").is_err());
    assert!(ConnectPacket::new("abcDEF0123").is_ok());
    assert!(ConnectPacket::new("has space").is_err());
    assert!(ConnectPacket::new("123456789012345678901234").is_err());
}

//! MQTT 5 acknowledgement and property coding.

use hebo::byte_array::ByteArray;
use hebo::data::StringData;
use hebo::v5::connect_packet::ConnectPacket;
use hebo::v5::{Properties, Property, PublishAckPacket, ReasonCode};

#[test]
fn puback_short_form() {
    let p = PublishAckPacket::new(7);
    let mut buf: Vec<u8> = Vec::new();
    p.encode(&mut buf).unwrap();
    assert_eq!(buf, vec![0x40, 2, 0, 7]);
    let mut ba = ByteArray::new(&buf);
    let q = PublishAckPacket::decode(&mut ba).unwrap();
    assert_eq!(q.packet_id(), 7);
    assert!(matches!(q.reason_code(), ReasonCode::Success));
    assert!(q.properties().is_empty());
}

#[test]
fn puback_with_reason_code() {
    let mut p = PublishAckPacket::new(8);
    p.set_reason_code(ReasonCode::NotAuthorized);
    let mut buf: Vec<u8> = Vec::new();
    p.encode(&mut buf).unwrap();
    assert_eq!(buf, vec![0x40, 3, 0, 8, 135]);
    let mut ba = ByteArray::new(&buf);
    let q = PublishAckPacket::decode(&mut ba).unwrap();
    assert_eq!(q.packet_id(), 8);
    assert!(matches!(q.reason_code(), ReasonCode::NotAuthorized));
}

#[test]
fn puback_with_properties_round_trip() {
    let mut p = PublishAckPacket::new(9);
    p.set_reason_code(ReasonCode::QuotaExceeded);
    let reason = StringData::from_str("over quota").unwrap();
    p.mut_properties().push(Property::ReasonString(reason));
    let mut buf: Vec<u8> = Vec::new();
    p.encode(&mut buf).unwrap();
    let mut ba = ByteArray::new(&buf);
    let q = PublishAckPacket::decode(&mut ba).unwrap();
    assert_eq!(q.packet_id(), 9);
    assert!(matches!(q.reason_code(), ReasonCode::QuotaExceeded));
    assert_eq!(q.properties().len(), 1);
    assert!(matches!(&q.properties()[0], Property::ReasonString(_)));
    // Re-encoding what was decoded gives the same bytes.
    let mut buf2: Vec<u8> = Vec::new();
    q.encode(&mut buf2).unwrap();
    assert_eq!(buf, buf2);
}

#[test]
fn puback_long_form_with_success_decodes() {
    // Three-byte form spelling out the Success reason.
    let buf = vec![0x40u8, 3, 0, 7, 0];
    let mut ba = ByteArray::new(&buf);
    let q = PublishAckPacket::decode(&mut ba).unwrap();
    assert_eq!(q.packet_id(), 7);
    assert!(matches!(q.reason_code(), ReasonCode::Success));
}

#[test]
fn puback_rejects_unknown_reason_code() {
    let buf = vec![0x40u8, 3, 0, 7, 1];
    let mut ba = ByteArray::new(&buf);
    assert!(PublishAckPacket::decode(&mut ba).is_err());
}

#[test]
fn puback_rejects_whitelisted_property_violation() {
    // A SessionExpiryInterval property (identifier 17) may not appear in a
    // PUBACK property block.
    let buf = vec![0x40u8, 9, 0, 7, 0, 5, 17, 0, 0, 0, 1];
    let mut ba = ByteArray::new(&buf);
    assert!(PublishAckPacket::decode(&mut ba).is_err());
}

#[test]
fn property_block_rejects_duplicate_scalar() {
    // Two SessionExpiryInterval properties in one CONNECT block.
    let mut p = ConnectPacket::new("dup1").unwrap();
    p.set_clean_session(true);
    let props: Properties = vec![
        Property::SessionExpiryInterval(1),
        Property::SessionExpiryInterval(2),
    ];
    p.set_properties(props);
    let mut base = ConnectPacket::new("dup1").unwrap();
    base.set_clean_session(true);
    let mut buf: Vec<u8> = Vec::new();
    base.encode(&mut buf).unwrap();
    // Splice a duplicated-property block in by hand: the decoder refuses it.
    let dup_block = vec![10u8, 17, 0, 0, 0, 1, 17, 0, 0, 0, 2];
    let mut raw: Vec<u8> = Vec::new();
    raw.push(16);
    raw.push((buf.len() - 2 + 10) as u8);
    raw.extend_from_slice(&buf[2..12]);
    raw.extend_from_slice(&dup_block);
    raw.extend_from_slice(&buf[13..]);
    let mut ba = ByteArray::new(&raw);
    assert!(ConnectPacket::decode(&mut ba).is_err());
}

#[test]
fn reason_code_values() {
    assert_eq!(ReasonCode::Success.value(), 0);
    assert_eq!(ReasonCode::NotAuthorized.value(), 135);
    assert!(ReasonCode::try_from(135).is_ok());
    assert!(ReasonCode::try_from(7).is_err());
}

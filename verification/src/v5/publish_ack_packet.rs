//! The MQTT 5 PUBACK packet: packet identifier, reason code, properties.
//!
//! When the reason code is Success and there are no properties, only the
//! packet identifier goes on the wire; a decoder accepts the longer forms
//! as well and fills in the defaults.

use vstd::prelude::*;
use crate::base::{DecodeError, EncodeError, FixedHeader, PacketId, PacketType, VARINT_MAX,
    spec_encode_fixed_header};
use crate::byte_array::ByteArray;
use crate::data::append_u16;
use crate::utils::be_u16_bytes;
use crate::v5::property::{check_property_type_list, decode_property_block, encode_property_block,
    has_duplicate_property, spec_encode_property_block, spec_encode_props, spec_props_legal,
    spec_props_wf, Properties, PropertyType};
use crate::v5::reason_code::{spec_reason_code_value, ReasonCode};

verus! {

/// The property types a PUBACK may carry.
pub open spec fn spec_publish_ack_allowed() -> Seq<PropertyType> {
    seq![PropertyType::ReasonString, PropertyType::UserProperty]
}

/// The body of a PUBACK: short when the reason is Success with no
/// properties, else the reason code and, when any, the property block.
pub open spec fn spec_publish_ack_body(
    packet_id: PacketId,
    reason_code: ReasonCode,
    props: Seq<crate::v5::property::Property>,
) -> Seq<u8> {
    be_u16_bytes(packet_id) + (if reason_code == ReasonCode::Success && props.len() == 0 {
        Seq::<u8>::empty()
    } else if props.len() == 0 {
        seq![spec_reason_code_value(reason_code)]
    } else {
        seq![spec_reason_code_value(reason_code)] + spec_encode_property_block(props)
    })
}

/// The bytes of a PUBACK packet.
pub open spec fn spec_encode_publish_ack5(p: PublishAckPacket) -> Seq<u8> {
    spec_encode_fixed_header(
        FixedHeader {
            packet_type: PacketType::PubAck,
            packet_flags: crate::base::PacketFlags::Reserved,
            remaining_length: spec_publish_ack_body(
                p.spec_packet_id(),
                p.spec_reason_code(),
                p.spec_properties(),
            ).len() as u32,
        },
    ) + spec_publish_ack_body(p.spec_packet_id(), p.spec_reason_code(), p.spec_properties())
}

/// Acknowledgement of a PUBLISH at quality of service one, with the MQTT 5
/// reason code and properties.
#[derive(Debug, Clone, PartialEq, Eq)]
pub struct PublishAckPacket {
    packet_id: PacketId,
    reason_code: ReasonCode,
    properties: Properties,
}

impl PublishAckPacket {
    /// The packet identifier acknowledged.
    pub closed spec fn spec_packet_id(&self) -> PacketId {
        self.packet_id
    }

    /// The reason code; Success when omitted on the wire.
    pub closed spec fn spec_reason_code(&self) -> ReasonCode {
        self.reason_code
    }

    /// The properties; empty when omitted on the wire.
    pub closed spec fn spec_properties(&self) -> Seq<crate::v5::property::Property> {
        self.properties@
    }

    /// Well-formed properties within the PUBACK whitelist and length range.
    pub open spec fn wf(&self) -> bool {
        &&& spec_props_wf(self.spec_properties())
        &&& spec_props_legal(self.spec_properties(), spec_publish_ack_allowed())
        &&& 3 + crate::base::spec_varint_encode(
            spec_encode_props(self.spec_properties()).len() as int,
        ).len() + spec_encode_props(self.spec_properties()).len() <= VARINT_MAX
    }

    /// Build an acknowledgement for `packet_id` with reason Success.
    pub fn new(packet_id: PacketId) -> (r: Self)
        ensures
            r.spec_packet_id() == packet_id,
            r.spec_reason_code() == ReasonCode::Success,
            r.spec_properties().len() == 0,
            r.wf(),
    {
        let r = PublishAckPacket { packet_id, reason_code: ReasonCode::Success, properties: Vec::new() };
        proof {
            assert(spec_encode_props(Seq::<crate::v5::property::Property>::empty()) =~= Seq::<
                u8,
            >::empty());
        }
        r
    }

    /// Set the packet identifier.
    pub fn set_packet_id(&mut self, packet_id: PacketId)
        ensures
            final(self).spec_packet_id() == packet_id,
            final(self).spec_reason_code() == old(self).spec_reason_code(),
            final(self).spec_properties() == old(self).spec_properties(),
    {
        self.packet_id = packet_id;
    }

    /// The packet identifier acknowledged.
    pub fn packet_id(&self) -> (r: PacketId)
        ensures
            r == self.spec_packet_id(),
    {
        self.packet_id
    }

    /// Set the reason code.
    pub fn set_reason_code(&mut self, reason_code: ReasonCode)
        ensures
            final(self).spec_reason_code() == reason_code,
            final(self).spec_packet_id() == old(self).spec_packet_id(),
            final(self).spec_properties() == old(self).spec_properties(),
    {
        self.reason_code = reason_code;
    }

    /// The reason code.
    pub fn reason_code(&self) -> (r: ReasonCode)
        ensures
            r == self.spec_reason_code(),
    {
        self.reason_code
    }

    /// The properties.
    pub fn properties(&self) -> (r: &Properties)
        ensures
            r@ == self.spec_properties(),
    {
        &self.properties
    }

    /// The properties, for in-place change.
    pub fn mut_properties(&mut self) -> (r: &mut Properties)
        ensures
            r@ == old(self).spec_properties(),
            final(self).spec_properties() == final(r)@,
            final(self).spec_packet_id() == old(self).spec_packet_id(),
            final(self).spec_reason_code() == old(self).spec_reason_code(),
    {
        &mut self.properties
    }

    /// The packet type this packet announces.
    pub fn packet_type(&self) -> (r: PacketType)
        ensures
            r == PacketType::PubAck,
    {
        PacketType::PubAck
    }

    /// Append the packet bytes to `buf`, in the shortest form that carries
    /// the content.
    pub fn encode(&self, buf: &mut Vec<u8>) -> (r: Result<usize, EncodeError>)
        requires
            self.wf(),
        ensures
            r matches Ok(n) && final(buf)@ == old(buf)@ + spec_encode_publish_ack5(*self) && n
                == spec_encode_publish_ack5(*self).len(),
    {
        let short = matches!(self.reason_code, ReasonCode::Success) && self.properties.len() == 0;
        let body_len: usize = if short {
            2
        } else if self.properties.len() == 0 {
            3
        } else {
            let pb = crate::v5::property::props_bytes(&self.properties);
            proof {
                crate::base::lemma_varint_round_trip(
                    spec_encode_props(self.spec_properties()).len() as int,
                    Seq::empty(),
                );
            }
            3 + varint_len_of(pb) + pb
        };
        let fixed_header = match FixedHeader::new(PacketType::PubAck, body_len) {
            Ok(h) => h,
            Err(e) => {
                return Err(e);
            },
        };
        let hn = match fixed_header.encode(buf) {
            Ok(n) => n,
            Err(e) => {
                return Err(e);
            },
        };
        append_u16(buf, self.packet_id);
        if !short {
            buf.push(self.reason_code.value());
            if self.properties.len() > 0 {
                let _ = match encode_property_block(&self.properties, buf) {
                    Ok(n) => n,
                    Err(e) => {
                        return Err(e);
                    },
                };
            }
        }
        proof {
            assert(buf@ =~= old(buf)@ + spec_encode_publish_ack5(*self));
            crate::base::lemma_varint_round_trip(body_len as int, Seq::empty());
        }
        Ok(hn + body_len)
    }

    /// Read a PUBACK from the cursor, accepting the two-byte short form,
    /// the three-byte form and the full form, and checking the property
    /// whitelist.
    pub fn decode(ba: &mut ByteArray) -> (r: Result<Self, DecodeError>)
        requires
            old(ba).wf(),
        ensures
            final(ba).wf(),
            final(ba).spec_data() == old(ba).spec_data(),
            r matches Ok(p) ==> {
                &&& p.wf()
                &&& (old(ba).spec_remaining() == spec_ack_wire_short(p) + final(ba).spec_remaining() && p.spec_reason_code() == ReasonCode::Success
                    && p.spec_properties().len() == 0) || (old(ba).spec_remaining()
                    == spec_ack_wire_reason(p) + final(ba).spec_remaining()
                    && p.spec_properties().len() == 0) || (old(ba).spec_remaining()
                    == spec_ack_wire_full(p) + final(ba).spec_remaining()
                    && p.spec_properties().len() > 0)
            },
            forall|q: PublishAckPacket|
                crate::utils::spec_prefix(old(ba).spec_remaining(), #[trigger] spec_ack_wire_short(
                    q,
                )) ==> r is Ok,
            forall|q: PublishAckPacket|
                crate::utils::spec_prefix(
                    old(ba).spec_remaining(),
                    #[trigger] spec_ack_wire_reason(q),
                ) ==> r is Ok,
            (forall|h: FixedHeader|
                crate::base::spec_header_prefix(old(ba).spec_remaining(), h) && h.packet_type
                    != PacketType::PubAck ==> r == Err::<PublishAckPacket, DecodeError>(
                    DecodeError::InvalidPacketType,
                )),
    {
        let ghost rem0 = old(ba).spec_remaining();
        proof {
            assert forall|q: PublishAckPacket|
                crate::utils::spec_prefix(
                    rem0,
                    #[trigger] spec_ack_wire_short(q),
                ) implies crate::base::spec_header_prefix(rem0, spec_short_header())
                && crate::utils::spec_prefix(
                rem0.skip(spec_encode_fixed_header(spec_short_header()).len() as int),
                be_u16_bytes(q.spec_packet_id()),
            ) by {
                crate::utils::lemma_prefix_of_concat(
                    rem0,
                    spec_encode_fixed_header(spec_short_header()),
                    be_u16_bytes(q.spec_packet_id()),
                );
            }
            assert forall|q: PublishAckPacket|
                crate::utils::spec_prefix(
                    rem0,
                    #[trigger] spec_ack_wire_reason(q),
                ) implies crate::base::spec_header_prefix(rem0, spec_reason_header())
                && crate::utils::spec_prefix(
                rem0.skip(spec_encode_fixed_header(spec_reason_header()).len() as int),
                be_u16_bytes(q.spec_packet_id()) + seq![
                    spec_reason_code_value(q.spec_reason_code()),
                ],
            ) by {
                assert(spec_ack_wire_reason(q) =~= spec_encode_fixed_header(spec_reason_header())
                    + (be_u16_bytes(q.spec_packet_id()) + seq![
                        spec_reason_code_value(q.spec_reason_code()),
                    ]));
                crate::utils::lemma_prefix_of_concat(
                    rem0,
                    spec_encode_fixed_header(spec_reason_header()),
                    be_u16_bytes(q.spec_packet_id()) + seq![
                        spec_reason_code_value(q.spec_reason_code()),
                    ],
                );
            }
        }
        let fixed_header = match FixedHeader::decode(ba) {
            Ok(h) => h,
            Err(e) => {
                return Err(e);
            },
        };
        proof {
            assert(rem0.take(spec_encode_fixed_header(fixed_header).len() as int)
                =~= spec_encode_fixed_header(fixed_header));
            assert(crate::base::spec_header_prefix(rem0, fixed_header));
            assert forall|h: FixedHeader|
                crate::base::spec_header_prefix(rem0, h) implies h == fixed_header by {
                crate::base::lemma_header_prefix_deterministic(rem0, h, fixed_header);
            }
        }
        if !matches!(fixed_header.packet_type, PacketType::PubAck) {
            return Err(DecodeError::InvalidPacketType);
        }
        let remaining_length = fixed_header.remaining_length as usize;
        if remaining_length < 2 {
            return Err(DecodeError::InvalidRemainingLength);
        }
        let before = ba.remaining_bytes();
        let ghost rem1 = ba.spec_remaining();
        proof {
            assert(rem1 =~= rem0.skip(spec_encode_fixed_header(fixed_header).len() as int));
        }
        let packet_id = match ba.read_u16() {
            Ok(v) => v,
            Err(e) => {
                return Err(DecodeError::from_byte_array(e));
            },
        };
        proof {
            crate::data::lemma_be_u16_round_trip(packet_id);
            assert(be_u16_bytes(packet_id) =~= rem1.take(2));
            assert(ba.spec_remaining() =~= rem1.skip(2));
        }
        if remaining_length == 2 {
            let p = PublishAckPacket {
                packet_id,
                reason_code: ReasonCode::Success,
                properties: Vec::new(),
            };
            proof {
                assert(fixed_header == FixedHeader {
                    packet_type: PacketType::PubAck,
                    packet_flags: crate::base::PacketFlags::Reserved,
                    remaining_length: 2u32,
                });
                assert(old(ba).spec_remaining() =~= spec_ack_wire_short(p) + ba.spec_remaining());
            }
            return Ok(p);
        }
        let ghost rem2 = ba.spec_remaining();
        proof {
            assert(rem2 =~= rem1.skip(2));
            assert forall|q: PublishAckPacket|
                crate::utils::spec_prefix(
                    rem0,
                    #[trigger] spec_ack_wire_reason(q),
                ) implies rem2.len() >= 1 && rem2[0] == spec_reason_code_value(
                q.spec_reason_code(),
            ) by {
                crate::utils::lemma_prefix_of_concat(
                    rem1,
                    be_u16_bytes(q.spec_packet_id()),
                    seq![spec_reason_code_value(q.spec_reason_code())],
                );
                assert(rem2.take(1)[0] == rem2[0]);
            }
        }
        let reason_code = match ReasonCode::decode(ba) {
            Ok(c) => c,
            Err(e) => {
                return Err(e);
            },
        };
        if remaining_length == 3 {
            let p = PublishAckPacket { packet_id, reason_code, properties: Vec::new() };
            proof {
                assert(spec_encode_props(Seq::<crate::v5::property::Property>::empty()) =~= Seq::<
                    u8,
                >::empty());
                assert(fixed_header == FixedHeader {
                    packet_type: PacketType::PubAck,
                    packet_flags: crate::base::PacketFlags::Reserved,
                    remaining_length: 3u32,
                });
                assert(rem1 =~= be_u16_bytes(packet_id) + rem2);
                assert(rem2 =~= seq![spec_reason_code_value(reason_code)] + ba.spec_remaining());
                assert(old(ba).spec_remaining() =~= spec_ack_wire_reason(p)
                    + ba.spec_remaining());
            }
            return Ok(p);
        }
        let ghost rem3 = ba.spec_remaining();
        let properties = match decode_property_block(ba) {
            Ok(ps) => ps,
            Err(e) => {
                return Err(e);
            },
        };
        let allowed = publish_ack_allowed();
        if !check_property_type_list(&properties, allowed.as_slice()) {
            return Err(DecodeError::InvalidPropertyType);
        }
        if has_duplicate_property(&properties) {
            return Err(DecodeError::DuplicatedProperty);
        }
        let consumed = before - ba.remaining_bytes();
        if consumed != remaining_length {
            return Err(DecodeError::InvalidRemainingLength);
        }
        if properties.is_empty() {
            return Err(DecodeError::InvalidRemainingLength);
        }
        let p = PublishAckPacket { packet_id, reason_code, properties };
        proof {
            assert(spec_publish_ack_allowed() =~= seq![
                PropertyType::ReasonString,
                PropertyType::UserProperty,
            ]);
            assert(rem1 =~= be_u16_bytes(packet_id) + rem2);
            assert(rem2 =~= seq![spec_reason_code_value(reason_code)] + rem3);
            assert(rem3 =~= spec_encode_property_block(p.spec_properties())
                + ba.spec_remaining());
            assert(3 + spec_encode_property_block(p.spec_properties()).len() == consumed);
            assert(fixed_header == FixedHeader {
                packet_type: PacketType::PubAck,
                packet_flags: crate::base::PacketFlags::Reserved,
                remaining_length: (3 + spec_encode_property_block(p.spec_properties()).len())
                    as u32,
            });
            assert(old(ba).spec_remaining() =~= spec_ack_wire_full(p) + ba.spec_remaining());
        }
        Ok(p)
    }
}

/// The property types a PUBACK may carry, as a list to check against.
fn publish_ack_allowed() -> (r: Vec<PropertyType>)
    ensures
        r@ == spec_publish_ack_allowed(),
{
    let mut v: Vec<PropertyType> = Vec::new();
    v.push(PropertyType::ReasonString);
    v.push(PropertyType::UserProperty);
    proof {
        assert(v@ =~= spec_publish_ack_allowed());
    }
    v
}

/// The fixed header of the two-byte wire form.
pub open spec fn spec_short_header() -> FixedHeader {
    FixedHeader {
        packet_type: PacketType::PubAck,
        packet_flags: crate::base::PacketFlags::Reserved,
        remaining_length: 2,
    }
}

/// The fixed header of the three-byte wire form.
pub open spec fn spec_reason_header() -> FixedHeader {
    FixedHeader {
        packet_type: PacketType::PubAck,
        packet_flags: crate::base::PacketFlags::Reserved,
        remaining_length: 3,
    }
}

/// The two-byte wire form: the packet identifier alone.
pub open spec fn spec_ack_wire_short(p: PublishAckPacket) -> Seq<u8> {
    spec_encode_fixed_header(
        FixedHeader {
            packet_type: PacketType::PubAck,
            packet_flags: crate::base::PacketFlags::Reserved,
            remaining_length: 2,
        },
    ) + be_u16_bytes(p.spec_packet_id())
}

/// The three-byte wire form: identifier and reason code, no properties.
pub open spec fn spec_ack_wire_reason(p: PublishAckPacket) -> Seq<u8> {
    spec_encode_fixed_header(
        FixedHeader {
            packet_type: PacketType::PubAck,
            packet_flags: crate::base::PacketFlags::Reserved,
            remaining_length: 3,
        },
    ) + be_u16_bytes(p.spec_packet_id()) + seq![spec_reason_code_value(p.spec_reason_code())]
}

/// The full wire form: identifier, reason code and property block.
pub open spec fn spec_ack_wire_full(p: PublishAckPacket) -> Seq<u8> {
    spec_encode_fixed_header(
        FixedHeader {
            packet_type: PacketType::PubAck,
            packet_flags: crate::base::PacketFlags::Reserved,
            remaining_length: (3 + spec_encode_property_block(p.spec_properties()).len()) as u32,
        },
    ) + be_u16_bytes(p.spec_packet_id()) + seq![spec_reason_code_value(p.spec_reason_code())]
        + spec_encode_property_block(p.spec_properties())
}

/// The number of bytes the variable-byte encoding of `v` takes.
pub(crate) fn varint_len_of(v: usize) -> (r: usize)
    requires
        v <= VARINT_MAX,
    ensures
        r == crate::base::spec_varint_encode(v as int).len(),
        1 <= r <= 4,
{
    proof {
        crate::base::lemma_varint_round_trip(v as int, Seq::empty());
    }
    if v < 128 {
        proof {
            assert(crate::base::spec_varint_encode(v as int) =~= seq![v as u8]);
        }
        1
    } else if v < 16384 {
        proof {
            assert(crate::base::spec_varint_encode(v as int) =~= seq![(v % 128 + 128) as u8]
                + crate::base::spec_varint_encode(v as int / 128));
            assert(crate::base::spec_varint_encode(v as int / 128) =~= seq![(v / 128) as u8]);
        }
        2
    } else if v < 2097152 {
        proof {
            assert(crate::base::spec_varint_encode(v as int) =~= seq![(v % 128 + 128) as u8]
                + crate::base::spec_varint_encode(v as int / 128));
            assert(crate::base::spec_varint_encode(v as int / 128) =~= seq![
                ((v / 128) % 128 + 128) as u8,
            ] + crate::base::spec_varint_encode(v as int / 16384));
            assert(crate::base::spec_varint_encode(v as int / 16384) =~= seq![(v / 16384) as u8]);
        }
        3
    } else {
        proof {
            assert(crate::base::spec_varint_encode(v as int) =~= seq![(v % 128 + 128) as u8]
                + crate::base::spec_varint_encode(v as int / 128));
            assert(crate::base::spec_varint_encode(v as int / 128) =~= seq![
                ((v / 128) % 128 + 128) as u8,
            ] + crate::base::spec_varint_encode(v as int / 16384));
            assert(crate::base::spec_varint_encode(v as int / 16384) =~= seq![
                ((v / 16384) % 128 + 128) as u8,
            ] + crate::base::spec_varint_encode(v as int / 2097152));
            assert(crate::base::spec_varint_encode(v as int / 2097152) =~= seq![
                (v / 2097152) as u8,
            ]);
        }
        4
    }
}

} // verus!

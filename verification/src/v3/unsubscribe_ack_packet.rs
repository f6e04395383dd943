//! Confirmation of an UNSUBSCRIBE request.

use vstd::prelude::*;
use crate::base::{DecodeError, EncodeError, FixedHeader, PacketId, PacketType, spec_encode_fixed_header, spec_flags_ok};
use crate::byte_array::ByteArray;
use crate::data::append_u16;
use crate::utils::be_u16_bytes;

verus! {

/// The bytes of this packet: a fixed header announcing two remaining bytes,
/// then the packet identifier.
pub open spec fn spec_encode_unsubscribe_ack(packet_id: PacketId) -> Seq<u8> {
    spec_encode_fixed_header(
        FixedHeader {
            packet_type: PacketType::UnSubAck,
            packet_flags: crate::base::PacketFlags::Reserved,
            remaining_length: 2,
        },
    ) + be_u16_bytes(packet_id)
}

/// UnsubscribeAck packet is sent by the server to confirm receipt of an
/// Unsubscribe packet.
#[derive(Debug, Default, Clone, Copy, PartialEq, Eq, Structural)]
pub struct UnsubscribeAckPacket {
    packet_id: PacketId,
}

impl UnsubscribeAckPacket {
    /// The packet identifier carried.
    pub closed spec fn spec_packet_id(&self) -> PacketId {
        self.packet_id
    }

    /// Build the packet for `packet_id`.
    pub fn new(packet_id: PacketId) -> (r: Self)
        ensures
            r.spec_packet_id() == packet_id,
    {
        Self { packet_id }
    }

    /// The packet identifier acknowledged.
    pub fn packet_id(&self) -> (r: PacketId)
        ensures
            r == self.spec_packet_id(),
    {
        self.packet_id
    }

    /// The packet type this packet announces.
    pub fn packet_type(&self) -> (r: PacketType)
        ensures
            r == PacketType::UnSubAck,
    {
        PacketType::UnSubAck
    }

    /// Append the packet bytes to `buf`.
    pub fn encode(&self, buf: &mut Vec<u8>) -> (r: Result<usize, EncodeError>)
        ensures
            r matches Ok(n) && final(buf)@ == old(buf)@ + spec_encode_unsubscribe_ack(self.spec_packet_id()) && n == spec_encode_unsubscribe_ack(
                self.spec_packet_id(),
            ).len(),
    {
        let fixed_header = match FixedHeader::new(PacketType::UnSubAck, 2) {
            Ok(h) => h,
            Err(e) => {
                return Err(e);
            },
        };
        let n = match fixed_header.encode(buf) {
            Ok(n) => n,
            Err(e) => {
                return Err(e);
            },
        };
        append_u16(buf, self.packet_id);
        assert(buf@ =~= old(buf)@ + spec_encode_unsubscribe_ack(self.spec_packet_id()));
        Ok(n + 2)
    }

    /// Read the packet from the cursor; the remaining length must be two.
    /// A buffer that begins with such a packet's bytes is always accepted.
    pub fn decode(ba: &mut ByteArray) -> (r: Result<Self, DecodeError>)
        requires
            old(ba).wf(),
        ensures
            final(ba).wf(),
            final(ba).spec_data() == old(ba).spec_data(),
            r matches Ok(p) ==> old(ba).spec_remaining() == spec_encode_unsubscribe_ack(p.spec_packet_id()) + final(ba).spec_remaining(),
            old(ba).spec_remaining().len() >= 4 && old(ba).spec_remaining()[0] == 176 && old(
                ba,
            ).spec_remaining()[1] == 2 ==> r is Ok,
    {
        let ghost rem0 = old(ba).spec_remaining();
        let ghost starts_well = rem0.len() >= 4 && rem0[0] == 176 && rem0[1] == 2;
        proof {
            if starts_well {
                let h0 = FixedHeader {
                    packet_type: PacketType::UnSubAck,
                    packet_flags: crate::base::PacketFlags::Reserved,
                    remaining_length: 2,
                };
                assert(spec_encode_fixed_header(h0) =~= seq![176 as u8, 2u8]) by {
                    assert(crate::base::spec_varint_encode(2) =~= seq![2u8]);
                }
                assert(rem0.take(2) =~= seq![176 as u8, 2u8]);
                assert(crate::base::spec_header_prefix(rem0, h0));
            }
        }
        let fixed_header = match FixedHeader::decode(ba) {
            Ok(h) => h,
            Err(e) => {
                return Err(e);
            },
        };
        proof {
            if starts_well {
                assert(rem0.take(spec_encode_fixed_header(fixed_header).len() as int)
                    =~= spec_encode_fixed_header(fixed_header));
                crate::base::lemma_header_bytes_pin(rem0, fixed_header);
            }
        }
        if !matches!(fixed_header.packet_type, PacketType::UnSubAck) {
            proof {
                if starts_well {
                    assert(crate::base::spec_packet_type_code(fixed_header.packet_type) == 176int
                        / 16);
                }
            }
            return Err(DecodeError::InvalidPacketType);
        }
        if fixed_header.remaining_length != 2 {
            return Err(DecodeError::InvalidRemainingLength);
        }
        let ghost rem1 = ba.spec_remaining();
        proof {
            if starts_well {
                assert(rem1 =~= rem0.skip(2));
            }
        }
        let packet_id = match ba.read_u16() {
            Ok(v) => v,
            Err(e) => {
                return Err(DecodeError::from_byte_array(e));
            },
        };
        proof {
            assert(fixed_header.packet_flags == crate::base::PacketFlags::Reserved);
            crate::data::lemma_be_u16_round_trip(packet_id);
            assert(be_u16_bytes(packet_id) =~= rem1.take(2));
            assert(ba.spec_remaining() =~= rem1.skip(2));
            assert(old(ba).spec_remaining() =~= spec_encode_unsubscribe_ack(packet_id) + ba.spec_remaining());
        }
        Ok(Self { packet_id })
    }
}

} // verus!

//! The PINGREQ packet: a bare fixed header keeping the connection alive.

use vstd::prelude::*;
use crate::base::{DecodeError, EncodeError, FixedHeader, PacketFlags, PacketType,
    spec_encode_fixed_header};
use crate::byte_array::ByteArray;

verus! {

/// The bytes of this packet: a fixed header with nothing after it.
pub open spec fn spec_encode_ping_request() -> Seq<u8> {
    spec_encode_fixed_header(
        FixedHeader {
            packet_type: PacketType::PingReq,
            packet_flags: PacketFlags::Reserved,
            remaining_length: 0,
        },
    )
}

/// The packet a client sends to show it is still there.
#[derive(Debug, Default, Clone, Copy, PartialEq, Eq, Structural)]
pub struct PingRequestPacket {}

impl PingRequestPacket {
    /// Build the packet.
    pub fn new() -> (r: PingRequestPacket)
        ensures
            r == (PingRequestPacket {  }),
    {
        PingRequestPacket {}
    }

    /// The packet type this packet announces.
    pub fn packet_type(&self) -> (r: PacketType)
        ensures
            r == PacketType::PingReq,
    {
        PacketType::PingReq
    }

    /// Append the packet bytes to `buf`.
    pub fn encode(&self, buf: &mut Vec<u8>) -> (r: Result<usize, EncodeError>)
        ensures
            r matches Ok(n) && final(buf)@ == old(buf)@ + spec_encode_ping_request() && n
                == spec_encode_ping_request().len(),
    {
        let fixed_header = match FixedHeader::new(PacketType::PingReq, 0) {
            Ok(h) => h,
            Err(e) => {
                return Err(e);
            },
        };
        fixed_header.encode(buf)
    }

    /// Read the packet from the cursor; the remaining length must be zero.
    pub fn decode(ba: &mut ByteArray) -> (r: Result<Self, DecodeError>)
        requires
            old(ba).wf(),
        ensures
            final(ba).wf(),
            final(ba).spec_data() == old(ba).spec_data(),
            r is Ok ==> old(ba).spec_remaining() == spec_encode_ping_request() + final(ba).spec_remaining(),
            old(ba).spec_remaining().len() >= 2 && old(ba).spec_remaining()[0] == 192 && old(
                ba,
            ).spec_remaining()[1] == 0 ==> r is Ok,
    {
        let ghost rem0 = old(ba).spec_remaining();
        proof {
            if rem0.len() >= 2 && rem0[0] == 192 && rem0[1] == 0 {
                let h0 = FixedHeader {
                    packet_type: PacketType::PingReq,
                    packet_flags: crate::base::PacketFlags::Reserved,
                    remaining_length: 0,
                };
                assert(spec_encode_fixed_header(h0) =~= seq![192 as u8, 0u8]) by {
                    assert(crate::base::spec_varint_encode(0) =~= seq![0u8]);
                }
                assert(rem0.take(2) =~= seq![192 as u8, 0u8]);
                assert(crate::base::spec_header_prefix(rem0, h0));
            }
        }
        let fixed_header = match FixedHeader::decode(ba) {
            Ok(h) => h,
            Err(e) => {
                return Err(e);
            },
        };
        proof {
            if rem0.len() >= 2 && rem0[0] == 192 && rem0[1] == 0 {
                assert(rem0.take(spec_encode_fixed_header(fixed_header).len() as int)
                    =~= spec_encode_fixed_header(fixed_header));
                crate::base::lemma_header_bytes_pin(rem0, fixed_header);
                assert(crate::base::spec_packet_type_code(fixed_header.packet_type) == 192int
                    / 16);
            }
        }
        if !matches!(fixed_header.packet_type, PacketType::PingReq) {
            return Err(DecodeError::InvalidPacketType);
        }
        if fixed_header.remaining_length != 0 {
            return Err(DecodeError::InvalidRemainingLength);
        }
        Ok(PingRequestPacket {})
    }
}

} // verus!

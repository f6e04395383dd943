//! The SUBACK packet: the packet identifier of the SUBSCRIBE it answers
//! and one granted quality of service, or a failure mark, per filter.

use vstd::prelude::*;
use crate::base::{DecodeError, EncodeError, FixedHeader, PacketId, PacketType, QoS, VARINT_MAX,
    spec_encode_fixed_header, spec_qos_value};
use crate::byte_array::ByteArray;
use crate::data::append_u16;
use crate::utils::be_u16_bytes;

verus! {

/// The answer for one subscribed filter.
#[derive(Debug, Clone, Copy, PartialEq, Eq, Structural)]
pub enum SubscribeAck {
    /// Granted, at this quality of service.
    QoS(QoS),
    /// Refused.
    Failed,
}

/// The wire byte of one answer.
pub open spec fn spec_subscribe_ack_value(a: SubscribeAck) -> u8 {
    match a {
        SubscribeAck::QoS(q) => spec_qos_value(q),
        SubscribeAck::Failed => 128,
    }
}

/// The wire bytes of an answer list.
pub open spec fn spec_encode_acks(acks: Seq<SubscribeAck>) -> Seq<u8> {
    acks.map_values(|a: SubscribeAck| spec_subscribe_ack_value(a))
}

/// The bytes of a SUBACK packet.
pub open spec fn spec_encode_subscribe_ack(p: SubscribeAckPacket) -> Seq<u8> {
    spec_encode_fixed_header(
        FixedHeader {
            packet_type: PacketType::SubAck,
            packet_flags: crate::base::PacketFlags::Reserved,
            remaining_length: (2 + p.spec_acks().len()) as u32,
        },
    ) + be_u16_bytes(p.spec_packet_id()) + spec_encode_acks(p.spec_acks())
}

/// The broker's reply to a SUBSCRIBE.
#[derive(Debug, Clone, PartialEq, Eq)]
pub struct SubscribeAckPacket {
    packet_id: PacketId,
    acks: Vec<SubscribeAck>,
}

impl SubscribeAckPacket {
    /// The packet identifier of the SUBSCRIBE answered.
    pub closed spec fn spec_packet_id(&self) -> PacketId {
        self.packet_id
    }

    /// The answers, one per filter and in filter order.
    pub closed spec fn spec_acks(&self) -> Seq<SubscribeAck> {
        self.acks@
    }

    /// At least one answer and a body within the remaining-length range.
    pub open spec fn wf(&self) -> bool {
        1 <= self.spec_acks().len() <= VARINT_MAX - 2
    }

    /// Build a reply carrying the given answers.
    pub fn new(packet_id: PacketId, acks: Vec<SubscribeAck>) -> (r: Self)
        ensures
            r.spec_packet_id() == packet_id,
            r.spec_acks() == acks@,
    {
        SubscribeAckPacket { packet_id, acks }
    }

    /// The packet identifier of the SUBSCRIBE answered.
    pub fn packet_id(&self) -> (r: PacketId)
        ensures
            r == self.spec_packet_id(),
    {
        self.packet_id
    }

    /// The answers, one per filter and in filter order.
    pub fn acks(&self) -> (r: &[SubscribeAck])
        ensures
            r@ == self.spec_acks(),
    {
        self.acks.as_slice()
    }

    /// The packet type this packet announces.
    pub fn packet_type(&self) -> (r: PacketType)
        ensures
            r == PacketType::SubAck,
    {
        PacketType::SubAck
    }

    /// Append the packet bytes to `buf`.
    pub fn encode(&self, buf: &mut Vec<u8>) -> (r: Result<usize, EncodeError>)
        requires
            self.wf(),
        ensures
            r matches Ok(n) && final(buf)@ == old(buf)@ + spec_encode_subscribe_ack(*self) && n
                == spec_encode_subscribe_ack(*self).len(),
    {
        let remaining_length = 2 + self.acks.len();
        let fixed_header = match FixedHeader::new(PacketType::SubAck, remaining_length) {
            Ok(h) => h,
            Err(e) => {
                return Err(e);
            },
        };
        let hn = match fixed_header.encode(buf) {
            Ok(n) => n,
            Err(e) => {
                return Err(e);
            },
        };
        append_u16(buf, self.packet_id);
        let mut k: usize = 0;
        let ghost base_len = buf@.len() as int;
        while k < self.acks.len()
            invariant
                0 <= k <= self.acks@.len(),
                0 <= base_len <= buf@.len(),
                buf@.len() == base_len + k,
                buf@ =~= buf@.take(base_len) + spec_encode_acks(self.spec_acks().take(k as int)),
                buf@.take(base_len) == old(buf)@ + spec_encode_fixed_header(fixed_header)
                    + be_u16_bytes(self.spec_packet_id()),
            decreases self.acks@.len() - k,
        {
            let b: u8 = match self.acks[k] {
                SubscribeAck::QoS(q) => q.value(),
                SubscribeAck::Failed => 128,
            };
            let ghost prev = buf@;
            buf.push(b);
            proof {
                assert(buf@.take(base_len) =~= prev.take(base_len));
                assert(self.spec_acks().take(k + 1) =~= self.spec_acks().take(k as int).push(
                    self.spec_acks()[k as int],
                ));
                assert(buf@ =~= buf@.take(base_len) + spec_encode_acks(
                    self.spec_acks().take(k + 1),
                ));
            }
            k += 1;
        }
        proof {
            assert(self.spec_acks().take(self.spec_acks().len() as int) =~= self.spec_acks());
            assert(buf@ =~= old(buf)@ + spec_encode_subscribe_ack(*self));
            crate::base::lemma_varint_round_trip(remaining_length as int, Seq::empty());
        }
        Ok(hn + remaining_length)
    }

    /// The fixed header a SUBACK encodes under.
    pub open spec fn spec_header(p: SubscribeAckPacket) -> FixedHeader {
        FixedHeader {
            packet_type: PacketType::SubAck,
            packet_flags: crate::base::PacketFlags::Reserved,
            remaining_length: (2 + p.spec_acks().len()) as u32,
        }
    }

    /// Read a SUBACK from the cursor: the identifier, then one answer byte
    /// per filter up to the announced remaining length.  A buffer that
    /// begins with a well-formed packet's bytes is always accepted.
    #[verifier::rlimit(100)]
    pub fn decode(ba: &mut ByteArray) -> (r: Result<Self, DecodeError>)
        requires
            old(ba).wf(),
        ensures
            final(ba).wf(),
            final(ba).spec_data() == old(ba).spec_data(),
            r matches Ok(p) ==> p.wf() && old(ba).spec_remaining() == spec_encode_subscribe_ack(p)
                + final(ba).spec_remaining(),
            forall|q: SubscribeAckPacket|
                q.wf() && crate::utils::spec_prefix(
                    old(ba).spec_remaining(),
                    #[trigger] spec_encode_subscribe_ack(q),
                ) ==> r is Ok,
            (forall|h: FixedHeader|
                crate::base::spec_header_prefix(old(ba).spec_remaining(), h) && h.packet_type
                    != PacketType::SubAck ==> r == Err::<SubscribeAckPacket, DecodeError>(
                    DecodeError::InvalidPacketType,
                )),
    {
        let ghost rem0 = old(ba).spec_remaining();
        let fixed_header = match FixedHeader::decode(ba) {
            Ok(h) => h,
            Err(e) => {
                proof {
                    assert forall|q: SubscribeAckPacket|
                        q.wf() && crate::utils::spec_prefix(
                            rem0,
                            #[trigger] spec_encode_subscribe_ack(q),
                        ) implies false by {
                        lemma_suback_prefix(rem0, q);
                    }
                }
                return Err(e);
            },
        };
        proof {
            assert(rem0.take(spec_encode_fixed_header(fixed_header).len() as int)
                =~= spec_encode_fixed_header(fixed_header));
            assert(crate::base::spec_header_prefix(rem0, fixed_header));
            assert forall|h: FixedHeader|
                crate::base::spec_header_prefix(rem0, h) implies h == fixed_header by {
                crate::base::lemma_header_prefix_deterministic(rem0, h, fixed_header);
            }
        }
        if !matches!(fixed_header.packet_type, PacketType::SubAck) {
            proof {
                assert forall|q: SubscribeAckPacket|
                    q.wf() && crate::utils::spec_prefix(
                        rem0,
                        #[trigger] spec_encode_subscribe_ack(q),
                    ) implies false by {
                    lemma_suback_prefix(rem0, q);
                }
            }
            return Err(DecodeError::InvalidPacketType);
        }
        let remaining_length = fixed_header.remaining_length as usize;
        let ghost rem1 = ba.spec_remaining();
        proof {
            assert(rem1 =~= rem0.skip(spec_encode_fixed_header(fixed_header).len() as int));
            assert forall|q: SubscribeAckPacket|
                q.wf() && crate::utils::spec_prefix(
                    rem0,
                    #[trigger] spec_encode_subscribe_ack(q),
                ) implies fixed_header == Self::spec_header(q) && crate::utils::spec_prefix(
                rem1,
                be_u16_bytes(q.spec_packet_id()),
            ) && crate::utils::spec_prefix(
                rem1.skip(2),
                spec_encode_acks(q.spec_acks()),
            ) by {
                lemma_suback_prefix(rem0, q);
                crate::base::lemma_header_prefix_deterministic(
                    rem0,
                    fixed_header,
                    Self::spec_header(q),
                );
                crate::utils::lemma_prefix_of_concat(
                    rem1,
                    be_u16_bytes(q.spec_packet_id()),
                    spec_encode_acks(q.spec_acks()),
                );
            }
        }
        if remaining_length < 3 {
            return Err(DecodeError::InvalidRemainingLength);
        }
        let packet_id = match ba.read_u16() {
            Ok(v) => v,
            Err(e) => {
                return Err(DecodeError::from_byte_array(e));
            },
        };
        proof {
            crate::data::lemma_be_u16_round_trip(packet_id);
            assert(be_u16_bytes(packet_id) =~= rem1.take(2));
            assert(ba.spec_remaining() =~= rem1.skip(2));
        }
        let count = remaining_length - 2;
        let mut acks: Vec<SubscribeAck> = Vec::new();
        let mut k: usize = 0;
        let ghost list_start = ba.spec_remaining();
        proof {
            assert(spec_encode_acks(acks@) =~= Seq::<u8>::empty());
        }
        while k < count
            invariant
                ba.wf(),
                ba.spec_data() == old(ba).spec_data(),
                rem0 == old(ba).spec_remaining(),
                list_start == rem1.skip(2),
                count == remaining_length - 2,
                remaining_length == fixed_header.remaining_length as usize,
                3 <= remaining_length,
                0 <= k <= count,
                acks@.len() == k,
                list_start == spec_encode_acks(acks@) + ba.spec_remaining(),
                fixed_header.packet_type == PacketType::SubAck,
                forall|h: FixedHeader|
                    crate::base::spec_header_prefix(rem0, h) ==> h == fixed_header,
                forall|q: SubscribeAckPacket|
                    q.wf() && crate::utils::spec_prefix(
                        rem0,
                        #[trigger] spec_encode_subscribe_ack(q),
                    ) ==> fixed_header == Self::spec_header(q) && crate::utils::spec_prefix(
                        list_start,
                        spec_encode_acks(q.spec_acks()),
                    ),
            decreases count - k,
        {
            let ghost pre = ba.spec_remaining();
            proof {
                assert(pre =~= list_start.skip(k as int));
                assert forall|q: SubscribeAckPacket|
                    q.wf() && crate::utils::spec_prefix(
                        rem0,
                        #[trigger] spec_encode_subscribe_ack(q),
                    ) implies pre.len() >= 1 && pre[0] == spec_subscribe_ack_value(
                    q.spec_acks()[k as int],
                ) by {
                    assert(count == q.spec_acks().len()) by {
                        assert(fixed_header == Self::spec_header(q));
                    }
                    assert(list_start.len() >= spec_encode_acks(q.spec_acks()).len());
                    assert(list_start.take(count as int)[k as int] == list_start[k as int]);
                    assert(spec_encode_acks(q.spec_acks())[k as int] == spec_subscribe_ack_value(
                        q.spec_acks()[k as int],
                    ));
                }
            }
            let b = match ba.read_byte() {
                Ok(b) => b,
                Err(e) => {
                    return Err(DecodeError::from_byte_array(e));
                },
            };
            let ack = if b == 128 {
                SubscribeAck::Failed
            } else {
                match QoS::try_from(b) {
                    Ok(q) => SubscribeAck::QoS(q),
                    Err(e) => {
                        proof {
                            assert forall|q: SubscribeAckPacket|
                                q.wf() && crate::utils::spec_prefix(
                                    rem0,
                                    #[trigger] spec_encode_subscribe_ack(q),
                                ) implies false by {
                                assert(b == spec_subscribe_ack_value(q.spec_acks()[k as int]));
                            }
                        }
                        return Err(e);
                    },
                }
            };
            proof {
                assert(spec_subscribe_ack_value(ack) == b);
                assert(spec_encode_acks(acks@.push(ack)) =~= spec_encode_acks(acks@).push(b));
                assert(pre =~= seq![b] + pre.skip(1));
                assert(list_start =~= spec_encode_acks(acks@.push(ack)) + ba.spec_remaining());
            }
            acks.push(ack);
            k += 1;
        }
        let p = SubscribeAckPacket { packet_id, acks };
        proof {
            assert(rem1 =~= be_u16_bytes(packet_id) + list_start);
            assert(fixed_header == FixedHeader {
                packet_type: PacketType::SubAck,
                packet_flags: crate::base::PacketFlags::Reserved,
                remaining_length: (2 + p.spec_acks().len()) as u32,
            });
            assert(old(ba).spec_remaining() =~= spec_encode_subscribe_ack(p)
                + ba.spec_remaining());
        }
        Ok(p)
    }
}

/// A buffer beginning with a well-formed SUBACK's bytes begins with its
/// header, followed by the identifier and the answer bytes.
proof fn lemma_suback_prefix(b: Seq<u8>, q: SubscribeAckPacket)
    requires
        q.wf(),
        crate::utils::spec_prefix(b, spec_encode_subscribe_ack(q)),
    ensures
        crate::base::spec_header_prefix(b, SubscribeAckPacket::spec_header(q)),
        crate::utils::spec_prefix(
            b.skip(spec_encode_fixed_header(SubscribeAckPacket::spec_header(q)).len() as int),
            be_u16_bytes(q.spec_packet_id()) + spec_encode_acks(q.spec_acks()),
        ),
{
    let h = SubscribeAckPacket::spec_header(q);
    assert(spec_encode_subscribe_ack(q) =~= spec_encode_fixed_header(h) + (be_u16_bytes(
        q.spec_packet_id(),
    ) + spec_encode_acks(q.spec_acks())));
    crate::utils::lemma_prefix_of_concat(
        b,
        spec_encode_fixed_header(h),
        be_u16_bytes(q.spec_packet_id()) + spec_encode_acks(q.spec_acks()),
    );
    assert(crate::base::spec_fixed_header_wf(h));
}

} // verus!

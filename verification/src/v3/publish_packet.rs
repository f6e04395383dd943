//! The PUBLISH packet: topic, optional packet identifier and payload, with
//! the duplicate, quality-of-service and retain bits in the fixed header.

use vstd::prelude::*;
use crate::base::{DecodeError, EncodeError, FixedHeader, PacketFlags, PacketId, PacketType, QoS,
    VARINT_MAX, spec_encode_fixed_header};
use crate::byte_array::ByteArray;
use crate::data::{append_bytes, append_u16, StringData, spec_encode_string};
use crate::topic::{spec_valid_pub_topic, Topic};
use crate::utils::be_u16_bytes;

verus! {

/// The bytes after the fixed header: the topic, the packet identifier when
/// the quality of service asks for acknowledgement, then the payload.
pub open spec fn spec_publish_body(
    qos: QoS,
    topic: Seq<char>,
    packet_id: PacketId,
    msg: Seq<u8>,
) -> Seq<u8> {
    spec_encode_string(topic) + (if qos is AtMostOnce {
        Seq::<u8>::empty()
    } else {
        be_u16_bytes(packet_id)
    }) + msg
}

/// The bytes of a PUBLISH packet.
pub open spec fn spec_encode_publish(p: PublishPacket) -> Seq<u8> {
    spec_encode_fixed_header(
        FixedHeader {
            packet_type: PacketType::Publish,
            packet_flags: PacketFlags::Publish {
                dup: p.spec_dup(),
                qos: p.spec_qos(),
                retain: p.spec_retain(),
            },
            remaining_length: spec_publish_body(
                p.spec_qos(),
                p.spec_topic(),
                p.spec_packet_id(),
                p.spec_msg(),
            ).len() as u32,
        },
    ) + spec_publish_body(p.spec_qos(), p.spec_topic(), p.spec_packet_id(), p.spec_msg())
}

/// An application message in flight between client and server.
#[derive(Debug, Clone, PartialEq, Eq)]
pub struct PublishPacket {
    dup: bool,
    qos: QoS,
    retain: bool,
    topic: StringData,
    packet_id: PacketId,
    msg: Vec<u8>,
}

impl PublishPacket {
    /// Whether this packet may be a redelivery.
    pub closed spec fn spec_dup(&self) -> bool {
        self.dup
    }

    /// The delivery guarantee asked for.
    pub closed spec fn spec_qos(&self) -> QoS {
        self.qos
    }

    /// Whether the broker should retain this message.
    pub closed spec fn spec_retain(&self) -> bool {
        self.retain
    }

    /// The topic published to.
    pub closed spec fn spec_topic(&self) -> Seq<char> {
        self.topic@
    }

    /// The packet identifier; zero when the quality of service is zero.
    pub closed spec fn spec_packet_id(&self) -> PacketId {
        self.packet_id
    }

    /// The payload.
    pub closed spec fn spec_msg(&self) -> Seq<u8> {
        self.msg@
    }

    /// All fields as one tuple, for stating what a setter leaves untouched.
    pub open spec fn spec_fields(&self) -> (bool, QoS, bool, Seq<char>, PacketId, Seq<u8>) {
        (
            self.spec_dup(),
            self.spec_qos(),
            self.spec_retain(),
            self.spec_topic(),
            self.spec_packet_id(),
            self.spec_msg(),
        )
    }

    /// A packet the codec will put on the wire: a valid topic, a packet
    /// identifier exactly when the quality of service asks for one, no
    /// duplicate flag on fire-and-forget messages, and a body within the
    /// remaining-length range.
    pub open spec fn wf(&self) -> bool {
        &&& spec_valid_pub_topic(self.spec_topic())
        &&& (self.spec_qos() is AtMostOnce ==> !self.spec_dup() && self.spec_packet_id() == 0)
        &&& (!(self.spec_qos() is AtMostOnce) ==> self.spec_packet_id() != 0)
        &&& spec_publish_body(
            self.spec_qos(),
            self.spec_topic(),
            self.spec_packet_id(),
            self.spec_msg(),
        ).len() <= VARINT_MAX
    }

    /// Build a packet for `topic` with the given payload.  At a quality of
    /// service above zero the packet identifier starts at one and should be
    /// set to a fresh one before the send.
    pub fn new(topic: &str, qos: QoS, msg: &[u8]) -> (r: Result<PublishPacket, EncodeError>)
        ensures
            r is Ok <==> spec_valid_pub_topic(topic@) && msg@.len() <= VARINT_MAX - 65540,
            r matches Ok(p) ==> {
                &&& p.spec_topic() == topic@
                &&& p.spec_qos() == qos
                &&& !p.spec_dup()
                &&& !p.spec_retain()
                &&& p.spec_packet_id() == (if qos is AtMostOnce {
                    0u16
                } else {
                    1u16
                })
                &&& p.spec_msg() == msg@
                &&& p.wf()
            },
            !spec_valid_pub_topic(topic@) ==> r is Err,
    {
        proof {
            vstd::utf8::encode_utf8_valid_utf8(topic@);
        }
        if Topic::validate_pub_topic(topic).is_err() {
            return Err(EncodeError::InvalidData);
        }
        let topic_data = match StringData::from_str(topic) {
            Ok(d) => d,
            Err(e) => {
                return Err(e);
            },
        };
        if msg.len() > (VARINT_MAX as usize) - 65540 {
            return Err(EncodeError::TooManyData);
        }
        let packet_id: PacketId = if matches!(qos, QoS::AtMostOnce) {
            0
        } else {
            1
        };
        Ok(
            PublishPacket {
                dup: false,
                qos,
                retain: false,
                topic: topic_data,
                packet_id,
                msg: vstd::slice::slice_to_vec(msg),
            },
        )
    }

    /// A copy with the same fields.
    pub fn duplicate(&self) -> (r: Self)
        ensures
            r.spec_fields() == self.spec_fields(),
    {
        PublishPacket {
            dup: self.dup,
            qos: self.qos,
            retain: self.retain,
            topic: self.topic.duplicate(),
            packet_id: self.packet_id,
            msg: vstd::slice::slice_to_vec(self.msg.as_slice()),
        }
    }

    /// Set the retain flag.
    pub fn set_retain(&mut self, retain: bool)
        ensures
            final(self).spec_fields() == (
                old(self).spec_dup(),
                old(self).spec_qos(),
                retain,
                old(self).spec_topic(),
                old(self).spec_packet_id(),
                old(self).spec_msg(),
            ),
    {
        self.retain = retain;
    }

    /// Whether the broker should retain this message.
    pub fn retain(&self) -> (r: bool)
        ensures
            r == self.spec_retain(),
    {
        self.retain
    }

    /// Set the duplicate flag; a fire-and-forget message never carries it.
    pub fn set_dup(&mut self, dup: bool) -> (r: Result<(), EncodeError>)
        ensures
            dup && old(self).spec_qos() is AtMostOnce ==> r is Err && final(self).spec_fields()
                == old(self).spec_fields(),
            !(dup && old(self).spec_qos() is AtMostOnce) ==> r is Ok && final(self).spec_fields()
                == (
                dup,
                old(self).spec_qos(),
                old(self).spec_retain(),
                old(self).spec_topic(),
                old(self).spec_packet_id(),
                old(self).spec_msg(),
            ),
    {
        if dup && matches!(self.qos, QoS::AtMostOnce) {
            return Err(EncodeError::InvalidData);
        }
        self.dup = dup;
        Ok(())
    }

    /// Whether this packet may be a redelivery.
    pub fn dup(&self) -> (r: bool)
        ensures
            r == self.spec_dup(),
    {
        self.dup
    }

    /// Set the quality of service; dropping to zero clears the packet
    /// identifier and the duplicate flag.
    pub fn set_qos(&mut self, qos: QoS)
        ensures
            final(self).spec_qos() == qos,
            final(self).spec_topic() == old(self).spec_topic(),
            final(self).spec_msg() == old(self).spec_msg(),
            final(self).spec_retain() == old(self).spec_retain(),
            qos is AtMostOnce ==> final(self).spec_packet_id() == 0 && !final(self).spec_dup(),
            !(qos is AtMostOnce) ==> final(self).spec_packet_id() == old(self).spec_packet_id()
                && final(self).spec_dup() == old(self).spec_dup(),
    {
        if matches!(qos, QoS::AtMostOnce) {
            self.packet_id = 0;
            self.dup = false;
        }
        self.qos = qos;
    }

    /// The delivery guarantee asked for.
    pub fn qos(&self) -> (r: QoS)
        ensures
            r == self.spec_qos(),
    {
        self.qos
    }

    /// Set the packet identifier, present on the wire when the quality of
    /// service is above zero.
    pub fn set_packet_id(&mut self, packet_id: PacketId)
        ensures
            final(self).spec_fields() == (
                old(self).spec_dup(),
                old(self).spec_qos(),
                old(self).spec_retain(),
                old(self).spec_topic(),
                packet_id,
                old(self).spec_msg(),
            ),
    {
        self.packet_id = packet_id;
    }

    /// The packet identifier.
    pub fn packet_id(&self) -> (r: PacketId)
        ensures
            r == self.spec_packet_id(),
    {
        self.packet_id
    }

    /// Replace the topic, which must be a valid topic name.
    pub fn set_topic(&mut self, topic: &str) -> (r: Result<(), EncodeError>)
        ensures
            r is Ok <==> spec_valid_pub_topic(topic@),
            r is Ok ==> final(self).spec_fields() == (
                old(self).spec_dup(),
                old(self).spec_qos(),
                old(self).spec_retain(),
                topic@,
                old(self).spec_packet_id(),
                old(self).spec_msg(),
            ),
            r is Err ==> final(self).spec_fields() == old(self).spec_fields(),
    {
        proof {
            vstd::utf8::encode_utf8_valid_utf8(topic@);
        }
        if Topic::validate_pub_topic(topic).is_err() {
            return Err(EncodeError::InvalidData);
        }
        let topic_data = match StringData::from_str(topic) {
            Ok(d) => d,
            Err(e) => {
                return Err(e);
            },
        };
        self.topic = topic_data;
        Ok(())
    }

    /// The topic published to.
    pub fn topic(&self) -> (r: &str)
        ensures
            r@ == self.spec_topic(),
    {
        self.topic.as_str()
    }

    /// The payload.
    pub fn message(&self) -> (r: &[u8])
        ensures
            r@ == self.spec_msg(),
    {
        self.msg.as_slice()
    }

    /// The packet type this packet announces.
    pub fn packet_type(&self) -> (r: PacketType)
        ensures
            r == PacketType::Publish,
    {
        PacketType::Publish
    }

    /// Append the packet bytes to `buf`.
    pub fn encode(&self, buf: &mut Vec<u8>) -> (r: Result<usize, EncodeError>)
        requires
            self.wf(),
        ensures
            r matches Ok(n) && final(buf)@ == old(buf)@ + spec_encode_publish(*self) && n
                == spec_encode_publish(*self).len(),
    {
        proof {
            vstd::utf8::encode_utf8_valid_utf8(self.spec_topic());
        }
        let topic_bytes = self.topic.bytes();
        let pid_bytes: usize = if matches!(self.qos, QoS::AtMostOnce) {
            0
        } else {
            2
        };
        let remaining_length = topic_bytes + pid_bytes + self.msg.len();
        let fixed_header = match FixedHeader::new_publish(
            self.dup,
            self.qos,
            self.retain,
            remaining_length,
        ) {
            Ok(h) => h,
            Err(e) => {
                return Err(e);
            },
        };
        let n = match fixed_header.encode(buf) {
            Ok(n) => n,
            Err(e) => {
                return Err(e);
            },
        };
        let tn = match self.topic.encode(buf) {
            Ok(tn) => tn,
            Err(e) => {
                return Err(e);
            },
        };
        if !matches!(self.qos, QoS::AtMostOnce) {
            append_u16(buf, self.packet_id);
        }
        append_bytes(buf, self.msg.as_slice());
        proof {
            crate::base::lemma_varint_round_trip(remaining_length as int, Seq::empty());
            assert(buf@ =~= old(buf)@ + spec_encode_publish(*self));
        }
        Ok(n + remaining_length)
    }

    /// The fixed header a PUBLISH packet encodes under.
    pub open spec fn spec_header(p: PublishPacket) -> FixedHeader {
        FixedHeader {
            packet_type: PacketType::Publish,
            packet_flags: PacketFlags::Publish {
                dup: p.spec_dup(),
                qos: p.spec_qos(),
                retain: p.spec_retain(),
            },
            remaining_length: spec_publish_body(
                p.spec_qos(),
                p.spec_topic(),
                p.spec_packet_id(),
                p.spec_msg(),
            ).len() as u32,
        }
    }

    /// Read a PUBLISH packet from the cursor, checking the flag bits, the
    /// topic, the packet identifier and that the body fills the announced
    /// remaining length exactly.  A buffer that begins with a well-formed
    /// packet's bytes is always accepted.
    #[verifier::rlimit(100)]
    pub fn decode(ba: &mut ByteArray) -> (r: Result<Self, DecodeError>)
        requires
            old(ba).wf(),
        ensures
            final(ba).wf(),
            final(ba).spec_data() == old(ba).spec_data(),
            r matches Ok(p) ==> p.wf() && old(ba).spec_remaining() == spec_encode_publish(p)
                + final(ba).spec_remaining(),
            forall|p: PublishPacket|
                p.wf() && crate::utils::spec_prefix(
                    old(ba).spec_remaining(),
                    #[trigger] spec_encode_publish(p),
                ) ==> r is Ok,
            (forall|h: FixedHeader|
                crate::base::spec_header_prefix(old(ba).spec_remaining(), h) && h.packet_type
                    != PacketType::Publish ==> r == Err::<PublishPacket, DecodeError>(
                    DecodeError::InvalidPacketType,
                )),
    {
        let ghost rem0 = old(ba).spec_remaining();
        let fixed_header = match FixedHeader::decode(ba) {
            Ok(h) => h,
            Err(e) => {
                proof {
                    assert forall|p: PublishPacket|
                        p.wf() && crate::utils::spec_prefix(
                            rem0,
                            #[trigger] spec_encode_publish(p),
                        ) implies false by {
                        lemma_publish_prefix_header(rem0, p);
                    }
                }
                return Err(e);
            },
        };
        proof {
            assert(rem0.take(spec_encode_fixed_header(fixed_header).len() as int)
                =~= spec_encode_fixed_header(fixed_header));
            assert(crate::base::spec_header_prefix(rem0, fixed_header));
            assert forall|h: FixedHeader|
                crate::base::spec_header_prefix(rem0, h) implies h == fixed_header by {
                crate::base::lemma_header_prefix_deterministic(rem0, h, fixed_header);
            }
        }
        let (dup, qos, retain) = match fixed_header.packet_flags {
            PacketFlags::Publish { dup, qos, retain } => (dup, qos, retain),
            _ => {
                proof {
                    assert forall|p: PublishPacket|
                        p.wf() && crate::utils::spec_prefix(
                            rem0,
                            #[trigger] spec_encode_publish(p),
                        ) implies false by {
                        lemma_publish_prefix_header(rem0, p);
                        crate::base::lemma_header_prefix_deterministic(
                            rem0,
                            fixed_header,
                            Self::spec_header(p),
                        );
                    }
                }
                return Err(DecodeError::InvalidPacketType);
            },
        };
        if dup && matches!(qos, QoS::AtMostOnce) {
            proof {
                assert forall|p: PublishPacket|
                    p.wf() && crate::utils::spec_prefix(
                        rem0,
                        #[trigger] spec_encode_publish(p),
                    ) implies false by {
                    lemma_publish_prefix_header(rem0, p);
                    crate::base::lemma_header_prefix_deterministic(
                        rem0,
                        fixed_header,
                        Self::spec_header(p),
                    );
                }
            }
            return Err(DecodeError::InvalidPacketFlags);
        }
        let ghost rem1 = ba.spec_remaining();
        proof {
            assert(rem1 =~= rem0.skip(spec_encode_fixed_header(fixed_header).len() as int));
        }
        let before = ba.remaining_bytes();
        let topic = match StringData::decode(ba) {
            Ok(d) => d,
            Err(e) => {
                proof {
                    assert forall|p: PublishPacket|
                        p.wf() && crate::utils::spec_prefix(
                            rem0,
                            #[trigger] spec_encode_publish(p),
                        ) implies false by {
                        lemma_publish_prefix_fields(rem0, p, fixed_header, rem1);
                        crate::data::lemma_string_prefix_decodable(rem1, p.spec_topic());
                    }
                }
                return Err(e);
            },
        };
        proof {
            assert forall|p: PublishPacket|
                p.wf() && crate::utils::spec_prefix(
                    rem0,
                    #[trigger] spec_encode_publish(p),
                ) implies topic@ == p.spec_topic() by {
                lemma_publish_prefix_fields(rem0, p, fixed_header, rem1);
                vstd::utf8::encode_utf8_valid_utf8(topic@);
                assert(crate::utils::spec_prefix(rem1, spec_encode_string(topic@))) by {
                    assert(rem1.take(spec_encode_string(topic@).len() as int)
                        =~= spec_encode_string(topic@));
                }
                crate::data::lemma_string_prefix_deterministic(rem1, topic@, p.spec_topic());
            }
        }
        if Topic::validate_pub_topic(topic.as_str()).is_err() {
            return Err(DecodeError::InvalidTopic);
        }
        let ghost rem2 = ba.spec_remaining();
        proof {
            assert forall|p: PublishPacket|
                p.wf() && crate::utils::spec_prefix(
                    rem0,
                    #[trigger] spec_encode_publish(p),
                ) implies crate::utils::spec_prefix(
                rem2,
                (if p.spec_qos() is AtMostOnce {
                    Seq::<u8>::empty()
                } else {
                    be_u16_bytes(p.spec_packet_id())
                }) + p.spec_msg(),
            ) && fixed_header == Self::spec_header(p) by {
                lemma_publish_prefix_fields(rem0, p, fixed_header, rem1);
                assert(rem2 =~= rem1.skip(spec_encode_string(topic@).len() as int));
            }
        }
        let packet_id: PacketId = if matches!(qos, QoS::AtMostOnce) {
            0
        } else {
            let pid = match ba.read_u16() {
                Ok(v) => v,
                Err(e) => {
                    proof {
                        assert forall|p: PublishPacket|
                            p.wf() && crate::utils::spec_prefix(
                                rem0,
                                #[trigger] spec_encode_publish(p),
                            ) implies false by {
                            crate::utils::lemma_prefix_of_concat(
                                rem2,
                                be_u16_bytes(p.spec_packet_id()),
                                p.spec_msg(),
                            );
                        }
                    }
                    return Err(DecodeError::from_byte_array(e));
                },
            };
            if pid == 0 {
                proof {
                    assert forall|p: PublishPacket|
                        p.wf() && crate::utils::spec_prefix(
                            rem0,
                            #[trigger] spec_encode_publish(p),
                        ) implies false by {
                        crate::utils::lemma_prefix_of_concat(
                            rem2,
                            be_u16_bytes(p.spec_packet_id()),
                            p.spec_msg(),
                        );
                        crate::data::lemma_be_u16_round_trip(p.spec_packet_id());
                        assert(rem2.take(2)[0] == rem2[0] && rem2.take(2)[1] == rem2[1]);
                        assert(pid == p.spec_packet_id());
                    }
                }
                return Err(DecodeError::InvalidPacketId);
            }
            pid
        };
        let ghost rem3 = ba.spec_remaining();
        let consumed = before - ba.remaining_bytes();
        let remaining_length = fixed_header.remaining_length as usize;
        proof {
            assert forall|p: PublishPacket|
                p.wf() && crate::utils::spec_prefix(
                    rem0,
                    #[trigger] spec_encode_publish(p),
                ) implies crate::utils::spec_prefix(rem3, p.spec_msg()) && msg_len_of(
                remaining_length as int,
                consumed as int,
            ) == p.spec_msg().len() by {
                if p.spec_qos() is AtMostOnce {
                    assert(rem3 =~= rem2);
                } else {
                    crate::utils::lemma_prefix_of_concat(
                        rem2,
                        be_u16_bytes(p.spec_packet_id()),
                        p.spec_msg(),
                    );
                    assert(rem3 =~= rem2.skip(2));
                }
            }
        }
        if remaining_length < consumed {
            return Err(DecodeError::InvalidRemainingLength);
        }
        let msg_len = remaining_length - consumed;
        let msg_slice = match ba.read_bytes(msg_len) {
            Ok(b) => b,
            Err(e) => {
                return Err(DecodeError::from_byte_array(e));
            },
        };
        let p = PublishPacket {
            dup,
            qos,
            retain,
            topic,
            packet_id,
            msg: vstd::slice::slice_to_vec(msg_slice),
        };
        proof {
            if !(qos is AtMostOnce) {
                crate::data::lemma_be_u16_round_trip(packet_id);
                assert(be_u16_bytes(packet_id) =~= rem2.take(2));
                assert(rem3 =~= rem2.skip(2));
            } else {
                assert(rem3 =~= rem2);
            }
            assert(msg_slice@ =~= rem3.take(msg_len as int));
            assert(ba.spec_remaining() =~= rem3.skip(msg_len as int));
            assert(spec_publish_body(qos, p.spec_topic(), packet_id, p.spec_msg()).len()
                == remaining_length);
            assert(rem1 =~= spec_publish_body(qos, p.spec_topic(), packet_id, p.spec_msg())
                + ba.spec_remaining());
            assert(old(ba).spec_remaining() =~= spec_encode_publish(p) + ba.spec_remaining());
        }
        Ok(p)
    }
}

/// The payload length the remaining length leaves after the consumed
/// variable header.
pub open spec fn msg_len_of(remaining_length: int, consumed: int) -> int {
    remaining_length - consumed
}

/// A buffer beginning with a well-formed PUBLISH's bytes begins with its
/// header, and its body follows.
proof fn lemma_publish_prefix_header(b: Seq<u8>, p: PublishPacket)
    requires
        p.wf(),
        crate::utils::spec_prefix(b, spec_encode_publish(p)),
    ensures
        crate::base::spec_header_prefix(b, PublishPacket::spec_header(p)),
        crate::utils::spec_prefix(
            b.skip(
                spec_encode_fixed_header(PublishPacket::spec_header(p)).len() as int,
            ),
            spec_publish_body(p.spec_qos(), p.spec_topic(), p.spec_packet_id(), p.spec_msg()),
        ),
{
    let h = PublishPacket::spec_header(p);
    let body = spec_publish_body(p.spec_qos(), p.spec_topic(), p.spec_packet_id(), p.spec_msg());
    assert(spec_encode_publish(p) == spec_encode_fixed_header(h) + body);
    crate::utils::lemma_prefix_of_concat(b, spec_encode_fixed_header(h), body);
    assert(crate::base::spec_fixed_header_wf(h));
}

/// Under the same hypothesis, after the actual decoded header the topic
/// string comes first, and the decoded header is the packet's own.
proof fn lemma_publish_prefix_fields(
    b: Seq<u8>,
    p: PublishPacket,
    fixed_header: FixedHeader,
    rem1: Seq<u8>,
)
    requires
        p.wf(),
        crate::utils::spec_prefix(b, spec_encode_publish(p)),
        crate::base::spec_header_prefix(b, fixed_header),
        rem1 == b.skip(spec_encode_fixed_header(fixed_header).len() as int),
    ensures
        fixed_header == PublishPacket::spec_header(p),
        crate::utils::spec_prefix(rem1, spec_encode_string(p.spec_topic())),
        crate::utils::valid_mqtt_string_bytes(vstd::utf8::encode_utf8(p.spec_topic())),
        crate::utils::spec_prefix(
            rem1.skip(spec_encode_string(p.spec_topic()).len() as int),
            (if p.spec_qos() is AtMostOnce {
                Seq::<u8>::empty()
            } else {
                be_u16_bytes(p.spec_packet_id())
            }) + p.spec_msg(),
        ),
{
    lemma_publish_prefix_header(b, p);
    crate::base::lemma_header_prefix_deterministic(b, fixed_header, PublishPacket::spec_header(p));
    let body = spec_publish_body(p.spec_qos(), p.spec_topic(), p.spec_packet_id(), p.spec_msg());
    let pid_part: Seq<u8> = if p.spec_qos() is AtMostOnce {
        Seq::<u8>::empty()
    } else {
        be_u16_bytes(p.spec_packet_id())
    };
    assert(body =~= spec_encode_string(p.spec_topic()) + (pid_part + p.spec_msg()));
    crate::utils::lemma_prefix_of_concat(
        rem1,
        spec_encode_string(p.spec_topic()),
        pid_part + p.spec_msg(),
    );
    vstd::utf8::encode_utf8_valid_utf8(p.spec_topic());
    assert(!vstd::utf8::encode_utf8(p.spec_topic()).contains(0u8));
}

} // verus!

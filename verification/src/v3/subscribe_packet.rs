//! The SUBSCRIBE packet: a packet identifier and a list of topic filters,
//! each with the highest quality of service the client will accept.

use vstd::prelude::*;
use crate::base::{DecodeError, EncodeError, FixedHeader, PacketId, PacketType, QoS, VARINT_MAX,
    spec_encode_fixed_header, spec_qos_value};
use crate::byte_array::ByteArray;
use crate::data::{append_u16, StringData, spec_encode_string};
use crate::topic::{spec_valid_sub_topic, Topic};
use crate::utils::be_u16_bytes;

verus! {

/// Topic filter and quality-of-service pair.
#[derive(Debug, Clone, PartialEq, Eq)]
pub struct SubscribeTopic {
    topic: StringData,
    qos: QoS,
}

impl View for SubscribeTopic {
    type V = (Seq<char>, QoS);

    closed spec fn view(&self) -> (Seq<char>, QoS) {
        (self.topic@, self.qos)
    }
}

/// The bytes of one filter entry: the filter string, then the QoS byte.
pub open spec fn spec_encode_sub_topic(t: SubscribeTopic) -> Seq<u8> {
    spec_encode_string(t@.0) + seq![spec_qos_value(t@.1)]
}

/// The bytes of a filter list, first entry first.
pub open spec fn spec_encode_sub_topics(ts: Seq<SubscribeTopic>) -> Seq<u8>
    decreases ts.len(),
{
    if ts.len() == 0 {
        Seq::empty()
    } else {
        spec_encode_sub_topic(ts[0]) + spec_encode_sub_topics(ts.drop_first())
    }
}

/// Appending an entry appends its bytes.
pub proof fn lemma_encode_sub_topics_push(ts: Seq<SubscribeTopic>, t: SubscribeTopic)
    ensures
        spec_encode_sub_topics(ts.push(t)) == spec_encode_sub_topics(ts) + spec_encode_sub_topic(
            t,
        ),
    decreases ts.len(),
{
    assert(spec_encode_sub_topics(Seq::<SubscribeTopic>::empty()) =~= Seq::<u8>::empty());
    if ts.len() == 0 {
        assert(ts.push(t).drop_first() =~= Seq::<SubscribeTopic>::empty());
        assert(ts.push(t)[0] == t);
        assert(spec_encode_sub_topics(ts) =~= Seq::<u8>::empty());
        assert(spec_encode_sub_topics(ts.push(t)) =~= spec_encode_sub_topic(t));
        assert(spec_encode_sub_topics(ts) + spec_encode_sub_topic(t) =~= spec_encode_sub_topic(t));
    } else {
        assert(ts.push(t).drop_first() =~= ts.drop_first().push(t));
        lemma_encode_sub_topics_push(ts.drop_first(), t);
        assert(spec_encode_sub_topics(ts.push(t)) =~= spec_encode_sub_topics(ts)
            + spec_encode_sub_topic(t));
    }
}

impl SubscribeTopic {
    /// A filter entry the codec will put on the wire.
    pub open spec fn wf(&self) -> bool {
        &&& spec_valid_sub_topic(self@.0)
        &&& crate::utils::valid_mqtt_string_bytes(vstd::utf8::encode_utf8(self@.0))
    }

    /// Pair a filter string with a quality of service.
    pub fn new(topic: String, qos: QoS) -> (r: Result<Self, EncodeError>)
        ensures
            r is Ok <==> crate::utils::valid_mqtt_string_bytes(
                vstd::utf8::encode_utf8(topic@),
            ),
            r matches Ok(t) ==> t@.0 == topic@ && t@.1 == qos && (spec_valid_sub_topic(topic@)
                ==> t.wf()),
    {
        proof {
            vstd::utf8::encode_utf8_valid_utf8(topic@);
        }
        let topic = StringData::from_str(topic.as_str())?;
        Ok(SubscribeTopic { topic, qos })
    }

    /// A copy with the same filter and quality of service.
    pub fn duplicate(&self) -> (r: Self)
        ensures
            r@ == self@,
    {
        SubscribeTopic { topic: self.topic.duplicate(), qos: self.qos }
    }

    /// The filter string.
    pub fn topic(&self) -> (r: &str)
        ensures
            r@ == self@.0,
    {
        self.topic.as_str()
    }

    /// The highest quality of service accepted.
    pub fn qos(&self) -> (r: QoS)
        ensures
            r == self@.1,
    {
        self.qos
    }

    /// The number of bytes this entry occupies on the wire.
    pub fn bytes(&self) -> (r: usize)
        requires
            crate::utils::valid_mqtt_string_bytes(vstd::utf8::encode_utf8(self@.0)),
        ensures
            r == spec_encode_sub_topic(*self).len(),
            r <= 65538,
    {
        self.topic.bytes() + 1
    }

    /// Append this entry's bytes to `buf`.
    pub fn encode(&self, buf: &mut Vec<u8>) -> (r: Result<usize, EncodeError>)
        requires
            crate::utils::valid_mqtt_string_bytes(vstd::utf8::encode_utf8(self@.0)),
        ensures
            r matches Ok(n) && final(buf)@ == old(buf)@ + spec_encode_sub_topic(*self) && n
                == spec_encode_sub_topic(*self).len(),
    {
        let n = self.topic.encode(buf)?;
        buf.push(self.qos.value());
        assert(buf@ =~= old(buf)@ + spec_encode_sub_topic(*self));
        Ok(n + 1)
    }

    /// Read one filter entry; the upper bits of the QoS byte must be zero.
    /// A buffer that begins with a well-formed entry's bytes is accepted.
    pub fn decode(ba: &mut ByteArray) -> (r: Result<Self, DecodeError>)
        requires
            old(ba).wf(),
        ensures
            final(ba).wf(),
            final(ba).spec_data() == old(ba).spec_data(),
            r matches Ok(t) ==> {
                &&& t.wf()
                &&& old(ba).spec_remaining() == spec_encode_sub_topic(t) + final(ba).spec_remaining()
                &&& spec_encode_sub_topic(t).len() >= 4
            },
            forall|t: SubscribeTopic|
                t.wf() && crate::utils::spec_prefix(
                    old(ba).spec_remaining(),
                    #[trigger] spec_encode_sub_topic(t),
                ) ==> (r matches Ok(d) && d@ == t@),
    {
        let ghost rem0 = old(ba).spec_remaining();
        let topic = match StringData::decode(ba) {
            Ok(d) => d,
            Err(e) => {
                proof {
                    assert forall|t: SubscribeTopic|
                        t.wf() && crate::utils::spec_prefix(
                            rem0,
                            #[trigger] spec_encode_sub_topic(t),
                        ) implies false by {
                        crate::utils::lemma_prefix_of_concat(
                            rem0,
                            spec_encode_string(t@.0),
                            seq![spec_qos_value(t@.1)],
                        );
                        crate::data::lemma_string_prefix_decodable(rem0, t@.0);
                    }
                }
                return Err(e);
            },
        };
        proof {
            assert forall|t: SubscribeTopic|
                t.wf() && crate::utils::spec_prefix(
                    rem0,
                    #[trigger] spec_encode_sub_topic(t),
                ) implies topic@ == t@.0 by {
                crate::utils::lemma_prefix_of_concat(
                    rem0,
                    spec_encode_string(t@.0),
                    seq![spec_qos_value(t@.1)],
                );
                assert(crate::utils::spec_prefix(rem0, spec_encode_string(topic@))) by {
                    assert(rem0.take(spec_encode_string(topic@).len() as int)
                        =~= spec_encode_string(topic@));
                }
                crate::data::lemma_string_prefix_deterministic(rem0, topic@, t@.0);
            }
        }
        if Topic::validate_sub_topic(topic.as_str()).is_err() {
            return Err(DecodeError::InvalidTopicFilter);
        }
        let ghost rem1 = ba.spec_remaining();
        let qos_flag = match ba.read_byte() {
            Ok(b) => b,
            Err(e) => {
                proof {
                    assert forall|t: SubscribeTopic|
                        t.wf() && crate::utils::spec_prefix(
                            rem0,
                            #[trigger] spec_encode_sub_topic(t),
                        ) implies false by {
                        crate::utils::lemma_prefix_of_concat(
                            rem0,
                            spec_encode_string(t@.0),
                            seq![spec_qos_value(t@.1)],
                        );
                        assert(rem1 =~= rem0.skip(spec_encode_string(topic@).len() as int));
                    }
                }
                return Err(DecodeError::from_byte_array(e));
            },
        };
        proof {
            assert forall|t: SubscribeTopic|
                t.wf() && crate::utils::spec_prefix(
                    rem0,
                    #[trigger] spec_encode_sub_topic(t),
                ) implies qos_flag == spec_qos_value(t@.1) by {
                crate::utils::lemma_prefix_of_concat(
                    rem0,
                    spec_encode_string(t@.0),
                    seq![spec_qos_value(t@.1)],
                );
                assert(rem1 =~= rem0.skip(spec_encode_string(topic@).len() as int));
                assert(rem1.take(1)[0] == rem1[0]);
            }
        }
        if qos_flag >= 4 {
            return Err(DecodeError::InvalidQoS);
        }
        let qos = match QoS::try_from(qos_flag) {
            Ok(q) => q,
            Err(e) => {
                return Err(e);
            },
        };
        let t = SubscribeTopic { topic, qos };
        proof {
            assert(rem1[0] == spec_qos_value(qos));
            assert(old(ba).spec_remaining() =~= spec_encode_sub_topic(t) + ba.spec_remaining());
        }
        Ok(t)
    }
}

/// Entry lists with the same filters and levels encode alike.
proof fn lemma_sub_topics_view_encoding(l1: Seq<SubscribeTopic>, l2: Seq<SubscribeTopic>)
    requires
        l1.len() == l2.len(),
        forall|i: int| 0 <= i < l1.len() ==> (#[trigger] l1[i])@ == l2[i]@,
    ensures
        spec_encode_sub_topics(l1) == spec_encode_sub_topics(l2),
    decreases l1.len(),
{
    if l1.len() > 0 {
        assert(forall|i: int|
            0 <= i < l1.drop_first().len() ==> (#[trigger] l1.drop_first()[i])@
                == l2.drop_first()[i]@);
        lemma_sub_topics_view_encoding(l1.drop_first(), l2.drop_first());
        assert(spec_encode_sub_topic(l1[0]) == spec_encode_sub_topic(l2[0]));
        assert(spec_encode_sub_topics(l1) =~= spec_encode_sub_topics(l2));
    }
}

/// The bytes of a SUBSCRIBE packet.
pub open spec fn spec_encode_subscribe(p: SubscribePacket) -> Seq<u8> {
    spec_encode_fixed_header(
        FixedHeader {
            packet_type: PacketType::Subscribe,
            packet_flags: crate::base::PacketFlags::Subscribe,
            remaining_length: (2 + spec_encode_sub_topics(p.spec_topics()).len()) as u32,
        },
    ) + be_u16_bytes(p.spec_packet_id()) + spec_encode_sub_topics(p.spec_topics())
}

/// A request to subscribe to one or more topic filters.
#[derive(Debug, Clone, PartialEq, Eq)]
pub struct SubscribePacket {
    packet_id: PacketId,
    topics: Vec<SubscribeTopic>,
}

impl SubscribePacket {
    /// The packet identifier the SUBACK will carry back.
    pub closed spec fn spec_packet_id(&self) -> PacketId {
        self.packet_id
    }

    /// The filter entries.
    pub closed spec fn spec_topics(&self) -> Seq<SubscribeTopic> {
        self.topics@
    }

    /// A packet the codec will put on the wire: a non-zero packet
    /// identifier, at least one well-formed filter, and a body within the
    /// remaining-length range.
    pub open spec fn wf(&self) -> bool {
        &&& self.spec_packet_id() != 0
        &&& self.spec_topics().len() >= 1
        &&& forall|k: int|
            0 <= k < self.spec_topics().len() ==> (#[trigger] self.spec_topics()[k]).wf()
        &&& 2 + spec_encode_sub_topics(self.spec_topics()).len() <= VARINT_MAX
    }

    /// Build a packet subscribing to one filter.
    pub fn new(topic: &str, qos: QoS, packet_id: PacketId) -> (r: Result<
        SubscribePacket,
        DecodeError,
    >)
        ensures
            r is Ok <==> spec_valid_sub_topic(topic@) && crate::utils::valid_mqtt_string_bytes(
                vstd::utf8::encode_utf8(topic@),
            ),
            r matches Ok(p) ==> {
                &&& p.spec_packet_id() == packet_id
                &&& p.spec_topics().len() == 1
                &&& p.spec_topics()[0]@.0 == topic@
                &&& p.spec_topics()[0]@.1 == qos
                &&& (packet_id != 0 ==> p.wf())
            },
    {
        proof {
            vstd::utf8::encode_utf8_valid_utf8(topic@);
        }
        if Topic::validate_sub_topic(topic).is_err() {
            return Err(DecodeError::InvalidTopicFilter);
        }
        let topic_data = match StringData::from_str(topic) {
            Ok(d) => d,
            Err(_) => {
                return Err(DecodeError::InvalidTopicFilter);
            },
        };
        let p = SubscribePacket { packet_id, topics: vec![SubscribeTopic { topic: topic_data, qos }] };
        proof {
            assert(p.spec_topics().drop_first() =~= Seq::<SubscribeTopic>::empty());
            assert(spec_encode_sub_topics(Seq::<SubscribeTopic>::empty()) =~= Seq::<u8>::empty());
            assert(spec_encode_sub_topics(p.spec_topics()) =~= spec_encode_sub_topic(
                p.spec_topics()[0],
            ));
        }
        Ok(p)
    }

    /// Set the packet identifier.
    pub fn set_packet_id(&mut self, packet_id: PacketId)
        ensures
            final(self).spec_packet_id() == packet_id,
            final(self).spec_topics() == old(self).spec_topics(),
    {
        self.packet_id = packet_id;
    }

    /// The packet identifier.
    pub fn packet_id(&self) -> (r: PacketId)
        ensures
            r == self.spec_packet_id(),
    {
        self.packet_id
    }

    /// Replace the filter list.
    pub fn set_topics(&mut self, topics: &[SubscribeTopic])
        ensures
            final(self).spec_packet_id() == old(self).spec_packet_id(),
            final(self).spec_topics().len() == topics@.len(),
            forall|k: int|
                0 <= k < topics@.len() ==> (#[trigger] final(self).spec_topics()[k])@ == topics@[
                    k
                ]@,
    {
        self.topics.clear();
        let mut i: usize = 0;
        while i < topics.len()
            invariant
                0 <= i <= topics@.len(),
                self.topics@.len() == i,
                self.packet_id == old(self).packet_id,
                forall|k: int| 0 <= k < i ==> (#[trigger] self.topics@[k])@ == topics@[k]@,
            decreases topics@.len() - i,
        {
            let t = topics[i].duplicate();
            self.topics.push(t);
            i += 1;
        }
    }

    /// The filter entries.
    pub fn topics(&self) -> (r: &[SubscribeTopic])
        ensures
            r@ == self.spec_topics(),
    {
        self.topics.as_slice()
    }

    /// The filter entries, for in-place change.
    pub fn mut_topics(&mut self) -> (r: &mut Vec<SubscribeTopic>)
        ensures
            r@ == old(self).spec_topics(),
            final(self).spec_topics() == final(r)@,
            final(self).spec_packet_id() == old(self).spec_packet_id(),
    {
        &mut self.topics
    }

    /// The packet type this packet announces.
    pub fn packet_type(&self) -> (r: PacketType)
        ensures
            r == PacketType::Subscribe,
    {
        PacketType::Subscribe
    }

    /// Append the packet bytes to `buf`.
    pub fn encode(&self, buf: &mut Vec<u8>) -> (r: Result<usize, EncodeError>)
        requires
            self.wf(),
        ensures
            r matches Ok(n) && final(buf)@ == old(buf)@ + spec_encode_subscribe(*self) && n
                == spec_encode_subscribe(*self).len(),
    {
        let mut remaining_length: usize = 2;
        let mut i: usize = 0;
        proof {
            assert(self.spec_topics().take(0) =~= Seq::<SubscribeTopic>::empty());
        }
        while i < self.topics.len()
            invariant
                self.wf(),
                0 <= i <= self.spec_topics().len(),
                remaining_length == 2 + spec_encode_sub_topics(
                    self.spec_topics().take(i as int),
                ).len(),
                remaining_length <= VARINT_MAX,
            decreases self.spec_topics().len() - i,
        {
            proof {
                assert(self.spec_topics().take(i + 1) =~= self.spec_topics().take(i as int).push(
                    self.spec_topics()[i as int],
                ));
                lemma_encode_sub_topics_push(
                    self.spec_topics().take(i as int),
                    self.spec_topics()[i as int],
                );
                lemma_sub_topics_prefix_len(self.spec_topics(), i + 1);
            }
            let b = self.topics[i].bytes();
            remaining_length = remaining_length + b;
            i += 1;
        }
        proof {
            assert(self.spec_topics().take(self.spec_topics().len() as int) =~= self.spec_topics());
        }
        let fixed_header = match FixedHeader::new(PacketType::Subscribe, remaining_length) {
            Ok(h) => h,
            Err(e) => {
                return Err(e);
            },
        };
        let hn = match fixed_header.encode(buf) {
            Ok(n) => n,
            Err(e) => {
                return Err(e);
            },
        };
        append_u16(buf, self.packet_id);
        let ghost base_len = buf@.len() as int;
        let mut k: usize = 0;
        proof {
            assert(self.spec_topics().take(0) =~= Seq::<SubscribeTopic>::empty());
            assert(spec_encode_sub_topics(Seq::<SubscribeTopic>::empty()) =~= Seq::<u8>::empty());
            assert(buf@ =~= old(buf)@ + spec_encode_fixed_header(fixed_header) + be_u16_bytes(
                self.spec_packet_id(),
            ));
            assert(buf@.take(base_len) =~= buf@);
            assert(buf@ =~= buf@.take(base_len) + spec_encode_sub_topics(
                self.spec_topics().take(0),
            ));
        }
        while k < self.topics.len()
            invariant
                self.wf(),
                0 <= k <= self.spec_topics().len(),
                0 <= base_len <= buf@.len(),
                buf@ =~= buf@.take(base_len) + spec_encode_sub_topics(
                    self.spec_topics().take(k as int),
                ),
                buf@.take(base_len) == old(buf)@ + spec_encode_fixed_header(fixed_header)
                    + be_u16_bytes(self.spec_packet_id()),
            decreases self.spec_topics().len() - k,
        {
            proof {
                assert(self.spec_topics().take(k + 1) =~= self.spec_topics().take(k as int).push(
                    self.spec_topics()[k as int],
                ));
                lemma_encode_sub_topics_push(
                    self.spec_topics().take(k as int),
                    self.spec_topics()[k as int],
                );
            }
            let ghost prev_buf = buf@;
            let tk = vstd::slice::slice_index_get(self.topics.as_slice(), k);
            let _ = match tk.encode(buf) {
                Ok(n) => n,
                Err(e) => {
                    return Err(e);
                },
            };
            proof {
                assert(buf@.take(base_len) =~= prev_buf.take(base_len));
                assert(buf@.take(base_len) =~= old(buf)@ + spec_encode_fixed_header(fixed_header)
                    + be_u16_bytes(self.spec_packet_id()));
                assert(buf@ =~= buf@.take(base_len) + spec_encode_sub_topics(
                    self.spec_topics().take(k + 1),
                ));
            }
            k += 1;
        }
        proof {
            assert(self.spec_topics().take(self.spec_topics().len() as int) =~= self.spec_topics());
            assert(buf@ =~= old(buf)@ + spec_encode_subscribe(*self));
            crate::base::lemma_varint_round_trip(remaining_length as int, Seq::empty());
        }
        Ok(hn + remaining_length)
    }

    /// Read a SUBSCRIBE packet from the cursor: the packet identifier, then
    /// filter entries until the announced remaining length is consumed.
    /// The fixed header a SUBSCRIBE packet encodes under.
    pub open spec fn spec_header(p: SubscribePacket) -> FixedHeader {
        FixedHeader {
            packet_type: PacketType::Subscribe,
            packet_flags: crate::base::PacketFlags::Subscribe,
            remaining_length: (2 + spec_encode_sub_topics(p.spec_topics()).len()) as u32,
        }
    }

    #[verifier::rlimit(100)]
    pub fn decode(ba: &mut ByteArray) -> (r: Result<SubscribePacket, DecodeError>)
        requires
            old(ba).wf(),
        ensures
            final(ba).wf(),
            final(ba).spec_data() == old(ba).spec_data(),
            r matches Ok(p) ==> p.wf() && old(ba).spec_remaining() == spec_encode_subscribe(p)
                + final(ba).spec_remaining(),
            forall|q: SubscribePacket|
                q.wf() && crate::utils::spec_prefix(
                    old(ba).spec_remaining(),
                    #[trigger] spec_encode_subscribe(q),
                ) ==> r is Ok,
            (forall|h: FixedHeader|
                crate::base::spec_header_prefix(old(ba).spec_remaining(), h) && h.packet_type
                    != PacketType::Subscribe ==> r == Err::<SubscribePacket, DecodeError>(
                    DecodeError::InvalidPacketType,
                )),
    {
        let ghost rem0 = old(ba).spec_remaining();
        let fixed_header = match FixedHeader::decode(ba) {
            Ok(h) => h,
            Err(e) => {
                proof {
                    assert forall|q: SubscribePacket|
                        q.wf() && crate::utils::spec_prefix(
                            rem0,
                            #[trigger] spec_encode_subscribe(q),
                        ) implies false by {
                        lemma_subscribe_prefix_header(rem0, q);
                    }
                }
                return Err(e);
            },
        };
        proof {
            assert(rem0.take(spec_encode_fixed_header(fixed_header).len() as int)
                =~= spec_encode_fixed_header(fixed_header));
            assert(crate::base::spec_header_prefix(rem0, fixed_header));
            assert forall|h: FixedHeader|
                crate::base::spec_header_prefix(rem0, h) implies h == fixed_header by {
                crate::base::lemma_header_prefix_deterministic(rem0, h, fixed_header);
            }
        }
        if !matches!(fixed_header.packet_type, PacketType::Subscribe) {
            proof {
                assert forall|q: SubscribePacket|
                    q.wf() && crate::utils::spec_prefix(
                        rem0,
                        #[trigger] spec_encode_subscribe(q),
                    ) implies false by {
                    lemma_subscribe_prefix_header(rem0, q);
                }
            }
            return Err(DecodeError::InvalidPacketType);
        }
        let remaining_length = fixed_header.remaining_length as usize;
        let ghost rem1 = ba.spec_remaining();
        proof {
            assert(rem1 =~= rem0.skip(spec_encode_fixed_header(fixed_header).len() as int));
            assert forall|q: SubscribePacket|
                q.wf() && crate::utils::spec_prefix(
                    rem0,
                    #[trigger] spec_encode_subscribe(q),
                ) implies fixed_header == Self::spec_header(q) && crate::utils::spec_prefix(
                rem1,
                be_u16_bytes(q.spec_packet_id()) + spec_encode_sub_topics(q.spec_topics()),
            ) by {
                lemma_subscribe_prefix_header(rem0, q);
                crate::base::lemma_header_prefix_deterministic(
                    rem0,
                    fixed_header,
                    Self::spec_header(q),
                );
            }
        }
        if remaining_length < 2 {
            return Err(DecodeError::InvalidRemainingLength);
        }
        let packet_id = match ba.read_u16() {
            Ok(v) => v,
            Err(e) => {
                proof {
                    assert forall|q: SubscribePacket|
                        q.wf() && crate::utils::spec_prefix(
                            rem0,
                            #[trigger] spec_encode_subscribe(q),
                        ) implies false by {
                        crate::utils::lemma_prefix_of_concat(
                            rem1,
                            be_u16_bytes(q.spec_packet_id()),
                            spec_encode_sub_topics(q.spec_topics()),
                        );
                    }
                }
                return Err(DecodeError::from_byte_array(e));
            },
        };
        proof {
            assert forall|q: SubscribePacket|
                q.wf() && crate::utils::spec_prefix(
                    rem0,
                    #[trigger] spec_encode_subscribe(q),
                ) implies packet_id == q.spec_packet_id() by {
                crate::utils::lemma_prefix_of_concat(
                    rem1,
                    be_u16_bytes(q.spec_packet_id()),
                    spec_encode_sub_topics(q.spec_topics()),
                );
                crate::data::lemma_be_u16_round_trip(q.spec_packet_id());
                assert(rem1.take(2)[0] == rem1[0] && rem1.take(2)[1] == rem1[1]);
            }
        }
        if packet_id == 0 {
            return Err(DecodeError::InvalidPacketId);
        }
        proof {
            crate::data::lemma_be_u16_round_trip(packet_id);
            assert(be_u16_bytes(packet_id) =~= rem1.take(2));
            assert(ba.spec_remaining() =~= rem1.skip(2));
        }
        let mut topics: Vec<SubscribeTopic> = Vec::new();
        let mut read: usize = 2;
        let ghost list_start = ba.spec_remaining();
        proof {
            assert(spec_encode_sub_topics(topics@) =~= Seq::<u8>::empty());
            assert(list_start =~= spec_encode_sub_topics(topics@) + ba.spec_remaining());
            assert forall|q: SubscribePacket|
                q.wf() && crate::utils::spec_prefix(
                    rem0,
                    #[trigger] spec_encode_subscribe(q),
                ) implies crate::utils::spec_prefix(
                list_start,
                spec_encode_sub_topics(q.spec_topics()),
            ) by {
                crate::utils::lemma_prefix_of_concat(
                    rem1,
                    be_u16_bytes(q.spec_packet_id()),
                    spec_encode_sub_topics(q.spec_topics()),
                );
                assert(list_start =~= rem1.skip(2));
            }
        }
        while read < remaining_length
            invariant
                ba.wf(),
                ba.spec_data() == old(ba).spec_data(),
                rem0 == old(ba).spec_remaining(),
                2 <= read <= remaining_length,
                remaining_length <= VARINT_MAX,
                remaining_length == fixed_header.remaining_length as usize,
                read == 2 + spec_encode_sub_topics(topics@).len(),
                list_start == spec_encode_sub_topics(topics@) + ba.spec_remaining(),
                rem1 == be_u16_bytes(packet_id) + list_start,
                forall|j: int| 0 <= j < topics@.len() ==> (#[trigger] topics@[j]).wf(),
                forall|h: FixedHeader| crate::base::spec_header_prefix(rem0, h) ==> h
                    == fixed_header,
                fixed_header.packet_type == PacketType::Subscribe,
                forall|q: SubscribePacket|
                    q.wf() && crate::utils::spec_prefix(
                        rem0,
                        #[trigger] spec_encode_subscribe(q),
                    ) ==> {
                        &&& fixed_header == Self::spec_header(q)
                        &&& crate::utils::spec_prefix(
                            list_start,
                            spec_encode_sub_topics(q.spec_topics()),
                        )
                        &&& topics@.len() <= q.spec_topics().len()
                        &&& (forall|i: int|
                            0 <= i < topics@.len() ==> (#[trigger] topics@[i])@
                                == q.spec_topics()[i]@)
                    },
            decreases remaining_length - read,
        {
            let ghost pre_rem = ba.spec_remaining();
            let ghost done = topics@;
            proof {
                assert forall|q: SubscribePacket|
                    q.wf() && crate::utils::spec_prefix(
                        rem0,
                        #[trigger] spec_encode_subscribe(q),
                    ) implies done.len() < q.spec_topics().len() && crate::utils::spec_prefix(
                    pre_rem,
                    spec_encode_sub_topic(q.spec_topics()[done.len() as int]),
                ) && remaining_length - read >= spec_encode_sub_topic(
                    q.spec_topics()[done.len() as int],
                ).len() by {
                    assert(2 + spec_encode_sub_topics(q.spec_topics()).len() <= VARINT_MAX);
                    assert(remaining_length == 2 + spec_encode_sub_topics(
                        q.spec_topics(),
                    ).len());
                    lemma_subscribe_loop_step(
                        list_start,
                        done,
                        q.spec_topics(),
                        pre_rem,
                        (remaining_length - read) as int,
                    );
                }
            }
            let tr = SubscribeTopic::decode(ba);
            proof {
                assert forall|q: SubscribePacket|
                    q.wf() && crate::utils::spec_prefix(
                        rem0,
                        #[trigger] spec_encode_subscribe(q),
                    ) implies (tr matches Ok(d) && d@ == q.spec_topics()[done.len() as int]@) by {
                    assert(q.spec_topics()[done.len() as int].wf());
                    assert(crate::utils::spec_prefix(
                        pre_rem,
                        spec_encode_sub_topic(q.spec_topics()[done.len() as int]),
                    ));
                }
            }
            let topic = match tr {
                Ok(t) => t,
                Err(e) => {
                    return Err(e);
                },
            };
            let b = topic.bytes();
            proof {
                assert forall|q: SubscribePacket|
                    q.wf() && crate::utils::spec_prefix(
                        rem0,
                        #[trigger] spec_encode_subscribe(q),
                    ) implies topic@ == q.spec_topics()[done.len() as int]@ && b
                    <= remaining_length - read by {
                    assert(spec_encode_sub_topic(topic) == spec_encode_sub_topic(
                        q.spec_topics()[done.len() as int],
                    ));
                }
            }
            if b > remaining_length - read {
                return Err(DecodeError::InvalidRemainingLength);
            }
            proof {
                lemma_encode_sub_topics_push(topics@, topic);
                assert(list_start =~= spec_encode_sub_topics(topics@.push(topic))
                    + ba.spec_remaining());
            }
            topics.push(topic);
            read = read + b;
        }
        proof {
            assert forall|q: SubscribePacket|
                q.wf() && crate::utils::spec_prefix(
                    rem0,
                    #[trigger] spec_encode_subscribe(q),
                ) implies topics@.len() == q.spec_topics().len() && topics@.len() >= 1 by {
                lemma_sub_topics_view_encoding_prefix(topics@, q.spec_topics());
            }
        }
        if topics.is_empty() {
            return Err(DecodeError::EmptyTopicFilter);
        }
        let p = SubscribePacket { packet_id, topics };
        proof {
            assert(2 + spec_encode_sub_topics(p.spec_topics()).len() == remaining_length);
            assert(rem1 =~= be_u16_bytes(packet_id) + spec_encode_sub_topics(p.spec_topics())
                + ba.spec_remaining());
            assert(old(ba).spec_remaining() =~= spec_encode_subscribe(p) + ba.spec_remaining());
        }
        Ok(p)
    }
}

/// The byte length of an encoded prefix never exceeds the whole list's.
proof fn lemma_sub_topics_prefix_len(ts: Seq<SubscribeTopic>, i: int)
    requires
        0 <= i <= ts.len(),
    ensures
        spec_encode_sub_topics(ts.take(i)).len() <= spec_encode_sub_topics(ts).len(),
    decreases i,
{
    if i > 0 {
        assert(ts.take(i) =~= ts.take(i - 1).push(ts[i - 1]));
        lemma_encode_sub_topics_push(ts.take(i - 1), ts[i - 1]);
        lemma_sub_topics_prefix_len(ts, i - 1);
        lemma_sub_topics_suffix(ts, i);
    }
}

/// The whole list's bytes are the prefix's bytes plus the suffix's.
proof fn lemma_sub_topics_suffix(ts: Seq<SubscribeTopic>, i: int)
    requires
        0 <= i <= ts.len(),
    ensures
        spec_encode_sub_topics(ts) == spec_encode_sub_topics(ts.take(i)) + spec_encode_sub_topics(
            ts.skip(i),
        ),
    decreases ts.len() - i,
{
    if i == ts.len() {
        assert(ts.take(i) =~= ts);
        assert(ts.skip(i) =~= Seq::<SubscribeTopic>::empty());
        assert(spec_encode_sub_topics(ts) =~= spec_encode_sub_topics(ts.take(i))
            + spec_encode_sub_topics(ts.skip(i)));
    } else {
        lemma_sub_topics_suffix(ts, i + 1);
        assert(ts.take(i + 1) =~= ts.take(i).push(ts[i]));
        lemma_encode_sub_topics_push(ts.take(i), ts[i]);
        assert(ts.skip(i)[0] == ts[i]);
        assert(ts.skip(i).drop_first() =~= ts.skip(i + 1));
        assert(spec_encode_sub_topics(ts.skip(i)) =~= spec_encode_sub_topic(ts[i])
            + spec_encode_sub_topics(ts.skip(i + 1)));
        assert(spec_encode_sub_topics(ts) =~= spec_encode_sub_topics(ts.take(i))
            + spec_encode_sub_topics(ts.skip(i)));
    }
}

/// A buffer beginning with a well-formed SUBSCRIBE's bytes begins with
/// its header.
proof fn lemma_subscribe_prefix_header(b: Seq<u8>, q: SubscribePacket)
    requires
        q.wf(),
        crate::utils::spec_prefix(b, spec_encode_subscribe(q)),
    ensures
        crate::base::spec_header_prefix(b, SubscribePacket::spec_header(q)),
        crate::utils::spec_prefix(
            b.skip(spec_encode_fixed_header(SubscribePacket::spec_header(q)).len() as int),
            be_u16_bytes(q.spec_packet_id()) + spec_encode_sub_topics(q.spec_topics()),
        ),
{
    let h = SubscribePacket::spec_header(q);
    let body = be_u16_bytes(q.spec_packet_id()) + spec_encode_sub_topics(q.spec_topics());
    assert(spec_encode_subscribe(q) =~= spec_encode_fixed_header(h) + body);
    crate::utils::lemma_prefix_of_concat(b, spec_encode_fixed_header(h), body);
    assert(crate::base::spec_fixed_header_wf(h));
}

/// One step of reading a SUBSCRIBE filter list: after the entries read so
/// far, with budget left, the hypothesis list has a next entry and its
/// bytes come first.
proof fn lemma_subscribe_loop_step(
    list_start: Seq<u8>,
    done: Seq<SubscribeTopic>,
    all: Seq<SubscribeTopic>,
    rest: Seq<u8>,
    budget: int,
)
    requires
        crate::utils::spec_prefix(list_start, spec_encode_sub_topics(all)),
        list_start == spec_encode_sub_topics(done) + rest,
        done.len() <= all.len(),
        forall|i: int| 0 <= i < done.len() ==> (#[trigger] done[i])@ == all[i]@,
        budget > 0,
        budget == spec_encode_sub_topics(all).len() - spec_encode_sub_topics(done).len(),
    ensures
        done.len() < all.len(),
        crate::utils::spec_prefix(rest, spec_encode_sub_topic(all[done.len() as int])),
        budget >= spec_encode_sub_topic(all[done.len() as int]).len(),
{
    let n = done.len() as int;
    assert(forall|i: int| 0 <= i < n ==> (#[trigger] done[i])@ == all.take(n)[i]@);
    lemma_sub_topics_view_encoding(done, all.take(n));
    lemma_sub_topics_suffix(all, n);
    if n == all.len() {
        assert(all.take(n) =~= all);
    }
    assert(n < all.len());
    assert(rest =~= list_start.skip(spec_encode_sub_topics(done).len() as int));
    crate::utils::lemma_prefix_of_concat(
        list_start,
        spec_encode_sub_topics(all.take(n)),
        spec_encode_sub_topics(all.skip(n)),
    );
    assert(all.skip(n)[0] == all[n]);
    assert(all.skip(n).drop_first() =~= all.skip(n + 1));
    assert(spec_encode_sub_topics(all.skip(n)) =~= spec_encode_sub_topic(all[n])
        + spec_encode_sub_topics(all.skip(n + 1)));
    crate::utils::lemma_prefix_of_concat(
        rest,
        spec_encode_sub_topic(all[n]),
        spec_encode_sub_topics(all.skip(n + 1)),
    );
}

/// Entries read to the end of the announced list cover the whole
/// hypothesis list.
proof fn lemma_sub_topics_view_encoding_prefix(done: Seq<SubscribeTopic>, all: Seq<SubscribeTopic>)
    requires
        done.len() <= all.len(),
        forall|i: int| 0 <= i < done.len() ==> (#[trigger] done[i])@ == all[i]@,
        spec_encode_sub_topics(done).len() == spec_encode_sub_topics(all).len(),
    ensures
        done.len() == all.len(),
{
    let n = done.len() as int;
    assert(forall|i: int| 0 <= i < n ==> (#[trigger] done[i])@ == all.take(n)[i]@);
    lemma_sub_topics_view_encoding(done, all.take(n));
    lemma_sub_topics_suffix(all, n);
    if n < all.len() {
        assert(all.skip(n)[0] == all[n]);
        assert(all.skip(n).drop_first() =~= all.skip(n + 1));
        assert(spec_encode_sub_topics(all.skip(n)) =~= spec_encode_sub_topic(all[n])
            + spec_encode_sub_topics(all.skip(n + 1)));
        assert(spec_encode_sub_topic(all[n]).len() >= 3);
    }
}

} // verus!

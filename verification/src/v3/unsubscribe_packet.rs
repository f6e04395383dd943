//! The UNSUBSCRIBE packet: a packet identifier and the filters to drop.

use vstd::prelude::*;
use crate::base::{DecodeError, EncodeError, FixedHeader, PacketId, PacketType, VARINT_MAX,
    spec_encode_fixed_header};
use crate::byte_array::ByteArray;
use crate::data::{append_u16, StringData, spec_encode_string};
use crate::topic::{spec_valid_sub_topic, Topic};
use crate::utils::be_u16_bytes;

verus! {

/// The bytes of a filter list, first filter first.
pub open spec fn spec_encode_unsub_topics(ts: Seq<StringData>) -> Seq<u8>
    decreases ts.len(),
{
    if ts.len() == 0 {
        Seq::empty()
    } else {
        spec_encode_string(ts[0]@) + spec_encode_unsub_topics(ts.drop_first())
    }
}

/// Appending a filter appends its bytes.
pub proof fn lemma_encode_unsub_topics_push(ts: Seq<StringData>, t: StringData)
    ensures
        spec_encode_unsub_topics(ts.push(t)) == spec_encode_unsub_topics(ts) + spec_encode_string(
            t@,
        ),
    decreases ts.len(),
{
    assert(spec_encode_unsub_topics(Seq::<StringData>::empty()) =~= Seq::<u8>::empty());
    if ts.len() == 0 {
        assert(ts.push(t).drop_first() =~= Seq::<StringData>::empty());
        assert(ts.push(t)[0] == t);
        assert(spec_encode_unsub_topics(ts) =~= Seq::<u8>::empty());
        assert(spec_encode_unsub_topics(ts.push(t)) =~= spec_encode_unsub_topics(ts)
            + spec_encode_string(t@));
    } else {
        assert(ts.push(t).drop_first() =~= ts.drop_first().push(t));
        lemma_encode_unsub_topics_push(ts.drop_first(), t);
        assert(spec_encode_unsub_topics(ts.push(t)) =~= spec_encode_unsub_topics(ts)
            + spec_encode_string(t@));
    }
}

/// The bytes of an UNSUBSCRIBE packet.
pub open spec fn spec_encode_unsubscribe(p: UnsubscribePacket) -> Seq<u8> {
    spec_encode_fixed_header(
        FixedHeader {
            packet_type: PacketType::UnSubscribe,
            packet_flags: crate::base::PacketFlags::Subscribe,
            remaining_length: (2 + spec_encode_unsub_topics(p.spec_topics()).len()) as u32,
        },
    ) + be_u16_bytes(p.spec_packet_id()) + spec_encode_unsub_topics(p.spec_topics())
}

/// A request to drop one or more subscriptions.
#[derive(Debug, Clone, PartialEq, Eq)]
pub struct UnsubscribePacket {
    packet_id: PacketId,
    topics: Vec<StringData>,
}

impl UnsubscribePacket {
    /// The packet identifier the UNSUBACK will carry back.
    pub closed spec fn spec_packet_id(&self) -> PacketId {
        self.packet_id
    }

    /// The filters to drop.
    pub closed spec fn spec_topics(&self) -> Seq<StringData> {
        self.topics@
    }

    /// A packet the codec will put on the wire: a non-zero packet
    /// identifier, at least one well-formed filter, and a body within the
    /// remaining-length range.
    pub open spec fn wf(&self) -> bool {
        &&& self.spec_packet_id() != 0
        &&& self.spec_topics().len() >= 1
        &&& forall|k: int|
            0 <= k < self.spec_topics().len() ==> (#[trigger] self.spec_topics()[k]).wf()
                && spec_valid_sub_topic(self.spec_topics()[k]@)
        &&& 2 + spec_encode_unsub_topics(self.spec_topics()).len() <= VARINT_MAX
    }

    /// Build a packet dropping one filter.
    pub fn new(topic: &str, packet_id: PacketId) -> (r: Result<UnsubscribePacket, DecodeError>)
        ensures
            r is Ok <==> spec_valid_sub_topic(topic@) && crate::utils::valid_mqtt_string_bytes(
                vstd::utf8::encode_utf8(topic@),
            ),
            r matches Ok(p) ==> {
                &&& p.spec_packet_id() == packet_id
                &&& p.spec_topics().len() == 1
                &&& p.spec_topics()[0]@ == topic@
                &&& (packet_id != 0 ==> p.wf())
            },
    {
        proof {
            vstd::utf8::encode_utf8_valid_utf8(topic@);
        }
        if Topic::validate_sub_topic(topic).is_err() {
            return Err(DecodeError::InvalidTopicFilter);
        }
        let topic_data = match StringData::from_str(topic) {
            Ok(d) => d,
            Err(_) => {
                return Err(DecodeError::InvalidTopicFilter);
            },
        };
        let p = UnsubscribePacket { packet_id, topics: vec![topic_data] };
        proof {
            assert(p.spec_topics().drop_first() =~= Seq::<StringData>::empty());
            assert(spec_encode_unsub_topics(Seq::<StringData>::empty()) =~= Seq::<u8>::empty());
            assert(spec_encode_unsub_topics(p.spec_topics()) =~= spec_encode_string(
                p.spec_topics()[0]@,
            ));
        }
        Ok(p)
    }

    /// The packet identifier.
    pub fn packet_id(&self) -> (r: PacketId)
        ensures
            r == self.spec_packet_id(),
    {
        self.packet_id
    }

    /// The filters to drop.
    pub fn topics(&self) -> (r: &[StringData])
        ensures
            r@ == self.spec_topics(),
    {
        self.topics.as_slice()
    }

    /// The packet type this packet announces.
    pub fn packet_type(&self) -> (r: PacketType)
        ensures
            r == PacketType::UnSubscribe,
    {
        PacketType::UnSubscribe
    }

    /// Append the packet bytes to `buf`.
    pub fn encode(&self, buf: &mut Vec<u8>) -> (r: Result<usize, EncodeError>)
        requires
            self.wf(),
        ensures
            r matches Ok(n) && final(buf)@ == old(buf)@ + spec_encode_unsubscribe(*self) && n
                == spec_encode_unsubscribe(*self).len(),
    {
        let mut remaining_length: usize = 2;
        let mut i: usize = 0;
        proof {
            assert(self.spec_topics().take(0) =~= Seq::<StringData>::empty());
            assert(spec_encode_unsub_topics(Seq::<StringData>::empty()) =~= Seq::<u8>::empty());
        }
        while i < self.topics.len()
            invariant
                self.wf(),
                0 <= i <= self.spec_topics().len(),
                remaining_length == 2 + spec_encode_unsub_topics(
                    self.spec_topics().take(i as int),
                ).len(),
                remaining_length <= VARINT_MAX,
            decreases self.spec_topics().len() - i,
        {
            proof {
                assert(self.spec_topics().take(i + 1) =~= self.spec_topics().take(i as int).push(
                    self.spec_topics()[i as int],
                ));
                lemma_encode_unsub_topics_push(
                    self.spec_topics().take(i as int),
                    self.spec_topics()[i as int],
                );
                lemma_unsub_topics_prefix_len(self.spec_topics(), i + 1);
            }
            let t = vstd::slice::slice_index_get(self.topics.as_slice(), i);
            let b = t.bytes();
            remaining_length = remaining_length + b;
            i += 1;
        }
        proof {
            assert(self.spec_topics().take(self.spec_topics().len() as int) =~= self.spec_topics());
        }
        let fixed_header = match FixedHeader::new(PacketType::UnSubscribe, remaining_length) {
            Ok(h) => h,
            Err(e) => {
                return Err(e);
            },
        };
        let hn = match fixed_header.encode(buf) {
            Ok(n) => n,
            Err(e) => {
                return Err(e);
            },
        };
        append_u16(buf, self.packet_id);
        let ghost base_len = buf@.len() as int;
        let mut k: usize = 0;
        proof {
            assert(self.spec_topics().take(0) =~= Seq::<StringData>::empty());
            assert(spec_encode_unsub_topics(Seq::<StringData>::empty()) =~= Seq::<u8>::empty());
            assert(buf@ =~= old(buf)@ + spec_encode_fixed_header(fixed_header) + be_u16_bytes(
                self.spec_packet_id(),
            ));
            assert(buf@.take(base_len) =~= buf@);
            assert(buf@ =~= buf@.take(base_len) + spec_encode_unsub_topics(
                self.spec_topics().take(0),
            ));
        }
        while k < self.topics.len()
            invariant
                self.wf(),
                0 <= k <= self.spec_topics().len(),
                0 <= base_len <= buf@.len(),
                buf@ =~= buf@.take(base_len) + spec_encode_unsub_topics(
                    self.spec_topics().take(k as int),
                ),
                buf@.take(base_len) == old(buf)@ + spec_encode_fixed_header(fixed_header)
                    + be_u16_bytes(self.spec_packet_id()),
            decreases self.spec_topics().len() - k,
        {
            proof {
                assert(self.spec_topics().take(k + 1) =~= self.spec_topics().take(k as int).push(
                    self.spec_topics()[k as int],
                ));
                lemma_encode_unsub_topics_push(
                    self.spec_topics().take(k as int),
                    self.spec_topics()[k as int],
                );
            }
            let ghost prev_buf = buf@;
            let tk = vstd::slice::slice_index_get(self.topics.as_slice(), k);
            let _ = match tk.encode(buf) {
                Ok(n) => n,
                Err(e) => {
                    return Err(e);
                },
            };
            proof {
                assert(buf@.take(base_len) =~= prev_buf.take(base_len));
                assert(buf@ =~= buf@.take(base_len) + spec_encode_unsub_topics(
                    self.spec_topics().take(k + 1),
                ));
            }
            k += 1;
        }
        proof {
            assert(self.spec_topics().take(self.spec_topics().len() as int) =~= self.spec_topics());
            assert(buf@ =~= old(buf)@ + spec_encode_unsubscribe(*self));
            crate::base::lemma_varint_round_trip(remaining_length as int, Seq::empty());
        }
        Ok(hn + remaining_length)
    }

    /// The fixed header an UNSUBSCRIBE packet encodes under.
    pub open spec fn spec_header(p: UnsubscribePacket) -> FixedHeader {
        FixedHeader {
            packet_type: PacketType::UnSubscribe,
            packet_flags: crate::base::PacketFlags::Subscribe,
            remaining_length: (2 + spec_encode_unsub_topics(p.spec_topics()).len()) as u32,
        }
    }

    /// Read an UNSUBSCRIBE packet from the cursor: the packet identifier,
    /// then filters until the announced remaining length is consumed.  A
    /// buffer that begins with a well-formed packet's bytes is always
    /// accepted.
    #[verifier::rlimit(100)]
    pub fn decode(ba: &mut ByteArray) -> (r: Result<UnsubscribePacket, DecodeError>)
        requires
            old(ba).wf(),
        ensures
            final(ba).wf(),
            final(ba).spec_data() == old(ba).spec_data(),
            r matches Ok(p) ==> p.wf() && old(ba).spec_remaining() == spec_encode_unsubscribe(p)
                + final(ba).spec_remaining(),
            forall|q: UnsubscribePacket|
                q.wf() && crate::utils::spec_prefix(
                    old(ba).spec_remaining(),
                    #[trigger] spec_encode_unsubscribe(q),
                ) ==> r is Ok,
            (forall|h: FixedHeader|
                crate::base::spec_header_prefix(old(ba).spec_remaining(), h) && h.packet_type
                    != PacketType::UnSubscribe ==> r == Err::<UnsubscribePacket, DecodeError>(
                    DecodeError::InvalidPacketType,
                )),
    {
        let ghost rem0 = old(ba).spec_remaining();
        let fixed_header = match FixedHeader::decode(ba) {
            Ok(h) => h,
            Err(e) => {
                proof {
                    assert forall|q: UnsubscribePacket|
                        q.wf() && crate::utils::spec_prefix(
                            rem0,
                            #[trigger] spec_encode_unsubscribe(q),
                        ) implies false by {
                        lemma_unsubscribe_prefix_header(rem0, q);
                    }
                }
                return Err(e);
            },
        };
        proof {
            assert(rem0.take(spec_encode_fixed_header(fixed_header).len() as int)
                =~= spec_encode_fixed_header(fixed_header));
            assert(crate::base::spec_header_prefix(rem0, fixed_header));
            assert forall|h: FixedHeader|
                crate::base::spec_header_prefix(rem0, h) implies h == fixed_header by {
                crate::base::lemma_header_prefix_deterministic(rem0, h, fixed_header);
            }
        }
        if !matches!(fixed_header.packet_type, PacketType::UnSubscribe) {
            proof {
                assert forall|q: UnsubscribePacket|
                    q.wf() && crate::utils::spec_prefix(
                        rem0,
                        #[trigger] spec_encode_unsubscribe(q),
                    ) implies false by {
                    lemma_unsubscribe_prefix_header(rem0, q);
                }
            }
            return Err(DecodeError::InvalidPacketType);
        }
        let remaining_length = fixed_header.remaining_length as usize;
        let ghost rem1 = ba.spec_remaining();
        proof {
            assert(rem1 =~= rem0.skip(spec_encode_fixed_header(fixed_header).len() as int));
            assert forall|q: UnsubscribePacket|
                q.wf() && crate::utils::spec_prefix(
                    rem0,
                    #[trigger] spec_encode_unsubscribe(q),
                ) implies fixed_header == Self::spec_header(q) && crate::utils::spec_prefix(
                rem1,
                be_u16_bytes(q.spec_packet_id()) + spec_encode_unsub_topics(q.spec_topics()),
            ) by {
                lemma_unsubscribe_prefix_header(rem0, q);
                crate::base::lemma_header_prefix_deterministic(
                    rem0,
                    fixed_header,
                    Self::spec_header(q),
                );
            }
        }
        if remaining_length < 2 {
            return Err(DecodeError::InvalidRemainingLength);
        }
        let packet_id = match ba.read_u16() {
            Ok(v) => v,
            Err(e) => {
                proof {
                    assert forall|q: UnsubscribePacket|
                        q.wf() && crate::utils::spec_prefix(
                            rem0,
                            #[trigger] spec_encode_unsubscribe(q),
                        ) implies false by {
                        crate::utils::lemma_prefix_of_concat(
                            rem1,
                            be_u16_bytes(q.spec_packet_id()),
                            spec_encode_unsub_topics(q.spec_topics()),
                        );
                    }
                }
                return Err(DecodeError::from_byte_array(e));
            },
        };
        proof {
            assert forall|q: UnsubscribePacket|
                q.wf() && crate::utils::spec_prefix(
                    rem0,
                    #[trigger] spec_encode_unsubscribe(q),
                ) implies packet_id == q.spec_packet_id() by {
                crate::utils::lemma_prefix_of_concat(
                    rem1,
                    be_u16_bytes(q.spec_packet_id()),
                    spec_encode_unsub_topics(q.spec_topics()),
                );
                crate::data::lemma_be_u16_round_trip(q.spec_packet_id());
                assert(rem1.take(2)[0] == rem1[0] && rem1.take(2)[1] == rem1[1]);
            }
        }
        if packet_id == 0 {
            return Err(DecodeError::InvalidPacketId);
        }
        proof {
            crate::data::lemma_be_u16_round_trip(packet_id);
            assert(be_u16_bytes(packet_id) =~= rem1.take(2));
            assert(ba.spec_remaining() =~= rem1.skip(2));
        }
        let mut topics: Vec<StringData> = Vec::new();
        let mut read: usize = 2;
        let ghost list_start = ba.spec_remaining();
        proof {
            assert(spec_encode_unsub_topics(topics@) =~= Seq::<u8>::empty());
            assert(list_start =~= spec_encode_unsub_topics(topics@) + ba.spec_remaining());
            assert forall|q: UnsubscribePacket|
                q.wf() && crate::utils::spec_prefix(
                    rem0,
                    #[trigger] spec_encode_unsubscribe(q),
                ) implies crate::utils::spec_prefix(
                list_start,
                spec_encode_unsub_topics(q.spec_topics()),
            ) by {
                crate::utils::lemma_prefix_of_concat(
                    rem1,
                    be_u16_bytes(q.spec_packet_id()),
                    spec_encode_unsub_topics(q.spec_topics()),
                );
                assert(list_start =~= rem1.skip(2));
            }
        }
        while read < remaining_length
            invariant
                ba.wf(),
                ba.spec_data() == old(ba).spec_data(),
                rem0 == old(ba).spec_remaining(),
                2 <= read <= remaining_length,
                remaining_length <= VARINT_MAX,
                remaining_length == fixed_header.remaining_length as usize,
                read == 2 + spec_encode_unsub_topics(topics@).len(),
                list_start == spec_encode_unsub_topics(topics@) + ba.spec_remaining(),
                rem1 == be_u16_bytes(packet_id) + list_start,
                forall|j: int|
                    0 <= j < topics@.len() ==> (#[trigger] topics@[j]).wf()
                        && spec_valid_sub_topic(topics@[j]@),
                forall|h: FixedHeader| crate::base::spec_header_prefix(rem0, h) ==> h
                    == fixed_header,
                fixed_header.packet_type == PacketType::UnSubscribe,
                forall|q: UnsubscribePacket|
                    q.wf() && crate::utils::spec_prefix(
                        rem0,
                        #[trigger] spec_encode_unsubscribe(q),
                    ) ==> {
                        &&& fixed_header == Self::spec_header(q)
                        &&& crate::utils::spec_prefix(
                            list_start,
                            spec_encode_unsub_topics(q.spec_topics()),
                        )
                        &&& topics@.len() <= q.spec_topics().len()
                        &&& (forall|i: int|
                            0 <= i < topics@.len() ==> (#[trigger] topics@[i])@
                                == q.spec_topics()[i]@)
                    },
            decreases remaining_length - read,
        {
            let ghost pre_rem = ba.spec_remaining();
            let ghost done = topics@;
            proof {
                assert forall|q: UnsubscribePacket|
                    q.wf() && crate::utils::spec_prefix(
                        rem0,
                        #[trigger] spec_encode_unsubscribe(q),
                    ) implies done.len() < q.spec_topics().len() && crate::utils::spec_prefix(
                    pre_rem,
                    spec_encode_string(q.spec_topics()[done.len() as int]@),
                ) by {
                    assert(remaining_length == 2 + spec_encode_unsub_topics(
                        q.spec_topics(),
                    ).len());
                    lemma_unsubscribe_loop_step(
                        list_start,
                        done,
                        q.spec_topics(),
                        pre_rem,
                        (remaining_length - read) as int,
                    );
                }
            }
            let tr = StringData::decode(ba);
            proof {
                assert forall|q: UnsubscribePacket|
                    q.wf() && crate::utils::spec_prefix(
                        rem0,
                        #[trigger] spec_encode_unsubscribe(q),
                    ) implies (tr matches Ok(d) && d@ == q.spec_topics()[done.len() as int]@) by {
                    crate::data::lemma_string_prefix_decodable(
                        pre_rem,
                        q.spec_topics()[done.len() as int]@,
                    );
                    if tr is Ok {
                        assert(pre_rem.take(spec_encode_string((tr->Ok_0)@).len() as int)
                            =~= spec_encode_string((tr->Ok_0)@));
                        crate::data::lemma_string_prefix_deterministic(
                            pre_rem,
                            (tr->Ok_0)@,
                            q.spec_topics()[done.len() as int]@,
                        );
                    }
                }
            }
            let topic = match tr {
                Ok(d) => d,
                Err(e) => {
                    return Err(e);
                },
            };
            let vr = Topic::validate_sub_topic(topic.as_str());
            proof {
                assert forall|q: UnsubscribePacket|
                    q.wf() && crate::utils::spec_prefix(
                        rem0,
                        #[trigger] spec_encode_unsubscribe(q),
                    ) implies vr is Ok && spec_encode_string(topic@).len() <= remaining_length
                    - read by {
                    assert(topic@ == q.spec_topics()[done.len() as int]@);
                    assert(spec_valid_sub_topic(q.spec_topics()[done.len() as int]@));
                    lemma_unsubscribe_loop_step(
                        list_start,
                        done,
                        q.spec_topics(),
                        pre_rem,
                        (remaining_length - read) as int,
                    );
                }
            }
            if vr.is_err() {
                return Err(DecodeError::InvalidTopicFilter);
            }
            let b = topic.bytes();
            if b > remaining_length - read {
                return Err(DecodeError::InvalidRemainingLength);
            }
            proof {
                lemma_encode_unsub_topics_push(topics@, topic);
                assert(list_start =~= spec_encode_unsub_topics(topics@.push(topic))
                    + ba.spec_remaining());
            }
            topics.push(topic);
            read = read + b;
        }
        proof {
            assert forall|q: UnsubscribePacket|
                q.wf() && crate::utils::spec_prefix(
                    rem0,
                    #[trigger] spec_encode_unsubscribe(q),
                ) implies topics@.len() == q.spec_topics().len() && topics@.len() >= 1 by {
                lemma_unsub_view_encoding_prefix(topics@, q.spec_topics());
            }
        }
        if topics.is_empty() {
            return Err(DecodeError::EmptyTopicFilter);
        }
        let p = UnsubscribePacket { packet_id, topics };
        proof {
            assert(2 + spec_encode_unsub_topics(p.spec_topics()).len() == remaining_length);
            assert(rem1 =~= be_u16_bytes(packet_id) + spec_encode_unsub_topics(p.spec_topics())
                + ba.spec_remaining());
            assert(old(ba).spec_remaining() =~= spec_encode_unsubscribe(p) + ba.spec_remaining());
        }
        Ok(p)
    }
}

/// Filter lists equal element by element encode to the same bytes.
proof fn lemma_unsub_view_encoding(l1: Seq<StringData>, l2: Seq<StringData>)
    requires
        l1.len() == l2.len(),
        forall|i: int| 0 <= i < l1.len() ==> (#[trigger] l1[i])@ == l2[i]@,
    ensures
        spec_encode_unsub_topics(l1) == spec_encode_unsub_topics(l2),
    decreases l1.len(),
{
    if l1.len() > 0 {
        assert(forall|i: int|
            0 <= i < l1.drop_first().len() ==> (#[trigger] l1.drop_first()[i])@
                == l2.drop_first()[i]@);
        lemma_unsub_view_encoding(l1.drop_first(), l2.drop_first());
        assert(spec_encode_string(l1[0]@) == spec_encode_string(l2[0]@));
        assert(spec_encode_unsub_topics(l1) =~= spec_encode_unsub_topics(l2));
    }
}

/// The whole list's bytes are a prefix's bytes plus the suffix's.
proof fn lemma_unsub_suffix(ts: Seq<StringData>, i: int)
    requires
        0 <= i <= ts.len(),
    ensures
        spec_encode_unsub_topics(ts) == spec_encode_unsub_topics(ts.take(i))
            + spec_encode_unsub_topics(ts.skip(i)),
    decreases ts.len() - i,
{
    if i == ts.len() {
        assert(ts.take(i) =~= ts);
        assert(ts.skip(i) =~= Seq::<StringData>::empty());
        assert(spec_encode_unsub_topics(ts) =~= spec_encode_unsub_topics(ts.take(i))
            + spec_encode_unsub_topics(ts.skip(i)));
    } else {
        lemma_unsub_suffix(ts, i + 1);
        assert(ts.take(i + 1) =~= ts.take(i).push(ts[i]));
        lemma_encode_unsub_topics_push(ts.take(i), ts[i]);
        assert(ts.skip(i)[0] == ts[i]);
        assert(ts.skip(i).drop_first() =~= ts.skip(i + 1));
        assert(spec_encode_unsub_topics(ts.skip(i)) =~= spec_encode_string(ts[i]@)
            + spec_encode_unsub_topics(ts.skip(i + 1)));
        assert(spec_encode_unsub_topics(ts) =~= spec_encode_unsub_topics(ts.take(i))
            + spec_encode_unsub_topics(ts.skip(i)));
    }
}

/// A buffer beginning with a well-formed UNSUBSCRIBE's bytes begins with
/// its header.
proof fn lemma_unsubscribe_prefix_header(b: Seq<u8>, q: UnsubscribePacket)
    requires
        q.wf(),
        crate::utils::spec_prefix(b, spec_encode_unsubscribe(q)),
    ensures
        crate::base::spec_header_prefix(b, UnsubscribePacket::spec_header(q)),
        crate::utils::spec_prefix(
            b.skip(spec_encode_fixed_header(UnsubscribePacket::spec_header(q)).len() as int),
            be_u16_bytes(q.spec_packet_id()) + spec_encode_unsub_topics(q.spec_topics()),
        ),
{
    let h = UnsubscribePacket::spec_header(q);
    let body = be_u16_bytes(q.spec_packet_id()) + spec_encode_unsub_topics(q.spec_topics());
    assert(spec_encode_unsubscribe(q) =~= spec_encode_fixed_header(h) + body);
    crate::utils::lemma_prefix_of_concat(b, spec_encode_fixed_header(h), body);
    assert(crate::base::spec_fixed_header_wf(h));
}

/// One step of reading an UNSUBSCRIBE filter list: after the entries read
/// so far, with budget left, the hypothesis list has a next entry and its
/// bytes come first.
proof fn lemma_unsubscribe_loop_step(
    list_start: Seq<u8>,
    done: Seq<StringData>,
    all: Seq<StringData>,
    rest: Seq<u8>,
    budget: int,
)
    requires
        crate::utils::spec_prefix(list_start, spec_encode_unsub_topics(all)),
        list_start == spec_encode_unsub_topics(done) + rest,
        done.len() <= all.len(),
        forall|i: int| 0 <= i < done.len() ==> (#[trigger] done[i])@ == all[i]@,
        budget > 0,
        budget == spec_encode_unsub_topics(all).len() - spec_encode_unsub_topics(done).len(),
    ensures
        done.len() < all.len(),
        crate::utils::spec_prefix(rest, spec_encode_string(all[done.len() as int]@)),
        budget >= spec_encode_string(all[done.len() as int]@).len(),
{
    let n = done.len() as int;
    assert(forall|i: int| 0 <= i < n ==> (#[trigger] done[i])@ == all.take(n)[i]@);
    lemma_unsub_view_encoding(done, all.take(n));
    lemma_unsub_suffix(all, n);
    if n == all.len() {
        assert(all.take(n) =~= all);
    }
    assert(n < all.len());
    assert(rest =~= list_start.skip(spec_encode_unsub_topics(done).len() as int));
    crate::utils::lemma_prefix_of_concat(
        list_start,
        spec_encode_unsub_topics(all.take(n)),
        spec_encode_unsub_topics(all.skip(n)),
    );
    assert(all.skip(n)[0] == all[n]);
    assert(all.skip(n).drop_first() =~= all.skip(n + 1));
    assert(spec_encode_unsub_topics(all.skip(n)) =~= spec_encode_string(all[n]@)
        + spec_encode_unsub_topics(all.skip(n + 1)));
    crate::utils::lemma_prefix_of_concat(
        rest,
        spec_encode_string(all[n]@),
        spec_encode_unsub_topics(all.skip(n + 1)),
    );
}

/// Entries read to the end of the announced list cover the whole
/// hypothesis list.
proof fn lemma_unsub_view_encoding_prefix(done: Seq<StringData>, all: Seq<StringData>)
    requires
        done.len() <= all.len(),
        forall|i: int| 0 <= i < done.len() ==> (#[trigger] done[i])@ == all[i]@,
        spec_encode_unsub_topics(done).len() == spec_encode_unsub_topics(all).len(),
    ensures
        done.len() == all.len(),
{
    let n = done.len() as int;
    assert(forall|i: int| 0 <= i < n ==> (#[trigger] done[i])@ == all.take(n)[i]@);
    lemma_unsub_view_encoding(done, all.take(n));
    lemma_unsub_suffix(all, n);
    if n < all.len() {
        assert(all.skip(n)[0] == all[n]);
        assert(all.skip(n).drop_first() =~= all.skip(n + 1));
        assert(spec_encode_unsub_topics(all.skip(n)) =~= spec_encode_string(all[n]@)
            + spec_encode_unsub_topics(all.skip(n + 1)));
        assert(spec_encode_string(all[n]@).len() >= 2);
    }
}

/// The byte length of an encoded prefix never exceeds the whole list's.
proof fn lemma_unsub_topics_prefix_len(ts: Seq<StringData>, i: int)
    requires
        0 <= i <= ts.len(),
    ensures
        spec_encode_unsub_topics(ts.take(i)).len() <= spec_encode_unsub_topics(ts).len(),
    decreases ts.len() - i,
{
    if i == ts.len() {
        assert(ts.take(i) =~= ts);
    } else {
        lemma_unsub_topics_prefix_len(ts, i + 1);
        assert(ts.take(i + 1) =~= ts.take(i).push(ts[i]));
        lemma_encode_unsub_topics_push(ts.take(i), ts[i]);
    }
}

} // verus!

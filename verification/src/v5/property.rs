//! MQTT 5 properties: a variable-byte-integer identifier, then a value
//! whose type the identifier fixes; a property list is length-prefixed.

use vstd::prelude::*;
use crate::base::{DecodeError, EncodeError, VARINT_MAX, spec_parse_varint, spec_varint_encode,
    read_varint, write_varint};
use crate::byte_array::ByteArray;
use crate::data::{BinaryData, StringData, spec_encode_binary, spec_encode_string};
use crate::string_pair_data::{spec_encode_string_pair, StringPairData};
use crate::u16_data::U16Data;
use crate::utils::be_u16_bytes;

verus! {

/// The property identifiers the packets of this codec speak of.
#[derive(Debug, Clone, Copy, PartialEq, Eq, Structural)]
pub enum PropertyType {
    PayloadFormatIndicator,
    MessageExpiryInterval,
    ContentType,
    ResponseTopic,
    CorrelationData,
    SessionExpiryInterval,
    AuthenticationMethod,
    AuthenticationData,
    RequestProblemInformation,
    WillDelayInterval,
    ReasonString,
    ReceiveMaximum,
    TopicAliasMaximum,
    UserProperty,
    MaximumPacketSize,
}

/// The identifier each property type carries on the wire.
pub open spec fn spec_property_id(t: PropertyType) -> u32 {
    match t {
        PropertyType::PayloadFormatIndicator => 1,
        PropertyType::MessageExpiryInterval => 2,
        PropertyType::ContentType => 3,
        PropertyType::ResponseTopic => 8,
        PropertyType::CorrelationData => 9,
        PropertyType::SessionExpiryInterval => 17,
        PropertyType::AuthenticationMethod => 21,
        PropertyType::AuthenticationData => 22,
        PropertyType::RequestProblemInformation => 23,
        PropertyType::WillDelayInterval => 24,
        PropertyType::ReasonString => 31,
        PropertyType::ReceiveMaximum => 33,
        PropertyType::TopicAliasMaximum => 34,
        PropertyType::UserProperty => 38,
        PropertyType::MaximumPacketSize => 39,
    }
}

impl PropertyType {
    /// The wire identifier.
    pub fn id(self) -> (r: u32)
        ensures
            r == spec_property_id(self),
    {
        match self {
            PropertyType::PayloadFormatIndicator => 1,
            PropertyType::MessageExpiryInterval => 2,
            PropertyType::ContentType => 3,
            PropertyType::ResponseTopic => 8,
            PropertyType::CorrelationData => 9,
            PropertyType::SessionExpiryInterval => 17,
            PropertyType::AuthenticationMethod => 21,
            PropertyType::AuthenticationData => 22,
            PropertyType::RequestProblemInformation => 23,
            PropertyType::WillDelayInterval => 24,
            PropertyType::ReasonString => 31,
            PropertyType::ReceiveMaximum => 33,
            PropertyType::TopicAliasMaximum => 34,
            PropertyType::UserProperty => 38,
            PropertyType::MaximumPacketSize => 39,
        }
    }

    /// Whether the identifier may appear more than once in one list.
    pub open spec fn spec_multi_valued(self) -> bool {
        self == PropertyType::UserProperty
    }
}

/// One property: the typed value its identifier fixes.
#[derive(Debug, Clone, PartialEq, Eq)]
pub enum Property {
    PayloadFormatIndicator(u8),
    MessageExpiryInterval(u32),
    ContentType(StringData),
    ResponseTopic(StringData),
    CorrelationData(BinaryData),
    SessionExpiryInterval(u32),
    AuthenticationMethod(StringData),
    AuthenticationData(BinaryData),
    RequestProblemInformation(u8),
    WillDelayInterval(u32),
    ReasonString(StringData),
    ReceiveMaximum(U16Data),
    TopicAliasMaximum(U16Data),
    UserProperty(StringPairData),
    MaximumPacketSize(u32),
}

/// The four big-endian bytes of a u32.
pub open spec fn be_u32_bytes(v: u32) -> Seq<u8> {
    seq![
        (v as int / 16777216) as u8,
        ((v as int / 65536) % 256) as u8,
        ((v as int / 256) % 256) as u8,
        (v as int % 256) as u8,
    ]
}

/// Append the four big-endian bytes of a u32.
pub fn append_u32(buf: &mut Vec<u8>, v: u32)
    ensures
        final(buf)@ == old(buf)@ + be_u32_bytes(v),
{
    buf.push((v / 16777216) as u8);
    buf.push(((v / 65536) % 256) as u8);
    buf.push(((v / 256) % 256) as u8);
    buf.push((v % 256) as u8);
    assert(buf@ =~= old(buf)@ + be_u32_bytes(v));
}

impl Property {
    /// The type of this property.
    pub fn property_type(&self) -> (r: PropertyType)
        ensures
            r == self.spec_property_type(),
    {
        match self {
            Property::PayloadFormatIndicator(_) => PropertyType::PayloadFormatIndicator,
            Property::MessageExpiryInterval(_) => PropertyType::MessageExpiryInterval,
            Property::ContentType(_) => PropertyType::ContentType,
            Property::ResponseTopic(_) => PropertyType::ResponseTopic,
            Property::CorrelationData(_) => PropertyType::CorrelationData,
            Property::SessionExpiryInterval(_) => PropertyType::SessionExpiryInterval,
            Property::AuthenticationMethod(_) => PropertyType::AuthenticationMethod,
            Property::AuthenticationData(_) => PropertyType::AuthenticationData,
            Property::RequestProblemInformation(_) => PropertyType::RequestProblemInformation,
            Property::WillDelayInterval(_) => PropertyType::WillDelayInterval,
            Property::ReasonString(_) => PropertyType::ReasonString,
            Property::ReceiveMaximum(_) => PropertyType::ReceiveMaximum,
            Property::TopicAliasMaximum(_) => PropertyType::TopicAliasMaximum,
            Property::UserProperty(_) => PropertyType::UserProperty,
            Property::MaximumPacketSize(_) => PropertyType::MaximumPacketSize,
        }
    }

    /// The type of this property.
    pub open spec fn spec_property_type(&self) -> PropertyType {
        match self {
            Property::PayloadFormatIndicator(_) => PropertyType::PayloadFormatIndicator,
            Property::MessageExpiryInterval(_) => PropertyType::MessageExpiryInterval,
            Property::ContentType(_) => PropertyType::ContentType,
            Property::ResponseTopic(_) => PropertyType::ResponseTopic,
            Property::CorrelationData(_) => PropertyType::CorrelationData,
            Property::SessionExpiryInterval(_) => PropertyType::SessionExpiryInterval,
            Property::AuthenticationMethod(_) => PropertyType::AuthenticationMethod,
            Property::AuthenticationData(_) => PropertyType::AuthenticationData,
            Property::RequestProblemInformation(_) => PropertyType::RequestProblemInformation,
            Property::WillDelayInterval(_) => PropertyType::WillDelayInterval,
            Property::ReasonString(_) => PropertyType::ReasonString,
            Property::ReceiveMaximum(_) => PropertyType::ReceiveMaximum,
            Property::TopicAliasMaximum(_) => PropertyType::TopicAliasMaximum,
            Property::UserProperty(_) => PropertyType::UserProperty,
            Property::MaximumPacketSize(_) => PropertyType::MaximumPacketSize,
        }
    }

    /// The strings and byte strings carried meet the MQTT length rules.
    pub open spec fn wf(&self) -> bool {
        match self {
            Property::ContentType(s) => s.wf(),
            Property::ResponseTopic(s) => s.wf(),
            Property::AuthenticationMethod(s) => s.wf(),
            Property::ReasonString(s) => s.wf(),
            Property::CorrelationData(b) => b.wf(),
            Property::AuthenticationData(b) => b.wf(),
            Property::UserProperty(p) => p.wf(),
            _ => true,
        }
    }

    /// The bytes of this property: the identifier, then the value.
    pub open spec fn spec_encode(&self) -> Seq<u8> {
        spec_varint_encode(spec_property_id(self.spec_property_type()) as int) + (match self {
            Property::PayloadFormatIndicator(v) => seq![*v],
            Property::MessageExpiryInterval(v) => be_u32_bytes(*v),
            Property::ContentType(s) => spec_encode_string(s@),
            Property::ResponseTopic(s) => spec_encode_string(s@),
            Property::CorrelationData(b) => spec_encode_binary(b@),
            Property::SessionExpiryInterval(v) => be_u32_bytes(*v),
            Property::AuthenticationMethod(s) => spec_encode_string(s@),
            Property::AuthenticationData(b) => spec_encode_binary(b@),
            Property::RequestProblemInformation(v) => seq![*v],
            Property::WillDelayInterval(v) => be_u32_bytes(*v),
            Property::ReasonString(s) => spec_encode_string(s@),
            Property::ReceiveMaximum(v) => be_u16_bytes(v@),
            Property::TopicAliasMaximum(v) => be_u16_bytes(v@),
            Property::UserProperty(p) => spec_encode_string_pair(p@.0, p@.1),
            Property::MaximumPacketSize(v) => be_u32_bytes(*v),
        })
    }

    /// The number of bytes this property occupies on the wire.
    pub fn bytes(&self) -> (r: usize)
        requires
            self.wf(),
        ensures
            r == self.spec_encode().len(),
            r <= 131076,
    {
        let value_len: usize = match self {
            Property::PayloadFormatIndicator(_) => 1,
            Property::MessageExpiryInterval(_) => 4,
            Property::ContentType(s) => s.bytes(),
            Property::ResponseTopic(s) => s.bytes(),
            Property::CorrelationData(b) => b.bytes(),
            Property::SessionExpiryInterval(_) => 4,
            Property::AuthenticationMethod(s) => s.bytes(),
            Property::AuthenticationData(b) => b.bytes(),
            Property::RequestProblemInformation(_) => 1,
            Property::WillDelayInterval(_) => 4,
            Property::ReasonString(s) => s.bytes(),
            Property::ReceiveMaximum(v) => v.bytes(),
            Property::TopicAliasMaximum(v) => v.bytes(),
            Property::UserProperty(p) => p.bytes(),
            Property::MaximumPacketSize(_) => 4,
        };
        proof {
            crate::base::lemma_varint_round_trip(
                spec_property_id(self.spec_property_type()) as int,
                Seq::empty(),
            );
            assert(spec_varint_encode(spec_property_id(self.spec_property_type()) as int)
                =~= seq![spec_property_id(self.spec_property_type()) as u8]);
        }
        1 + value_len
    }

    /// Append this property's bytes to `buf`.
    pub fn encode(&self, buf: &mut Vec<u8>) -> (r: Result<usize, EncodeError>)
        requires
            self.wf(),
        ensures
            r matches Ok(n) && final(buf)@ == old(buf)@ + self.spec_encode() && n
                == self.spec_encode().len(),
    {
        let n0 = write_varint(buf, self.property_type().id());
        let ghost mid = buf@;
        let n = match self {
            Property::PayloadFormatIndicator(v) => {
                buf.push(*v);
                1
            },
            Property::MessageExpiryInterval(v) => {
                append_u32(buf, *v);
                4
            },
            Property::ContentType(s) => s.encode(buf)?,
            Property::ResponseTopic(s) => s.encode(buf)?,
            Property::CorrelationData(b) => b.encode(buf)?,
            Property::SessionExpiryInterval(v) => {
                append_u32(buf, *v);
                4
            },
            Property::AuthenticationMethod(s) => s.encode(buf)?,
            Property::AuthenticationData(b) => b.encode(buf)?,
            Property::RequestProblemInformation(v) => {
                buf.push(*v);
                1
            },
            Property::WillDelayInterval(v) => {
                append_u32(buf, *v);
                4
            },
            Property::ReasonString(s) => s.encode(buf)?,
            Property::ReceiveMaximum(v) => v.encode(buf),
            Property::TopicAliasMaximum(v) => v.encode(buf),
            Property::UserProperty(p) => p.encode(buf)?,
            Property::MaximumPacketSize(v) => {
                append_u32(buf, *v);
                4
            },
        };
        assert(buf@ =~= old(buf)@ + self.spec_encode());
        Ok(n0 + n)
    }

    /// Read one property from the cursor.
    pub fn decode(ba: &mut ByteArray) -> (r: Result<Self, DecodeError>)
        requires
            old(ba).wf(),
        ensures
            final(ba).wf(),
            final(ba).spec_data() == old(ba).spec_data(),
            r matches Ok(p) ==> {
                &&& p.wf()
                &&& old(ba).spec_remaining() == p.spec_encode() + final(ba).spec_remaining()
                &&& p.spec_encode().len() >= 2
            },
    {
        let ghost rem0 = ba.spec_remaining();
        let id = match read_varint(ba) {
            Ok(v) => v,
            Err(e) => {
                return Err(e);
            },
        };
        let ghost rem1 = ba.spec_remaining();
        proof {
            crate::base::lemma_parse_varint_inverse(rem0, 4);
            crate::base::lemma_varint_bound_4();
        }
        let p: Property = if id == 1 {
            Property::PayloadFormatIndicator(read_byte_or(ba)?)
        } else if id == 2 {
            Property::MessageExpiryInterval(read_u32_or(ba)?)
        } else if id == 3 {
            Property::ContentType(StringData::decode(ba)?)
        } else if id == 8 {
            Property::ResponseTopic(StringData::decode(ba)?)
        } else if id == 9 {
            Property::CorrelationData(BinaryData::decode(ba)?)
        } else if id == 17 {
            Property::SessionExpiryInterval(read_u32_or(ba)?)
        } else if id == 21 {
            Property::AuthenticationMethod(StringData::decode(ba)?)
        } else if id == 22 {
            Property::AuthenticationData(BinaryData::decode(ba)?)
        } else if id == 23 {
            Property::RequestProblemInformation(read_byte_or(ba)?)
        } else if id == 24 {
            Property::WillDelayInterval(read_u32_or(ba)?)
        } else if id == 31 {
            Property::ReasonString(StringData::decode(ba)?)
        } else if id == 33 {
            Property::ReceiveMaximum(U16Data::decode(ba)?)
        } else if id == 34 {
            Property::TopicAliasMaximum(U16Data::decode(ba)?)
        } else if id == 38 {
            Property::UserProperty(StringPairData::decode(ba)?)
        } else if id == 39 {
            Property::MaximumPacketSize(read_u32_or(ba)?)
        } else {
            return Err(DecodeError::InvalidPropertyType);
        };
        proof {
            let n = spec_parse_varint(rem0, 4).unwrap().1;
            assert(spec_varint_encode(id as int) =~= seq![id as u8]);
            assert(n == 1);
            assert(rem1 =~= rem0.skip(1));
            assert(rem0 =~= seq![id as u8] + rem1);
            assert(spec_varint_encode(spec_property_id(p.spec_property_type()) as int) =~= seq![
                id as u8,
            ]);
            assert(old(ba).spec_remaining() =~= p.spec_encode() + ba.spec_remaining());
        }
        Ok(p)
    }
}

/// Read one byte, mapping the cursor error.
fn read_byte_or(ba: &mut ByteArray) -> (r: Result<u8, DecodeError>)
    requires
        old(ba).wf(),
    ensures
        final(ba).wf(),
        final(ba).spec_data() == old(ba).spec_data(),
        r matches Ok(b) ==> old(ba).spec_remaining() == seq![b] + final(ba).spec_remaining(),
{
    match ba.read_byte() {
        Ok(b) => {
            proof {
                assert(old(ba).spec_remaining() =~= seq![b] + ba.spec_remaining());
            }
            Ok(b)
        },
        Err(e) => Err(DecodeError::from_byte_array(e)),
    }
}

/// Read a big-endian u32, mapping the cursor error.
fn read_u32_or(ba: &mut ByteArray) -> (r: Result<u32, DecodeError>)
    requires
        old(ba).wf(),
    ensures
        final(ba).wf(),
        final(ba).spec_data() == old(ba).spec_data(),
        r matches Ok(v) ==> old(ba).spec_remaining() == be_u32_bytes(v) + final(ba).spec_remaining(),
{
    match ba.read_u32() {
        Ok(v) => {
            proof {
                let r0 = old(ba).spec_remaining();
                let a0 = r0[0] as u32;
                let a1 = r0[1] as u32;
                let a2 = r0[2] as u32;
                let a3 = r0[3] as u32;
                assert(v / 16777216 == a0 && (v / 65536) % 256 == a1 && (v / 256) % 256 == a2 && v
                    % 256 == a3) by (bit_vector)
                    requires
                        v == a0 * 16777216 + a1 * 65536 + a2 * 256 + a3,
                        a0 < 256,
                        a1 < 256,
                        a2 < 256,
                        a3 < 256,
                ;
                assert(be_u32_bytes(v) =~= r0.take(4));
                assert(old(ba).spec_remaining() =~= be_u32_bytes(v) + ba.spec_remaining());
            }
            Ok(v)
        },
        Err(e) => Err(DecodeError::from_byte_array(e)),
    }
}

/// A list of properties as one packet carries it.
pub type Properties = Vec<Property>;

/// The bytes of a property list, first property first.
pub open spec fn spec_encode_props(ps: Seq<Property>) -> Seq<u8>
    decreases ps.len(),
{
    if ps.len() == 0 {
        Seq::empty()
    } else {
        ps[0].spec_encode() + spec_encode_props(ps.drop_first())
    }
}

/// The bytes of a property block: the list length, then the list.
pub open spec fn spec_encode_property_block(ps: Seq<Property>) -> Seq<u8> {
    spec_varint_encode(spec_encode_props(ps).len() as int) + spec_encode_props(ps)
}

/// Appending a property appends its bytes.
pub proof fn lemma_encode_props_push(ps: Seq<Property>, p: Property)
    ensures
        spec_encode_props(ps.push(p)) == spec_encode_props(ps) + p.spec_encode(),
    decreases ps.len(),
{
    if ps.len() == 0 {
        assert(ps.push(p).drop_first() =~= Seq::<Property>::empty());
        assert(ps.push(p)[0] == p);
        assert(spec_encode_props(Seq::<Property>::empty()) =~= Seq::<u8>::empty());
        assert(spec_encode_props(ps) =~= Seq::<u8>::empty());
        assert(spec_encode_props(ps.push(p)) =~= spec_encode_props(ps) + p.spec_encode());
    } else {
        assert(ps.push(p).drop_first() =~= ps.drop_first().push(p));
        lemma_encode_props_push(ps.drop_first(), p);
        assert(spec_encode_props(ps.push(p)) =~= spec_encode_props(ps) + p.spec_encode());
    }
}

/// Every property in the list is well-formed.
pub open spec fn spec_props_wf(ps: Seq<Property>) -> bool {
    forall|k: int| 0 <= k < ps.len() ==> (#[trigger] ps[k]).wf()
}

/// Whether every property's type is in the whitelist.
pub open spec fn spec_props_allowed(ps: Seq<Property>, allowed: Seq<PropertyType>) -> bool {
    forall|k: int| 0 <= k < ps.len() ==> allowed.contains((#[trigger] ps[k]).spec_property_type())
}

/// Whether no type that MQTT lists as single-valued repeats.
pub open spec fn spec_props_no_duplicates(ps: Seq<Property>) -> bool {
    forall|i: int, j: int|
        0 <= i < j < ps.len() && (#[trigger] ps[i]).spec_property_type() == (
        #[trigger] ps[j]).spec_property_type() ==> ps[i].spec_property_type().spec_multi_valued()
}

/// Whether every property's type is in the whitelist and no type that MQTT
/// lists as single-valued repeats.
pub open spec fn spec_props_legal(ps: Seq<Property>, allowed: Seq<PropertyType>) -> bool {
    &&& spec_props_allowed(ps, allowed)
    &&& spec_props_no_duplicates(ps)
}

/// Check a property list against a whitelist.
pub fn check_property_type_list(ps: &Properties, allowed: &[PropertyType]) -> (r: bool)
    ensures
        r == spec_props_allowed(ps@, allowed@),
{
    let mut i: usize = 0;
    while i < ps.len()
        invariant
            0 <= i <= ps@.len(),
            forall|k: int|
                0 <= k < i ==> allowed@.contains((#[trigger] ps@[k]).spec_property_type()),
        decreases ps@.len() - i,
    {
        let t = ps[i].property_type();
        let mut found: bool = false;
        let mut a: usize = 0;
        while a < allowed.len()
            invariant
                0 <= a <= allowed@.len(),
                found ==> allowed@.contains(t),
                !found ==> forall|k: int| 0 <= k < a ==> allowed@[k] != t,
            decreases allowed@.len() - a,
        {
            if matches_type(allowed[a], t) {
                proof {
                    assert(allowed@.contains(t)) by {
                        assert(allowed@[a as int] == t);
                    }
                }
                found = true;
            }
            a += 1;
        }
        if !found {
            proof {
                if allowed@.contains(t) {
                    let k = choose|k: int| 0 <= k < allowed@.len() && allowed@[k] == t;
                }
                assert(!spec_props_allowed(ps@, allowed@)) by {
                    assert(ps@[i as int].spec_property_type() == t);
                }
            }
            return false;
        }
        i += 1;
    }
    true
}

/// Check a property list for a repeated single-valued type.
pub fn has_duplicate_property(ps: &Properties) -> (r: bool)
    ensures
        r == !spec_props_no_duplicates(ps@),
{
    let mut i: usize = 0;
    while i < ps.len()
        invariant
            0 <= i <= ps@.len(),
            forall|a: int, b: int|
                0 <= a < b < i && (#[trigger] ps@[a]).spec_property_type() == (
                #[trigger] ps@[b]).spec_property_type()
                    ==> ps@[a].spec_property_type().spec_multi_valued(),
        decreases ps@.len() - i,
    {
        let t = ps[i].property_type();
        if !matches_type(t, PropertyType::UserProperty) {
            let mut b: usize = 0;
            while b < i
                invariant
                    0 <= b <= i < ps@.len(),
                    ps@[i as int].spec_property_type() == t,
                    !t.spec_multi_valued(),
                    forall|k: int| 0 <= k < b ==> (#[trigger] ps@[k]).spec_property_type() != t,
                decreases i - b,
            {
                if matches_type(ps[b].property_type(), t) {
                    proof {
                        assert(!spec_props_no_duplicates(ps@)) by {
                            assert(ps@[b as int].spec_property_type() == ps@[
                                i as int
                            ].spec_property_type());
                        }
                    }
                    return true;
                }
                b += 1;
            }
        }
        i += 1;
    }
    false
}

/// Whether two property types are the same.
fn matches_type(a: PropertyType, b: PropertyType) -> (r: bool)
    ensures
        r == (a == b),
{
    a.id() == b.id()
}

/// Append a property block to `buf`: the list length, then each property.
pub fn encode_property_block(ps: &Properties, buf: &mut Vec<u8>) -> (r: Result<usize, EncodeError>)
    requires
        spec_props_wf(ps@),
        spec_encode_props(ps@).len() <= VARINT_MAX,
    ensures
        r matches Ok(n) && final(buf)@ == old(buf)@ + spec_encode_property_block(ps@) && n
            == spec_encode_property_block(ps@).len(),
{
    let total = props_bytes(ps);
    let n0 = write_varint(buf, total as u32);
    let ghost base_len = buf@.len() as int;
    let mut k: usize = 0;
    proof {
        assert(ps@.take(0) =~= Seq::<Property>::empty());
        assert(spec_encode_props(Seq::<Property>::empty()) =~= Seq::<u8>::empty());
        assert(buf@ =~= buf@.take(base_len) + spec_encode_props(ps@.take(0)));
    }
    while k < ps.len()
        invariant
            0 <= k <= ps@.len(),
            spec_props_wf(ps@),
            0 <= base_len <= buf@.len(),
            buf@ =~= buf@.take(base_len) + spec_encode_props(ps@.take(k as int)),
            buf@.take(base_len) == old(buf)@ + spec_varint_encode(
                spec_encode_props(ps@).len() as int,
            ),
        decreases ps@.len() - k,
    {
        proof {
            assert(ps@.take(k + 1) =~= ps@.take(k as int).push(ps@[k as int]));
            lemma_encode_props_push(ps@.take(k as int), ps@[k as int]);
        }
        let ghost prev_buf = buf@;
        let pk = vstd::slice::slice_index_get(ps.as_slice(), k);
        let _ = match pk.encode(buf) {
            Ok(n) => n,
            Err(e) => {
                return Err(e);
            },
        };
        proof {
            assert(buf@.take(base_len) =~= prev_buf.take(base_len));
            assert(buf@ =~= buf@.take(base_len) + spec_encode_props(ps@.take(k + 1)));
        }
        k += 1;
    }
    proof {
        assert(ps@.take(ps@.len() as int) =~= ps@);
        assert(buf@ =~= old(buf)@ + spec_encode_property_block(ps@));
        crate::base::lemma_varint_round_trip(spec_encode_props(ps@).len() as int, Seq::empty());
    }
    Ok(n0 + total)
}

/// The number of bytes the property list occupies, without its length
/// prefix.
pub fn props_bytes(ps: &Properties) -> (r: usize)
    requires
        spec_props_wf(ps@),
        spec_encode_props(ps@).len() <= VARINT_MAX,
    ensures
        r == spec_encode_props(ps@).len(),
{
    let mut total: usize = 0;
    let mut k: usize = 0;
    proof {
        assert(ps@.take(0) =~= Seq::<Property>::empty());
        assert(spec_encode_props(Seq::<Property>::empty()) =~= Seq::<u8>::empty());
    }
    while k < ps.len()
        invariant
            0 <= k <= ps@.len(),
            spec_props_wf(ps@),
            spec_encode_props(ps@).len() <= VARINT_MAX,
            total == spec_encode_props(ps@.take(k as int)).len(),
        decreases ps@.len() - k,
    {
        proof {
            assert(ps@.take(k + 1) =~= ps@.take(k as int).push(ps@[k as int]));
            lemma_encode_props_push(ps@.take(k as int), ps@[k as int]);
            lemma_props_prefix_len(ps@, k + 1);
        }
        let pk = vstd::slice::slice_index_get(ps.as_slice(), k);
        let b = pk.bytes();
        total = total + b;
        k += 1;
    }
    proof {
        assert(ps@.take(ps@.len() as int) =~= ps@);
    }
    total
}

/// The byte length of an encoded prefix never exceeds the whole list's.
proof fn lemma_props_prefix_len(ps: Seq<Property>, i: int)
    requires
        0 <= i <= ps.len(),
    ensures
        spec_encode_props(ps.take(i)).len() <= spec_encode_props(ps).len(),
    decreases ps.len() - i,
{
    if i == ps.len() {
        assert(ps.take(i) =~= ps);
    } else {
        lemma_props_prefix_len(ps, i + 1);
        assert(ps.take(i + 1) =~= ps.take(i).push(ps[i]));
        lemma_encode_props_push(ps.take(i), ps[i]);
    }
}

/// Read a property block from the cursor: the announced number of bytes,
/// then that many bytes of properties.
pub fn decode_property_block(ba: &mut ByteArray) -> (r: Result<Properties, DecodeError>)
    requires
        old(ba).wf(),
    ensures
        final(ba).wf(),
        final(ba).spec_data() == old(ba).spec_data(),
        r matches Ok(ps) ==> {
            &&& spec_props_wf(ps@)
            &&& old(ba).spec_remaining() == spec_encode_property_block(ps@) + final(ba).spec_remaining()
        },
        old(ba).spec_remaining().len() >= 1 && old(ba).spec_remaining()[0] == 0 ==> (r matches Ok(
            ps,
        ) && ps@.len() == 0),
{
    let ghost rem0 = ba.spec_remaining();
    proof {
        if rem0.len() >= 1 && rem0[0] == 0 {
            assert(spec_varint_encode(0) =~= seq![0u8]);
            crate::base::lemma_varint_round_trip(0, rem0.skip(1));
            assert(rem0 =~= spec_varint_encode(0) + rem0.skip(1));
        }
    }
    let total = match read_varint(ba) {
        Ok(v) => v,
        Err(e) => {
            return Err(e);
        },
    };
    let ghost rem1 = ba.spec_remaining();
    proof {
        crate::base::lemma_parse_varint_inverse(rem0, 4);
        crate::base::lemma_varint_bound_4();
        assert(rem0 =~= spec_varint_encode(total as int) + rem1);
    }
    let mut ps: Properties = Vec::new();
    let mut read: usize = 0;
    let total = total as usize;
    proof {
        assert(spec_encode_props(ps@) =~= Seq::<u8>::empty());
        assert(rem1 =~= spec_encode_props(ps@) + ba.spec_remaining());
    }
    while read < total
        invariant
            ba.wf(),
            ba.spec_data() == old(ba).spec_data(),
            rem0 == old(ba).spec_remaining(),
            (rem0.len() >= 1 && rem0[0] == 0) ==> total == 0,
            0 <= read <= total,
            read == spec_encode_props(ps@).len(),
            rem1 == spec_encode_props(ps@) + ba.spec_remaining(),
            spec_props_wf(ps@),
        decreases total - read,
    {
        let p = match Property::decode(ba) {
            Ok(p) => p,
            Err(e) => {
                return Err(e);
            },
        };
        let b = p.bytes();
        if b > total - read {
            return Err(DecodeError::InvalidRemainingLength);
        }
        proof {
            lemma_encode_props_push(ps@, p);
            assert(rem1 =~= spec_encode_props(ps@.push(p)) + ba.spec_remaining());
        }
        ps.push(p);
        read = read + b;
    }
    proof {
        assert(total == spec_encode_props(ps@).len());
        assert(rem0 =~= spec_encode_property_block(ps@) + ba.spec_remaining());
        assert(old(ba).spec_remaining() =~= spec_encode_property_block(ps@)
            + ba.spec_remaining());
    }
    Ok(ps)
}

} // verus!

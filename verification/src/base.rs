//! Shared wire-format primitives: packet types, fixed header, quality of
//! service levels and the variable-byte integer.

use vstd::prelude::*;
use crate::byte_array::{ByteArray, ByteArrayError};
use crate::utils::StringError;

verus! {

/// Packet identifier, a 16-bit integer tying a request packet to its ack.
pub type PacketId = u16;

/// Decode failures; every variant is fatal to the connection.
#[derive(Debug, Clone, Copy, PartialEq, Eq, Structural)]
pub enum DecodeError {
    InvalidPacketType,
    InvalidFixedHeader,
    InvalidRemainingLength,
    InvalidPacketFlags,
    InvalidPacketId,
    InvalidProtocolName,
    InvalidProtocolLevel,
    InvalidConnectFlags,
    InvalidClientId,
    InvalidQoS,
    InvalidTopic,
    InvalidTopicFilter,
    EmptyTopicFilter,
    InvalidUtf8,
    InvalidPropertyType,
    DuplicatedProperty,
    OutOfRange,
}

impl DecodeError {
    /// Fold a cursor error into a decode error.
    pub fn from_byte_array(e: ByteArrayError) -> (r: Self)
        ensures
            r == (match e {
                ByteArrayError::OutOfRangeError => DecodeError::OutOfRange,
                ByteArrayError::InvalidString(_) => DecodeError::InvalidUtf8,
            }),
    {
        match e {
            ByteArrayError::OutOfRangeError => DecodeError::OutOfRange,
            ByteArrayError::InvalidString(_) => DecodeError::InvalidUtf8,
        }
    }
}

/// Encode failures: a value that cannot be represented on the wire.
#[derive(Debug, Clone, Copy, PartialEq, Eq, Structural)]
pub enum EncodeError {
    InvalidData,
    TooManyData,
    InvalidString(StringError),
}

/// MQTT control packet type, the high nibble of the fixed-header byte.
#[derive(Debug, Clone, Copy, PartialEq, Eq, Structural)]
pub enum PacketType {
    Unknown,
    ConnectCmd,
    ConnectAck,
    Publish,
    PubAck,
    PubRecv,
    PubRel,
    PubCompl,
    Subscribe,
    SubAck,
    UnSubscribe,
    UnSubAck,
    PingReq,
    PingResp,
    Disconnect,
    Reserved,
}

/// The wire code of each packet type.
pub open spec fn spec_packet_type_code(t: PacketType) -> u8 {
    match t {
        PacketType::Unknown => 0,
        PacketType::ConnectCmd => 1,
        PacketType::ConnectAck => 2,
        PacketType::Publish => 3,
        PacketType::PubAck => 4,
        PacketType::PubRecv => 5,
        PacketType::PubRel => 6,
        PacketType::PubCompl => 7,
        PacketType::Subscribe => 8,
        PacketType::SubAck => 9,
        PacketType::UnSubscribe => 10,
        PacketType::UnSubAck => 11,
        PacketType::PingReq => 12,
        PacketType::PingResp => 13,
        PacketType::Disconnect => 14,
        PacketType::Reserved => 15,
    }
}

/// The packet type named by a wire code; codes above 15 fall back to Unknown.
pub open spec fn spec_packet_type_of(flag: u8) -> PacketType {
    if flag == 1 {
        PacketType::ConnectCmd
    } else if flag == 2 {
        PacketType::ConnectAck
    } else if flag == 3 {
        PacketType::Publish
    } else if flag == 4 {
        PacketType::PubAck
    } else if flag == 5 {
        PacketType::PubRecv
    } else if flag == 6 {
        PacketType::PubRel
    } else if flag == 7 {
        PacketType::PubCompl
    } else if flag == 8 {
        PacketType::Subscribe
    } else if flag == 9 {
        PacketType::SubAck
    } else if flag == 10 {
        PacketType::UnSubscribe
    } else if flag == 11 {
        PacketType::UnSubAck
    } else if flag == 12 {
        PacketType::PingReq
    } else if flag == 13 {
        PacketType::PingResp
    } else if flag == 14 {
        PacketType::Disconnect
    } else if flag == 15 {
        PacketType::Reserved
    } else {
        PacketType::Unknown
    }
}

impl PacketType {
    /// The control-packet-type code carried in the high nibble.
    pub fn code(self) -> (r: u8)
        ensures
            r == spec_packet_type_code(self),
    {
        match self {
            PacketType::Unknown => 0,
            PacketType::ConnectCmd => 1,
            PacketType::ConnectAck => 2,
            PacketType::Publish => 3,
            PacketType::PubAck => 4,
            PacketType::PubRecv => 5,
            PacketType::PubRel => 6,
            PacketType::PubCompl => 7,
            PacketType::Subscribe => 8,
            PacketType::SubAck => 9,
            PacketType::UnSubscribe => 10,
            PacketType::UnSubAck => 11,
            PacketType::PingReq => 12,
            PacketType::PingResp => 13,
            PacketType::Disconnect => 14,
            PacketType::Reserved => 15,
        }
    }
}

impl From<u8> for PacketType {
    fn from(flag: u8) -> (r: Self) {
        if flag == 1 {
            PacketType::ConnectCmd
        } else if flag == 2 {
            PacketType::ConnectAck
        } else if flag == 3 {
            PacketType::Publish
        } else if flag == 4 {
            PacketType::PubAck
        } else if flag == 5 {
            PacketType::PubRecv
        } else if flag == 6 {
            PacketType::PubRel
        } else if flag == 7 {
            PacketType::PubCompl
        } else if flag == 8 {
            PacketType::Subscribe
        } else if flag == 9 {
            PacketType::SubAck
        } else if flag == 10 {
            PacketType::UnSubscribe
        } else if flag == 11 {
            PacketType::UnSubAck
        } else if flag == 12 {
            PacketType::PingReq
        } else if flag == 13 {
            PacketType::PingResp
        } else if flag == 14 {
            PacketType::Disconnect
        } else if flag == 15 {
            PacketType::Reserved
        } else {
            PacketType::Unknown
        }
    }
}

impl vstd::std_specs::convert::FromSpecImpl<u8> for PacketType {
    open spec fn obeys_from_spec() -> bool {
        true
    }

    open spec fn from_spec(flag: u8) -> Self {
        spec_packet_type_of(flag)
    }
}

/// Quality-of-service delivery level.
#[derive(Debug, Clone, Copy, PartialEq, Eq, Structural)]
pub enum QoS {
    /// At most once, no acknowledgement.
    AtMostOnce,
    /// At least once, acknowledged by PUBACK.
    AtLeastOnce,
    /// Exactly once, the PUBREC / PUBREL / PUBCOMP exchange.
    ExactOnce,
}

/// The wire value of a quality-of-service level.
pub open spec fn spec_qos_value(q: QoS) -> u8 {
    match q {
        QoS::AtMostOnce => 0,
        QoS::AtLeastOnce => 1,
        QoS::ExactOnce => 2,
    }
}

impl QoS {
    /// The numeric level, 0, 1 or 2.
    pub fn value(self) -> (r: u8)
        ensures
            r == spec_qos_value(self),
    {
        match self {
            QoS::AtMostOnce => 0,
            QoS::AtLeastOnce => 1,
            QoS::ExactOnce => 2,
        }
    }

    /// The level named by a wire value; 3 and above are rejected.
    pub fn try_from(v: u8) -> (r: Result<QoS, DecodeError>)
        ensures
            r matches Ok(q) ==> spec_qos_value(q) == v,
            v == 0 ==> r == Ok::<QoS, DecodeError>(QoS::AtMostOnce),
            v == 1 ==> r == Ok::<QoS, DecodeError>(QoS::AtLeastOnce),
            v == 2 ==> r == Ok::<QoS, DecodeError>(QoS::ExactOnce),
            v >= 3 ==> r == Err::<QoS, DecodeError>(DecodeError::InvalidQoS),
    {
        if v == 0 {
            Ok(QoS::AtMostOnce)
        } else if v == 1 {
            Ok(QoS::AtLeastOnce)
        } else if v == 2 {
            Ok(QoS::ExactOnce)
        } else {
            Err(DecodeError::InvalidQoS)
        }
    }

    /// The weaker of two levels, the one a delivery is downgraded to.
    pub fn min(self, other: QoS) -> (r: QoS)
        ensures
            spec_qos_value(r) == vstd::math::min(
                spec_qos_value(self) as int,
                spec_qos_value(other) as int,
            ),
    {
        if self.value() <= other.value() {
            self
        } else {
            other
        }
    }
}

impl Default for QoS {
    fn default() -> (r: Self)
        ensures
            r == QoS::AtMostOnce,
    {
        QoS::AtMostOnce
    }
}

/// Protocol level carried in CONNECT: 3.1, 3.1.1 or 5.0.
#[derive(Debug, Clone, Copy, PartialEq, Eq, Structural)]
pub enum Version {
    V31,
    V311,
    V5,
}

/// The protocol-level byte of each version.
pub open spec fn spec_version_value(v: Version) -> u8 {
    match v {
        Version::V31 => 3,
        Version::V311 => 4,
        Version::V5 => 5,
    }
}

impl Version {
    /// The protocol-level byte.
    pub fn value(self) -> (r: u8)
        ensures
            r == spec_version_value(self),
    {
        match self {
            Version::V31 => 3,
            Version::V311 => 4,
            Version::V5 => 5,
        }
    }

    /// The version named by a protocol-level byte.
    pub fn try_from(v: u8) -> (r: Result<Version, DecodeError>)
        ensures
            r matches Ok(ver) ==> spec_version_value(ver) == v,
            v == 3 ==> r == Ok::<Version, DecodeError>(Version::V31),
            v == 4 ==> r == Ok::<Version, DecodeError>(Version::V311),
            v == 5 ==> r == Ok::<Version, DecodeError>(Version::V5),
            !(3 <= v <= 5) ==> r == Err::<Version, DecodeError>(DecodeError::InvalidProtocolLevel),
    {
        if v == 3 {
            Ok(Version::V31)
        } else if v == 4 {
            Ok(Version::V311)
        } else if v == 5 {
            Ok(Version::V5)
        } else {
            Err(DecodeError::InvalidProtocolLevel)
        }
    }
}

impl Default for Version {
    fn default() -> (r: Self)
        ensures
            r == Version::V311,
    {
        Version::V311
    }
}

/// The flag nibble of the fixed header.
#[derive(Debug, Clone, Copy, PartialEq, Eq, Structural)]
pub enum PacketFlags {
    /// All bits zero, required of most packet types.
    Reserved,
    /// The PUBLISH flags: duplicate delivery, quality of service, retain.
    Publish { dup: bool, qos: QoS, retain: bool },
    /// The 0b0010 pattern required of SUBSCRIBE, UNSUBSCRIBE and PUBREL.
    Subscribe,
}

impl Default for PacketFlags {
    fn default() -> (r: Self)
        ensures
            r == PacketFlags::Reserved,
    {
        PacketFlags::Reserved
    }
}

/// The wire value of a flag nibble.
pub open spec fn spec_flags_value(f: PacketFlags) -> u8 {
    match f {
        PacketFlags::Reserved => 0,
        PacketFlags::Publish { dup, qos, retain } => ((if dup {
            8int
        } else {
            0int
        }) + spec_qos_value(qos) * 2 + (if retain {
            1int
        } else {
            0int
        })) as u8,
        PacketFlags::Subscribe => 2,
    }
}

impl PacketFlags {
    /// The flag nibble on the wire.
    pub fn value(self) -> (r: u8)
        ensures
            r == spec_flags_value(self),
    {
        match self {
            PacketFlags::Reserved => 0,
            PacketFlags::Publish { dup, qos, retain } => {
                let d: u8 = if dup {
                    8
                } else {
                    0
                };
                let rt: u8 = if retain {
                    1
                } else {
                    0
                };
                d + qos.value() * 2 + rt
            },
            PacketFlags::Subscribe => 2,
        }
    }
}

/// The flag nibble each packet type demands; PUBLISH carries its own bits.
pub open spec fn spec_flags_ok(t: PacketType, f: PacketFlags) -> bool {
    match t {
        PacketType::Publish => f is Publish,
        PacketType::Subscribe | PacketType::UnSubscribe | PacketType::PubRel => f
            == PacketFlags::Subscribe,
        _ => f == PacketFlags::Reserved,
    }
}

/// The one-to-four-byte base-128 encoding of a length, least significant
/// group first, bit 7 of each byte meaning "more follows".
pub open spec fn spec_varint_encode(v: int) -> Seq<u8>
    decreases v,
{
    if v < 128 {
        seq![(if v < 0 {
            0int
        } else {
            v
        }) as u8]
    } else {
        seq![(v % 128 + 128) as u8] + spec_varint_encode(v / 128)
    }
}

/// The largest value a four-byte variable-byte integer can carry.
pub const VARINT_MAX: u32 = 268435455;

/// The number of values that fit in `depth` base-128 groups.
pub open spec fn spec_varint_bound(depth: int) -> int
    decreases depth,
{
    if depth <= 1 {
        128
    } else {
        128 * spec_varint_bound(depth - 1)
    }
}

/// Parse a variable-byte integer from the front of `b`, reading at most
/// `max_bytes` bytes: the value and the number of bytes consumed.  An
/// encoding longer than needed (a continuation into a zero) is rejected,
/// as MQTT asks for the minimal encoding.
pub open spec fn spec_parse_varint(b: Seq<u8>, max_bytes: int) -> Option<(int, int)>
    decreases max_bytes,
{
    if max_bytes <= 0 || b.len() == 0 {
        None
    } else if b[0] < 128 {
        Some((b[0] as int, 1int))
    } else {
        match spec_parse_varint(b.skip(1), max_bytes - 1) {
            None => None,
            Some((v, n)) => if v > 0 {
                Some(((b[0] - 128) + 128 * v, n + 1))
            } else {
                None
            },
        }
    }
}

/// A parsed variable-byte integer is bounded by its byte budget, and the
/// bytes it consumed are exactly the encoding of its value.
pub proof fn lemma_parse_varint_inverse(b: Seq<u8>, max_bytes: int)
    ensures
        spec_parse_varint(b, max_bytes) matches Some(r) ==> {
            &&& 0 <= r.0 < spec_varint_bound(max_bytes)
            &&& 1 <= r.1 <= max_bytes
            &&& r.1 <= b.len()
            &&& spec_varint_encode(r.0) == b.take(r.1)
            &&& spec_varint_encode(r.0).len() == r.1
        },
    decreases max_bytes,
{
    lemma_varint_bound_pos(max_bytes);
    if max_bytes > 0 && b.len() > 0 {
        if b[0] < 128 {
            assert(spec_varint_encode(b[0] as int) =~= b.take(1));
        } else {
            lemma_parse_varint_inverse(b.skip(1), max_bytes - 1);
            lemma_varint_bound_pos(max_bytes - 1);
            if let Some((w, n)) = spec_parse_varint(b.skip(1), max_bytes - 1) {
                if w > 0 {
                assert(spec_varint_bound(max_bytes) == 128 * spec_varint_bound(max_bytes - 1));
                let v = (b[0] - 128) + 128 * w;
                assert(v >= 128);
                assert(v % 128 == b[0] - 128 && v / 128 == w) by {
                    vstd::arithmetic::div_mod::lemma_fundamental_div_mod_converse(
                        v,
                        128,
                        w,
                        b[0] - 128,
                    );
                }
                assert(spec_varint_encode(v) == seq![b[0]] + spec_varint_encode(w));
                assert(spec_varint_encode(w) == b.skip(1).take(n));
                assert(spec_varint_encode(v) =~= b.take(n + 1));
                }
            }
        }
    }
}

/// Every byte budget admits at least the one-byte values.
pub proof fn lemma_varint_bound_pos(depth: int)
    ensures
        spec_varint_bound(depth) >= 128,
    decreases depth,
{
    if depth > 1 {
        lemma_varint_bound_pos(depth - 1);
    }
}

/// Four base-128 groups carry exactly the values up to the largest
/// remaining length.
pub proof fn lemma_varint_bound_4()
    ensures
        spec_varint_bound(4) == 268435456,
        spec_varint_bound(3) == 2097152,
{
    assert(spec_varint_bound(1) == 128);
    assert(spec_varint_bound(2) == 128 * 128);
    assert(spec_varint_bound(3) == 128 * (128 * 128));
    assert(spec_varint_bound(4) == 128 * (128 * (128 * 128)));
}

/// Encoding a value within range and parsing it back gives the value.
pub proof fn lemma_varint_round_trip(v: int, rest: Seq<u8>)
    requires
        0 <= v <= VARINT_MAX,
    ensures
        spec_varint_encode(v).len() <= 4,
        spec_parse_varint(spec_varint_encode(v) + rest, 4) == Some(
            (v, spec_varint_encode(v).len() as int),
        ),
{
    lemma_varint_bound_4();
    lemma_varint_round_trip_depth(v, rest, 4);
}

proof fn lemma_varint_round_trip_depth(v: int, rest: Seq<u8>, depth: int)
    requires
        0 <= v < spec_varint_bound(depth),
        1 <= depth,
    ensures
        spec_varint_encode(v).len() <= depth,
        spec_parse_varint(spec_varint_encode(v) + rest, depth) == Some(
            (v, spec_varint_encode(v).len() as int),
        ),
    decreases depth,
{
    if v < 128 {
        assert(spec_varint_encode(v) =~= seq![v as u8]);
        assert((seq![v as u8] + rest)[0] == v as u8);
    } else {
        assert(depth >= 2);
        let bound_rest = spec_varint_bound(depth - 1);
        assert(spec_varint_bound(depth) == 128 * bound_rest);
        assert(v / 128 < bound_rest) by {
            vstd::arithmetic::div_mod::lemma_multiply_divide_lt(v, 128, bound_rest);
        }
        assert(v / 128 >= 1) by {
            vstd::arithmetic::div_mod::lemma_div_is_ordered(128, v, 128);
            vstd::arithmetic::div_mod::lemma_div_by_self(128);
        }
        lemma_varint_round_trip_depth(v / 128, rest, depth - 1);
        let head = seq![(v % 128 + 128) as u8];
        assert(spec_varint_encode(v) + rest =~= head + (spec_varint_encode(v / 128) + rest));
        let whole = head + (spec_varint_encode(v / 128) + rest);
        assert(whole[0] == (v % 128 + 128) as u8);
        assert(whole.skip(1) =~= spec_varint_encode(v / 128) + rest);
        assert((v % 128 + 128) - 128 + 128 * (v / 128) == v) by {
            vstd::arithmetic::div_mod::lemma_fundamental_div_mod(v, 128);
        }
    }
}

/// Header flags of an MQTT packet: the first byte and the remaining length.
#[derive(Debug, Clone, Copy, PartialEq, Eq, Structural)]
pub struct FixedHeader {
    pub packet_type: PacketType,
    pub packet_flags: PacketFlags,
    pub remaining_length: u32,
}

/// The bytes of a fixed header: type and flag nibbles packed in one byte,
/// then the remaining length as a variable-byte integer.
pub open spec fn spec_encode_fixed_header(h: FixedHeader) -> Seq<u8> {
    seq![
        (spec_packet_type_code(h.packet_type) * 16 + spec_flags_value(h.packet_flags)) as u8,
    ] + spec_varint_encode(h.remaining_length as int)
}

/// Whether `b` begins with the encoding of the header `h`.
pub open spec fn spec_header_prefix(b: Seq<u8>, h: FixedHeader) -> bool {
    &&& spec_fixed_header_wf(h)
    &&& b.len() >= spec_encode_fixed_header(h).len()
    &&& b.take(spec_encode_fixed_header(h).len() as int) == spec_encode_fixed_header(h)
}

/// The flag nibble always fits in four bits.
pub proof fn lemma_flags_value_bound(f: PacketFlags)
    ensures
        spec_flags_value(f) < 16,
{
}

/// A header the codec will put on the wire.
pub open spec fn spec_fixed_header_wf(h: FixedHeader) -> bool {
    &&& spec_flags_ok(h.packet_type, h.packet_flags)
    &&& h.remaining_length <= VARINT_MAX
    &&& h.packet_type != PacketType::Unknown
    &&& h.packet_type != PacketType::Reserved
}

impl FixedHeader {
    /// Build a header for `packet_type` with its required flag nibble.
    pub fn new(packet_type: PacketType, remaining_length: usize) -> (r: Result<
        FixedHeader,
        EncodeError,
    >)
        requires
            packet_type != PacketType::Publish,
        ensures
            remaining_length <= VARINT_MAX && packet_type != PacketType::Unknown && packet_type
                != PacketType::Reserved ==> (r matches Ok(h) && h.packet_type == packet_type
                && h.remaining_length == remaining_length && spec_fixed_header_wf(h)),
            !(remaining_length <= VARINT_MAX && packet_type != PacketType::Unknown && packet_type
                != PacketType::Reserved) ==> r is Err,
    {
        if remaining_length > VARINT_MAX as usize {
            return Err(EncodeError::TooManyData);
        }
        let packet_flags = match packet_type {
            PacketType::Subscribe | PacketType::UnSubscribe | PacketType::PubRel => PacketFlags::Subscribe,
            PacketType::Unknown | PacketType::Reserved => {
                return Err(EncodeError::InvalidData);
            },
            _ => PacketFlags::Reserved,
        };
        Ok(FixedHeader { packet_type, packet_flags, remaining_length: remaining_length as u32 })
    }

    /// Build a PUBLISH header carrying the given flag bits.
    pub fn new_publish(dup: bool, qos: QoS, retain: bool, remaining_length: usize) -> (r: Result<
        FixedHeader,
        EncodeError,
    >)
        ensures
            remaining_length <= VARINT_MAX ==> (r matches Ok(h) && h.packet_type
                == PacketType::Publish && h.packet_flags == (PacketFlags::Publish { dup, qos, retain })
                && h.remaining_length == remaining_length && spec_fixed_header_wf(h)),
            remaining_length > VARINT_MAX ==> r == Err::<FixedHeader, EncodeError>(
                EncodeError::TooManyData,
            ),
    {
        if remaining_length > VARINT_MAX as usize {
            return Err(EncodeError::TooManyData);
        }
        Ok(
            FixedHeader {
                packet_type: PacketType::Publish,
                packet_flags: PacketFlags::Publish { dup, qos, retain },
                remaining_length: remaining_length as u32,
            },
        )
    }

    /// The packet type this header announces.
    pub fn packet_type(&self) -> (r: PacketType)
        ensures
            r == self.packet_type,
    {
        self.packet_type
    }

    /// The number of bytes that follow the fixed header.
    pub fn remaining_length(&self) -> (r: u32)
        ensures
            r == self.remaining_length,
    {
        self.remaining_length
    }

    /// Append the header bytes to `buf`.
    pub fn encode(&self, buf: &mut Vec<u8>) -> (r: Result<usize, EncodeError>)
        requires
            spec_fixed_header_wf(*self),
        ensures
            r matches Ok(n) && final(buf)@ == old(buf)@ + spec_encode_fixed_header(*self) && n
                == spec_encode_fixed_header(*self).len(),
    {
        let first: u8 = self.packet_type.code() * 16 + self.packet_flags.value();
        assert(spec_flags_value(self.packet_flags) < 16);
        buf.push(first);
        let n = write_varint(buf, self.remaining_length);
        assert(final(buf)@ =~= old(buf)@ + spec_encode_fixed_header(*self));
        Ok(n + 1)
    }

    /// Read a fixed header from the cursor and check its flag nibble.  A
    /// buffer that begins with a well-formed header's bytes is always
    /// accepted.
    #[verifier::rlimit(100)]
    pub fn decode(ba: &mut ByteArray) -> (r: Result<FixedHeader, DecodeError>)
        requires
            old(ba).wf(),
        ensures
            final(ba).wf(),
            final(ba).spec_data() == old(ba).spec_data(),
            r matches Ok(h) ==> {
                &&& spec_fixed_header_wf(h)
                &&& old(ba).spec_remaining() == spec_encode_fixed_header(h) + final(ba).spec_remaining()
                &&& final(ba).spec_offset() == old(ba).spec_offset() + spec_encode_fixed_header(
                    h,
                ).len()
            },
            forall|h: FixedHeader| spec_header_prefix(old(ba).spec_remaining(), h) ==> r is Ok,
    {
        let ghost rem0 = old(ba).spec_remaining();
        let first = match ba.read_byte() {
            Ok(b) => b,
            Err(e) => {
                proof {
                    assert forall|h: FixedHeader| spec_header_prefix(rem0, h) implies false by {
                        assert(spec_encode_fixed_header(h).len() >= 1);
                    }
                }
                return Err(DecodeError::from_byte_array(e));
            },
        };
        let type_code: u8 = first / 16;
        let flag_bits: u8 = first % 16;
        proof {
            assert forall|h: FixedHeader| spec_header_prefix(rem0, h) implies
                spec_packet_type_code(h.packet_type) == type_code && spec_flags_value(
                h.packet_flags,
            ) == flag_bits by {
                lemma_header_first_byte(rem0, h, first);
            }
        }
        let packet_type = PacketType::from(type_code);
        let packet_flags = match packet_type {
            PacketType::Unknown | PacketType::Reserved => {
                proof {
                    assert forall|h: FixedHeader| spec_header_prefix(rem0, h) implies false by {
                        lemma_header_first_byte(rem0, h, first);
                    }
                }
                return Err(DecodeError::InvalidPacketType);
            },
            PacketType::Publish => {
                let qos_bits: u8 = (flag_bits / 2) % 4;
                let qos = match QoS::try_from(qos_bits) {
                    Ok(q) => q,
                    Err(e) => {
                        proof {
                            assert forall|h: FixedHeader| spec_header_prefix(rem0, h) implies
                                false by {
                                lemma_header_first_byte(rem0, h, first);
                                lemma_flag_bits_split(h.packet_flags, flag_bits);
                            }
                        }
                        return Err(e);
                    },
                };
                PacketFlags::Publish { dup: flag_bits >= 8, qos, retain: flag_bits % 2 == 1 }
            },
            PacketType::Subscribe | PacketType::UnSubscribe | PacketType::PubRel => {
                if flag_bits != 2 {
                    proof {
                        assert forall|h: FixedHeader| spec_header_prefix(rem0, h) implies
                            false by {
                            lemma_header_first_byte(rem0, h, first);
                        }
                    }
                    return Err(DecodeError::InvalidFixedHeader);
                }
                PacketFlags::Subscribe
            },
            _ => {
                if flag_bits != 0 {
                    proof {
                        assert forall|h: FixedHeader| spec_header_prefix(rem0, h) implies
                            false by {
                            lemma_header_first_byte(rem0, h, first);
                        }
                    }
                    return Err(DecodeError::InvalidFixedHeader);
                }
                PacketFlags::Reserved
            },
        };
        proof {
            assert(flag_bits == (if flag_bits >= 8 {
                8u8
            } else {
                0u8
            }) + ((flag_bits / 2) % 4) * 2 + (if flag_bits % 2 == 1 {
                1u8
            } else {
                0u8
            })) by (bit_vector)
                requires
                    flag_bits < 16,
            ;
            assert(spec_flags_value(packet_flags) == flag_bits);
            vstd::arithmetic::div_mod::lemma_fundamental_div_mod(first as int, 16);
            assert(first == spec_packet_type_code(packet_type) * 16 + spec_flags_value(
                packet_flags,
            ));
        }
        let ghost rem1 = ba.spec_remaining();
        proof {
            assert(rem1 =~= old(ba).spec_remaining().skip(1));
            lemma_parse_varint_inverse(rem1, 4);
            lemma_varint_bound_4();
        }
        let remaining_length = match read_varint(ba) {
            Ok(v) => v,
            Err(e) => {
                proof {
                    assert forall|h: FixedHeader| spec_header_prefix(rem0, h) implies false by {
                        lemma_header_varint(rem0, h);
                    }
                }
                return Err(e);
            },
        };
        let h = FixedHeader { packet_type, packet_flags, remaining_length };
        proof {
            let n = spec_parse_varint(rem1, 4).unwrap().1;
            assert(ba.spec_remaining() =~= rem1.skip(n));
            assert(spec_varint_encode(remaining_length as int) == rem1.take(n));
            assert(old(ba).spec_remaining() =~= spec_encode_fixed_header(h) + ba.spec_remaining());
        }
        Ok(h)
    }
}

/// The first byte of an encoded header splits into the type and flag
/// nibbles of the header it came from.
pub proof fn lemma_header_first_byte(b: Seq<u8>, h: FixedHeader, first: u8)
    requires
        spec_header_prefix(b, h),
        b.len() >= 1,
        first == b[0],
    ensures
        spec_packet_type_code(h.packet_type) == first / 16,
        spec_flags_value(h.packet_flags) == first % 16,
{
    lemma_flags_value_bound(h.packet_flags);
    assert(b.take(spec_encode_fixed_header(h).len() as int)[0] == b[0]);
    assert(spec_encode_fixed_header(h)[0] == (spec_packet_type_code(h.packet_type) * 16
        + spec_flags_value(h.packet_flags)) as u8);
    assert(spec_packet_type_code(h.packet_type) * 16 + spec_flags_value(h.packet_flags) <= 255);
    vstd::arithmetic::div_mod::lemma_fundamental_div_mod_converse(
        first as int,
        16,
        spec_packet_type_code(h.packet_type) as int,
        spec_flags_value(h.packet_flags) as int,
    );
}

/// Two bytes of header with a short remaining length pin the header that
/// encoded them: its nibbles come from the first byte, its length from
/// the second.
pub proof fn lemma_header_bytes_pin(b: Seq<u8>, h: FixedHeader)
    requires
        spec_header_prefix(b, h),
        b.len() >= 2,
        b[1] < 128,
    ensures
        spec_packet_type_code(h.packet_type) == b[0] / 16,
        spec_flags_value(h.packet_flags) == b[0] % 16,
        h.remaining_length == b[1],
        spec_encode_fixed_header(h).len() == 2,
{
    lemma_header_first_byte(b, h, b[0]);
    let enc = spec_encode_fixed_header(h);
    let v = spec_varint_encode(h.remaining_length as int);
    assert(b.take(enc.len() as int)[1] == b[1]);
    assert(enc[1] == v[0]);
    if h.remaining_length >= 128 {
        assert(v[0] == (h.remaining_length as int % 128 + 128) as u8);
        assert(v[0] >= 128);
    } else {
        assert(v =~= seq![h.remaining_length as u8]);
    }
}

/// After the first byte of an encoded header comes a parsable remaining
/// length, and it parses back to the header's own.
pub proof fn lemma_header_varint(b: Seq<u8>, h: FixedHeader)
    requires
        spec_header_prefix(b, h),
    ensures
        spec_parse_varint(b.skip(1), 4) == Some(
            (
                h.remaining_length as int,
                spec_varint_encode(h.remaining_length as int).len() as int,
            ),
        ),
{
    let enc = spec_encode_fixed_header(h);
    let v = spec_varint_encode(h.remaining_length as int);
    lemma_varint_round_trip(h.remaining_length as int, b.skip(1).skip(v.len() as int));
    assert(b.skip(1).len() == (v + b.skip(1).skip(v.len() as int)).len());
    assert forall|i: int| 0 <= i < b.skip(1).len() implies b.skip(1)[i] == (v + b.skip(1).skip(
        v.len() as int,
    ))[i] by {
        if i < v.len() {
            assert(b.skip(1)[i] == b[i + 1]);
            assert(b.take(enc.len() as int)[i + 1] == b[i + 1]);
            assert(enc[i + 1] == v[i]);
            assert((v + b.skip(1).skip(v.len() as int))[i] == v[i]);
        } else {
            assert((v + b.skip(1).skip(v.len() as int))[i] == b.skip(1).skip(v.len() as int)[i
                - v.len()]);
            assert(b.skip(1).skip(v.len() as int)[i - v.len()] == b.skip(1)[i]);
        }
    }
    assert(b.skip(1) =~= v + b.skip(1).skip(v.len() as int));
}

/// The QoS bits of a Publish flag nibble name the QoS it carries.
proof fn lemma_flag_bits_split(f: PacketFlags, flag_bits: u8)
    requires
        spec_flags_value(f) == flag_bits,
        f is Publish,
    ensures
        (flag_bits / 2) % 4 == spec_qos_value(f->Publish_qos),
{
    let q = spec_qos_value(f->Publish_qos);
    let d: u8 = if f->Publish_dup {
        8
    } else {
        0
    };
    let rt: u8 = if f->Publish_retain {
        1
    } else {
        0
    };
    assert(flag_bits == d + q * 2 + rt);
    assert((flag_bits / 2) % 4 == q) by (bit_vector)
        requires
            flag_bits == d + q * 2 + rt,
            d == 8 || d == 0,
            rt <= 1,
            q <= 2,
    ;
}

/// Two well-formed headers that begin the same byte sequence are the same
/// header, so a header's encoding determines it.
pub proof fn lemma_header_prefix_deterministic(b: Seq<u8>, h1: FixedHeader, h2: FixedHeader)
    ensures
        spec_header_prefix(b, h1) && spec_header_prefix(b, h2) ==> h1 == h2
            && spec_encode_fixed_header(h1) == spec_encode_fixed_header(h2),
{
    if spec_header_prefix(b, h1) && spec_header_prefix(b, h2) {
        lemma_header_first_byte(b, h1, b[0]);
        lemma_header_first_byte(b, h2, b[0]);
        assert(h1.packet_type == h2.packet_type);
        lemma_flags_value_deterministic(h1.packet_flags, h2.packet_flags);
        lemma_header_varint(b, h1);
        lemma_header_varint(b, h2);
        assert(spec_encode_fixed_header(h1) =~= spec_encode_fixed_header(h2));
    }
}

/// Equal flag nibbles come from equal flag sets.
proof fn lemma_flags_value_deterministic(f1: PacketFlags, f2: PacketFlags)
    requires
        spec_flags_value(f1) == spec_flags_value(f2),
        f1 is Publish <==> f2 is Publish,
    ensures
        (f1 is Publish && f2 is Publish) ==> f1 == f2,
{
    if f1 is Publish && f2 is Publish {
        let d1: u8 = if f1->Publish_dup {
            8
        } else {
            0
        };
        let r1: u8 = if f1->Publish_retain {
            1
        } else {
            0
        };
        let q1 = spec_qos_value(f1->Publish_qos);
        let d2: u8 = if f2->Publish_dup {
            8
        } else {
            0
        };
        let r2: u8 = if f2->Publish_retain {
            1
        } else {
            0
        };
        let q2 = spec_qos_value(f2->Publish_qos);
        assert(d1 == d2 && q1 == q2 && r1 == r2) by (bit_vector)
            requires
                d1 + q1 * 2 + r1 == d2 + q2 * 2 + r2,
                d1 == 8 || d1 == 0,
                d2 == 8 || d2 == 0,
                r1 <= 1,
                r2 <= 1,
                q1 <= 2,
                q2 <= 2,
        ;
    }
}

/// Append the variable-byte-integer encoding of `v` to `buf`.
pub fn write_varint(buf: &mut Vec<u8>, v: u32) -> (n: usize)
    requires
        v <= VARINT_MAX,
    ensures
        final(buf)@ == old(buf)@ + spec_varint_encode(v as int),
        n == spec_varint_encode(v as int).len(),
        1 <= n <= 4,
{
    proof {
        lemma_varint_round_trip(v as int, Seq::empty());
    }
    let mut rest: u32 = v;
    let mut n: usize = 0;
    while rest >= 128
        invariant
            old(buf)@ + spec_varint_encode(v as int) =~= buf@ + spec_varint_encode(rest as int),
            n == buf@.len() - old(buf)@.len(),
            n + spec_varint_encode(rest as int).len() == spec_varint_encode(v as int).len(),
            spec_varint_encode(v as int).len() <= 4,
        decreases rest,
    {
        let b: u8 = (rest % 128 + 128) as u8;
        proof {
            assert(spec_varint_encode(rest as int) =~= seq![b] + spec_varint_encode(
                rest as int / 128,
            ));
            assert(buf@.push(b) + spec_varint_encode((rest / 128) as int) =~= buf@
                + spec_varint_encode(rest as int));
        }
        buf.push(b);
        n += 1;
        rest = rest / 128;
    }
    proof {
        assert(spec_varint_encode(rest as int) =~= seq![rest as u8]);
        assert(buf@.push(rest as u8) =~= buf@ + spec_varint_encode(rest as int));
        assert(buf@.push(rest as u8) =~= old(buf)@ + spec_varint_encode(v as int));
    }
    buf.push(rest as u8);
    n + 1
}

/// Read a variable-byte integer of at most four bytes from the cursor.
pub fn read_varint(ba: &mut ByteArray) -> (r: Result<u32, DecodeError>)
    requires
        old(ba).wf(),
    ensures
        final(ba).wf(),
        final(ba).spec_data() == old(ba).spec_data(),
        (match spec_parse_varint(old(ba).spec_remaining(), 4) {
            Some((v, n)) => r == Ok::<u32, DecodeError>(v as u32) && final(ba).spec_offset()
                == old(ba).spec_offset() + n,
            None => r is Err && r != Ok::<u32, DecodeError>(0u32),
        }),
{
    read_varint_depth(ba, 4)
}

fn read_varint_depth(ba: &mut ByteArray, max_bytes: u8) -> (r: Result<u32, DecodeError>)
    requires
        old(ba).wf(),
        1 <= max_bytes <= 4,
    ensures
        final(ba).wf(),
        final(ba).spec_data() == old(ba).spec_data(),
        (match spec_parse_varint(old(ba).spec_remaining(), max_bytes as int) {
            Some((v, n)) => r == Ok::<u32, DecodeError>(v as u32) && final(ba).spec_offset()
                == old(ba).spec_offset() + n,
            None => r is Err,
        }),
    decreases max_bytes,
{
    proof {
        lemma_parse_varint_inverse(old(ba).spec_remaining(), max_bytes as int);
        lemma_varint_bound_4();
    }
    let first = match ba.read_byte() {
        Ok(b) => b,
        Err(_) => {
            return Err(DecodeError::InvalidRemainingLength);
        },
    };
    if first < 128 {
        Ok(first as u32)
    } else if max_bytes == 1 {
        Err(DecodeError::InvalidRemainingLength)
    } else {
        proof {
            assert(ba.spec_remaining() =~= old(ba).spec_remaining().skip(1));
            lemma_parse_varint_inverse(ba.spec_remaining(), max_bytes - 1);
        }
        let rest = match read_varint_depth(ba, max_bytes - 1) {
            Ok(v) => v,
            Err(e) => {
                return Err(e);
            },
        };
        if rest == 0 {
            return Err(DecodeError::InvalidRemainingLength);
        }
        proof {
            assert(spec_varint_bound(max_bytes - 1) <= 2097152) by {
                if max_bytes == 2 {
                } else if max_bytes == 3 {
                } else {
                }
            }
        }
        Ok((first - 128) as u32 + 128 * rest)
    }
}

} // verus!

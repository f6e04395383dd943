//! Length-prefixed string and binary payloads shared by all packet types.

use vstd::prelude::*;
use vstd::string::StringSliceAdditionalSpecFns;
use crate::base::{DecodeError, EncodeError};
use crate::byte_array::ByteArray;
use crate::utils::{be_u16, be_u16_bytes, valid_mqtt_string_bytes, StringError};

verus! {

/// Append a byte slice to a buffer.
pub fn append_bytes(buf: &mut Vec<u8>, b: &[u8])
    ensures
        final(buf)@ == old(buf)@ + b@,
{
    let mut i: usize = 0;
    while i < b.len()
        invariant
            0 <= i <= b@.len(),
            buf@ =~= old(buf)@ + b@.take(i as int),
        decreases b@.len() - i,
    {
        buf.push(b[i]);
        i += 1;
    }
    assert(buf@ =~= old(buf)@ + b@);
}

/// Append a big-endian u16 to a buffer.
pub fn append_u16(buf: &mut Vec<u8>, v: u16)
    ensures
        final(buf)@ == old(buf)@ + be_u16_bytes(v),
{
    buf.push((v / 256) as u8);
    buf.push((v % 256) as u8);
    assert(buf@ =~= old(buf)@ + be_u16_bytes(v));
}

/// Two big-endian bytes carrying their value give it back.
pub broadcast proof fn lemma_be_u16_round_trip(v: u16)
    ensures
        #[trigger] be_u16(be_u16_bytes(v)[0], be_u16_bytes(v)[1]) == v,
        be_u16_bytes(v).len() == 2,
{
}

/// The bytes of an MQTT string: two length bytes, then the UTF-8 encoding.
pub open spec fn spec_encode_string(s: Seq<char>) -> Seq<u8> {
    be_u16_bytes(vstd::utf8::encode_utf8(s).len() as u16) + vstd::utf8::encode_utf8(s)
}

/// An MQTT UTF-8 string: at most 65535 bytes and free of NUL.
#[derive(Debug, Clone, PartialEq, Eq)]
pub struct StringData {
    inner: String,
}

impl View for StringData {
    type V = Seq<char>;

    closed spec fn view(&self) -> Seq<char> {
        self.inner@
    }
}

impl StringData {
    /// The byte constraints MQTT puts on the carried characters.
    pub open spec fn wf(&self) -> bool {
        valid_mqtt_string_bytes(vstd::utf8::encode_utf8(self@))
    }

    /// The empty string.
    pub fn new() -> (r: Self)
        ensures
            r.wf(),
            r@ == Seq::<char>::empty(),
    {
        proof {
            assert(vstd::utf8::encode_utf8(Seq::<char>::empty()) =~= Seq::<u8>::empty());
        }
        StringData { inner: String::new() }
    }

    /// Wrap a string, rejecting one over 65535 bytes or holding NUL.
    pub fn from_str(s: &str) -> (r: Result<Self, EncodeError>)
        ensures
            r is Ok <==> valid_mqtt_string_bytes(s.spec_bytes()),
            r matches Ok(d) ==> d@ == s@ && d.wf(),
    {
        let bytes = s.as_bytes();
        if bytes.len() > 65535 {
            return Err(EncodeError::InvalidString(StringError::InvalidLength));
        }
        let mut i: usize = 0;
        while i < bytes.len()
            invariant
                0 <= i <= bytes@.len(),
                bytes@ == s.spec_bytes(),
                forall|j: int| 0 <= j < i ==> bytes@[j] != 0u8,
            decreases bytes@.len() - i,
        {
            if bytes[i] == 0u8 {
                proof {
                    assert(s.spec_bytes().contains(0u8)) by {
                        assert(s.spec_bytes()[i as int] == 0u8);
                    }
                }
                return Err(EncodeError::InvalidString(StringError::InvalidChar));
            }
            i += 1;
        }
        proof {
            vstd::utf8::encode_utf8_valid_utf8(s@);
        }
        Ok(StringData { inner: s.to_owned() })
    }

    /// A copy with the same characters.
    pub fn duplicate(&self) -> (r: Self)
        ensures
            r@ == self@,
    {
        StringData { inner: self.inner.clone() }
    }

    /// The carried string.
    pub fn as_str(&self) -> (r: &str)
        ensures
            r@ == self@,
    {
        self.inner.as_str()
    }

    /// Whether the string is empty.
    pub fn is_empty(&self) -> (r: bool)
        ensures
            r == (self@.len() == 0),
    {
        self.inner.as_str().is_empty()
    }

    /// The number of bytes the string occupies on the wire, prefix included.
    pub fn bytes(&self) -> (r: usize)
        requires
            self.wf(),
        ensures
            r == spec_encode_string(self@).len(),
            r == 2 + vstd::utf8::encode_utf8(self@).len(),
    {
        2 + self.inner.as_str().len()
    }

    /// Append the length prefix and the UTF-8 bytes to `buf`.
    pub fn encode(&self, buf: &mut Vec<u8>) -> (r: Result<usize, EncodeError>)
        requires
            self.wf(),
        ensures
            r matches Ok(n) && final(buf)@ == old(buf)@ + spec_encode_string(self@) && n
                == spec_encode_string(self@).len(),
    {
        let s = self.inner.as_str();
        let len = s.len();
        append_u16(buf, len as u16);
        append_bytes(buf, s.as_bytes());
        assert(buf@ =~= old(buf)@ + spec_encode_string(self@));
        Ok(2 + len)
    }

    /// Whether the front of `b` carries a whole length-prefixed string.
    #[verifier::opaque]
    pub open spec fn spec_decodable(b: Seq<u8>) -> bool {
        &&& b.len() >= 2
        &&& b.len() >= 2 + crate::utils::be_u16(b[0], b[1])
        &&& crate::utils::valid_mqtt_string_bytes(
            b.skip(2).take(crate::utils::be_u16(b[0], b[1]) as int),
        )
    }

    /// Read a length-prefixed MQTT string from the cursor.
    pub fn decode(ba: &mut ByteArray) -> (r: Result<Self, DecodeError>)
        requires
            old(ba).wf(),
        ensures
            final(ba).wf(),
            final(ba).spec_data() == old(ba).spec_data(),
            r is Ok <==> Self::spec_decodable(old(ba).spec_remaining()),
            r matches Ok(d) ==> {
                &&& d.wf()
                &&& old(ba).spec_remaining() == spec_encode_string(d@) + final(ba).spec_remaining()
                &&& final(ba).spec_offset() == old(ba).spec_offset() + spec_encode_string(
                    d@,
                ).len()
            },
    {
        proof {
            reveal(StringData::spec_decodable);
        }
        let len = match ba.read_u16() {
            Ok(v) => v,
            Err(e) => {
                return Err(DecodeError::from_byte_array(e));
            },
        };
        let ghost mid = ba.spec_remaining();
        proof {
            assert(mid =~= old(ba).spec_remaining().skip(2));
        }
        let s = match ba.read_string(len as usize) {
            Ok(s) => s,
            Err(e) => {
                return Err(DecodeError::from_byte_array(e));
            },
        };
        let d = StringData { inner: s };
        proof {
            lemma_be_u16_round_trip(len);
            assert(mid.take(len as int) == vstd::utf8::encode_utf8(d@));
            assert(old(ba).spec_remaining() =~= be_u16_bytes(len) + mid);
            assert(ba.spec_remaining() =~= mid.skip(len as int));
            assert(old(ba).spec_remaining() =~= spec_encode_string(d@) + ba.spec_remaining());
        }
        Ok(d)
    }
}

impl Default for StringData {
    fn default() -> (r: Self)
        ensures
            r.wf(),
            r@ == Seq::<char>::empty(),
    {
        StringData::new()
    }
}

/// The bytes of a binary payload: two length bytes, then the raw bytes.
pub open spec fn spec_encode_binary(b: Seq<u8>) -> Seq<u8> {
    be_u16_bytes(b.len() as u16) + b
}

/// Raw bytes with a two-byte length prefix, at most 65535 of them.
#[derive(Debug, Clone, PartialEq, Eq)]
pub struct BinaryData {
    inner: Vec<u8>,
}

impl View for BinaryData {
    type V = Seq<u8>;

    closed spec fn view(&self) -> Seq<u8> {
        self.inner@
    }
}

impl BinaryData {
    /// The length constraint MQTT puts on binary payloads.
    pub open spec fn wf(&self) -> bool {
        self@.len() <= 65535
    }

    /// The empty payload.
    pub fn new() -> (r: Self)
        ensures
            r.wf(),
            r@ == Seq::<u8>::empty(),
    {
        BinaryData { inner: Vec::new() }
    }

    /// Wrap a byte slice, rejecting one over 65535 bytes.
    pub fn from_slice(data: &[u8]) -> (r: Result<Self, EncodeError>)
        ensures
            r is Ok <==> data@.len() <= 65535,
            r matches Ok(d) ==> d@ == data@ && d.wf(),
    {
        if data.len() > 65535 {
            return Err(EncodeError::TooManyData);
        }
        Ok(BinaryData { inner: vstd::slice::slice_to_vec(data) })
    }

    /// A copy with the same bytes.
    pub fn duplicate(&self) -> (r: Self)
        ensures
            r@ == self@,
    {
        BinaryData { inner: vstd::slice::slice_to_vec(self.inner.as_slice()) }
    }

    /// The carried bytes.
    pub fn as_slice(&self) -> (r: &[u8])
        ensures
            r@ == self@,
    {
        self.inner.as_slice()
    }

    /// Drop the carried bytes.
    pub fn clear(&mut self)
        ensures
            final(self)@ == Seq::<u8>::empty(),
            final(self).wf(),
    {
        self.inner.clear();
    }

    /// The number of carried bytes.
    pub fn len(&self) -> (r: usize)
        ensures
            r == self@.len(),
    {
        self.inner.len()
    }

    /// The number of bytes the payload occupies on the wire, prefix included.
    pub fn bytes(&self) -> (r: usize)
        requires
            self.wf(),
        ensures
            r == spec_encode_binary(self@).len(),
            r == 2 + self@.len(),
    {
        2 + self.inner.len()
    }

    /// Append the length prefix and the raw bytes to `buf`.
    pub fn encode(&self, buf: &mut Vec<u8>) -> (r: Result<usize, EncodeError>)
        requires
            self.wf(),
        ensures
            r matches Ok(n) && final(buf)@ == old(buf)@ + spec_encode_binary(self@) && n
                == spec_encode_binary(self@).len(),
    {
        append_u16(buf, self.inner.len() as u16);
        append_bytes(buf, self.inner.as_slice());
        assert(buf@ =~= old(buf)@ + spec_encode_binary(self@));
        Ok(2 + self.inner.len())
    }

    /// Whether the front of `b` carries a whole length-prefixed payload.
    #[verifier::opaque]
    pub open spec fn spec_decodable(b: Seq<u8>) -> bool {
        b.len() >= 2 && b.len() >= 2 + crate::utils::be_u16(b[0], b[1])
    }

    /// Read a length-prefixed binary payload from the cursor.
    pub fn decode(ba: &mut ByteArray) -> (r: Result<Self, DecodeError>)
        requires
            old(ba).wf(),
        ensures
            final(ba).wf(),
            final(ba).spec_data() == old(ba).spec_data(),
            r is Ok <==> Self::spec_decodable(old(ba).spec_remaining()),
            r matches Ok(d) ==> {
                &&& d.wf()
                &&& old(ba).spec_remaining() == spec_encode_binary(d@) + final(ba).spec_remaining()
                &&& final(ba).spec_offset() == old(ba).spec_offset() + spec_encode_binary(
                    d@,
                ).len()
            },
    {
        proof {
            reveal(BinaryData::spec_decodable);
        }
        let len = match ba.read_u16() {
            Ok(v) => v,
            Err(e) => {
                return Err(DecodeError::from_byte_array(e));
            },
        };
        let ghost mid = ba.spec_remaining();
        proof {
            assert(mid =~= old(ba).spec_remaining().skip(2));
        }
        let bytes = match ba.read_bytes(len as usize) {
            Ok(b) => b,
            Err(e) => {
                return Err(DecodeError::from_byte_array(e));
            },
        };
        let d = BinaryData { inner: vstd::slice::slice_to_vec(bytes) };
        proof {
            lemma_be_u16_round_trip(len);
            assert(old(ba).spec_remaining() =~= be_u16_bytes(len) + mid);
            assert(ba.spec_remaining() =~= mid.skip(len as int));
            assert(old(ba).spec_remaining() =~= spec_encode_binary(d@) + ba.spec_remaining());
        }
        Ok(d)
    }
}

impl Default for BinaryData {
    fn default() -> (r: Self)
        ensures
            r.wf(),
            r@ == Seq::<u8>::empty(),
    {
        BinaryData::new()
    }
}

/// Two strings within the length cap that begin the same byte sequence
/// are the same string, so a string's encoding determines it.
pub proof fn lemma_string_prefix_deterministic(b: Seq<u8>, s1: Seq<char>, s2: Seq<char>)
    requires
        vstd::utf8::encode_utf8(s1).len() <= 65535,
        vstd::utf8::encode_utf8(s2).len() <= 65535,
        crate::utils::spec_prefix(b, spec_encode_string(s1)),
        crate::utils::spec_prefix(b, spec_encode_string(s2)),
    ensures
        s1 == s2,
        spec_encode_string(s1) == spec_encode_string(s2),
{
    let e1 = vstd::utf8::encode_utf8(s1);
    let e2 = vstd::utf8::encode_utf8(s2);
    lemma_prefix_bytes_agree(b, spec_encode_string(s1), spec_encode_string(s2));
    assert(spec_encode_string(s1)[0] == spec_encode_string(s2)[0]);
    assert(spec_encode_string(s1)[1] == spec_encode_string(s2)[1]);
    lemma_be_u16_round_trip(e1.len() as u16);
    lemma_be_u16_round_trip(e2.len() as u16);
    assert(e1.len() == e2.len());
    assert forall|i: int| 0 <= i < e1.len() implies e1[i] == e2[i] by {
        assert(spec_encode_string(s1)[i + 2] == e1[i]);
        assert(spec_encode_string(s2)[i + 2] == e2[i]);
        assert(spec_encode_string(s1)[i + 2] == spec_encode_string(s2)[i + 2]);
    }
    assert(e1 =~= e2);
    vstd::utf8::encode_utf8_decode_utf8(s1);
    vstd::utf8::encode_utf8_decode_utf8(s2);
    assert(spec_encode_string(s1) =~= spec_encode_string(s2));
}

/// Two payloads within the length cap that begin the same byte sequence
/// are the same payload.
pub proof fn lemma_binary_prefix_deterministic(b: Seq<u8>, d1: Seq<u8>, d2: Seq<u8>)
    requires
        d1.len() <= 65535,
        d2.len() <= 65535,
        crate::utils::spec_prefix(b, spec_encode_binary(d1)),
        crate::utils::spec_prefix(b, spec_encode_binary(d2)),
    ensures
        d1 == d2,
        spec_encode_binary(d1) == spec_encode_binary(d2),
{
    lemma_prefix_bytes_agree(b, spec_encode_binary(d1), spec_encode_binary(d2));
    assert(spec_encode_binary(d1)[0] == spec_encode_binary(d2)[0]);
    assert(spec_encode_binary(d1)[1] == spec_encode_binary(d2)[1]);
    lemma_be_u16_round_trip(d1.len() as u16);
    lemma_be_u16_round_trip(d2.len() as u16);
    assert(d1.len() == d2.len());
    assert forall|i: int| 0 <= i < d1.len() implies d1[i] == d2[i] by {
        assert(spec_encode_binary(d1)[i + 2] == d1[i]);
        assert(spec_encode_binary(d2)[i + 2] == d2[i]);
        assert(spec_encode_binary(d1)[i + 2] == spec_encode_binary(d2)[i + 2]);
    }
    assert(d1 =~= d2);
    assert(spec_encode_binary(d1) =~= spec_encode_binary(d2));
}

/// A buffer that begins with a string's encoding is decodable as a string.
pub proof fn lemma_string_prefix_decodable(b: Seq<u8>, s: Seq<char>)
    requires
        valid_mqtt_string_bytes(vstd::utf8::encode_utf8(s)),
        crate::utils::spec_prefix(b, spec_encode_string(s)),
    ensures
        StringData::spec_decodable(b),
{
    reveal(StringData::spec_decodable);
    let e = vstd::utf8::encode_utf8(s);
    let enc = spec_encode_string(s);
    assert(b.take(enc.len() as int)[0] == b[0] && b.take(enc.len() as int)[1] == b[1]);
    lemma_be_u16_round_trip(e.len() as u16);
    assert(crate::utils::be_u16(b[0], b[1]) == e.len());
    assert forall|i: int| 0 <= i < e.len() implies b.skip(2).take(e.len() as int)[i] == e[i] by {
        assert(b.take(enc.len() as int)[i + 2] == b[i + 2]);
        assert(enc[i + 2] == e[i]);
    }
    assert(b.skip(2).take(e.len() as int) =~= e);
}

/// A buffer that begins with a payload's encoding is decodable as one.
pub proof fn lemma_binary_prefix_decodable(b: Seq<u8>, d: Seq<u8>)
    requires
        d.len() <= 65535,
        crate::utils::spec_prefix(b, spec_encode_binary(d)),
    ensures
        BinaryData::spec_decodable(b),
{
    reveal(BinaryData::spec_decodable);
    let enc = spec_encode_binary(d);
    assert(b.take(enc.len() as int)[0] == b[0] && b.take(enc.len() as int)[1] == b[1]);
    lemma_be_u16_round_trip(d.len() as u16);
    assert(crate::utils::be_u16(b[0], b[1]) == d.len());
}

/// Two prefixes of one byte sequence agree wherever both are defined.
pub proof fn lemma_prefix_bytes_agree(b: Seq<u8>, p1: Seq<u8>, p2: Seq<u8>)
    requires
        crate::utils::spec_prefix(b, p1),
        crate::utils::spec_prefix(b, p2),
    ensures
        forall|i: int| 0 <= i < p1.len() && i < p2.len() ==> p1[i] == p2[i],
{
    assert forall|i: int| 0 <= i < p1.len() && i < p2.len() implies p1[i] == p2[i] by {
        assert(b.take(p1.len() as int)[i] == b[i]);
        assert(b.take(p2.len() as int)[i] == b[i]);
    }
}

} // verus!

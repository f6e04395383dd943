//! Shared helpers for the codec: UTF-8 checked strings and the byte-level
//! constraints MQTT puts on them.

use vstd::prelude::*;
use vstd::string::StringSliceAdditionalSpecFns;
use vstd::utf8::{decode_utf8, valid_utf8};

verus! {

/// Why a byte sequence was rejected as an MQTT string.
#[derive(Debug, Clone, Copy, PartialEq, Eq, Structural)]
pub enum StringError {
    InvalidLength,
    InvalidChar,
    InvalidUtf8,
}

/// The value of a two-byte big-endian integer.
pub open spec fn be_u16(hi: u8, lo: u8) -> u16 {
    (hi as int * 256 + lo as int) as u16
}

/// The value of a four-byte big-endian integer.
pub open spec fn be_u32(b0: u8, b1: u8, b2: u8, b3: u8) -> u32 {
    (b0 as int * 16777216 + b1 as int * 65536 + b2 as int * 256 + b3 as int) as u32
}

/// The two-byte big-endian encoding of a u16.
pub open spec fn be_u16_bytes(v: u16) -> Seq<u8> {
    seq![(v as int / 256) as u8, (v as int % 256) as u8]
}

/// Whether `b` begins with the bytes `p`.
pub open spec fn spec_prefix(b: Seq<u8>, p: Seq<u8>) -> bool {
    b.len() >= p.len() && b.take(p.len() as int) == p
}

/// A prefix made of two parts gives a prefix and a prefix of the rest.
pub proof fn lemma_prefix_of_concat(b: Seq<u8>, x: Seq<u8>, y: Seq<u8>)
    requires
        spec_prefix(b, x + y),
    ensures
        spec_prefix(b, x),
        spec_prefix(b.skip(x.len() as int), y),
{
    assert forall|i: int| 0 <= i < x.len() implies b.take(x.len() as int)[i] == x[i] by {
        assert(b.take((x + y).len() as int)[i] == b[i]);
        assert((x + y)[i] == x[i]);
    }
    assert(b.take(x.len() as int) =~= x);
    assert forall|i: int| 0 <= i < y.len() implies b.skip(x.len() as int).take(y.len() as int)[i]
        == y[i] by {
        assert(b.take((x + y).len() as int)[x.len() + i] == b[x.len() + i]);
        assert((x + y)[x.len() + i] == y[i]);
    }
    assert(b.skip(x.len() as int).take(y.len() as int) =~= y);
}

/// An MQTT string payload: valid UTF-8, at most 65535 bytes, and free of the
/// NUL character (whose UTF-8 encoding is the single byte 0).
pub open spec fn valid_mqtt_string_bytes(b: Seq<u8>) -> bool {
    &&& valid_utf8(b)
    &&& b.len() <= 65535
    &&& !b.contains(0u8)
}

/// Relies on core::str::from_utf8: it succeeds exactly on valid UTF-8 input
/// and yields the string whose bytes are that input.
#[verifier::external_body]
fn bytes_to_str(bytes: &[u8]) -> (r: Option<&str>)
    ensures
        r is Some <==> valid_utf8(bytes@),
        r matches Some(s) ==> s@ == decode_utf8(bytes@) && s.spec_bytes() == bytes@,
{
    core::str::from_utf8(bytes).ok()
}

/// Decode `bytes` as an MQTT string: UTF-8, no NUL, at most 65535 bytes.
pub fn to_utf8_string(bytes: &[u8]) -> (r: Result<String, StringError>)
    ensures
        r is Ok <==> valid_mqtt_string_bytes(bytes@),
        r matches Ok(s) ==> s@ == decode_utf8(bytes@) && vstd::utf8::encode_utf8(s@) == bytes@,
{
    if bytes.len() > 65535 {
        return Err(StringError::InvalidLength);
    }
    let mut i: usize = 0;
    while i < bytes.len()
        invariant
            0 <= i <= bytes@.len(),
            forall|j: int| 0 <= j < i ==> bytes@[j] != 0u8,
        decreases bytes@.len() - i,
    {
        if bytes[i] == 0u8 {
            return Err(StringError::InvalidChar);
        }
        i += 1;
    }
    match bytes_to_str(bytes) {
        Some(s) => Ok(s.to_owned()),
        None => Err(StringError::InvalidUtf8),
    }
}

/// Whether a character may appear in a client identifier.
pub open spec fn spec_client_id_char(c: char) -> bool {
    ('0' <= c && c <= '9') || ('a' <= c && c <= 'z') || ('A' <= c && c <= 'Z')
}

/// A client identifier a client may pick itself: one to twenty-three
/// characters, letters and digits only.
pub open spec fn spec_valid_client_id(s: Seq<char>) -> bool {
    &&& 1 <= s.len() <= 23
    &&& forall|i: int| 0 <= i < s.len() ==> spec_client_id_char(#[trigger] s[i])
}

/// Check a client identifier against the length and character rules.
pub fn validate_client_id(id: &str) -> (r: Result<(), StringError>)
    ensures
        r is Ok <==> spec_valid_client_id(id@),
        r is Err ==> (r == Err::<(), StringError>(if 1 <= id@.len() <= 23 {
            StringError::InvalidChar
        } else {
            StringError::InvalidLength
        })),
{
    let n = id.unicode_len();
    if n < 1 || n > 23 {
        return Err(StringError::InvalidLength);
    }
    let mut i: usize = 0;
    while i < n
        invariant
            0 <= i <= n,
            n == id@.len(),
            1 <= n <= 23,
            forall|j: int| 0 <= j < i ==> spec_client_id_char(#[trigger] id@[j]),
        decreases n - i,
    {
        let c = id.get_char(i);
        if !(('0' <= c && c <= '9') || ('a' <= c && c <= 'z') || ('A' <= c && c <= 'Z')) {
            return Err(StringError::InvalidChar);
        }
        i += 1;
    }
    Ok(())
}

} // verus!

//! A UTF-8 string pair: a name and a value, each length-prefixed.

use vstd::prelude::*;
use crate::base::{DecodeError, EncodeError};
use crate::byte_array::ByteArray;
use crate::data::{spec_encode_string, StringData};

verus! {

/// The bytes of a string pair: the name, then the value.
pub open spec fn spec_encode_string_pair(key: Seq<char>, value: Seq<char>) -> Seq<u8> {
    spec_encode_string(key) + spec_encode_string(value)
}

/// A UTF-8 string pair holding a name and a value.
#[derive(Debug, Clone, PartialEq, Eq)]
pub struct StringPairData(StringData, StringData);

impl View for StringPairData {
    type V = (Seq<char>, Seq<char>);

    closed spec fn view(&self) -> (Seq<char>, Seq<char>) {
        (self.0@, self.1@)
    }
}

impl StringPairData {
    /// Both strings meet the MQTT string constraints.
    pub open spec fn wf(&self) -> bool {
        &&& crate::utils::valid_mqtt_string_bytes(vstd::utf8::encode_utf8(self@.0))
        &&& crate::utils::valid_mqtt_string_bytes(vstd::utf8::encode_utf8(self@.1))
    }

    /// Wrap a name and a value, rejecting strings MQTT cannot carry.
    pub fn new(key: &str, value: &str) -> (r: Result<Self, EncodeError>)
        ensures
            r matches Ok(d) ==> d@.0 == key@ && d@.1 == value@ && d.wf(),
    {
        let key = StringData::from_str(key)?;
        let value = StringData::from_str(value)?;
        Ok(StringPairData(key, value))
    }

    /// The name of the pair.
    pub fn key(&self) -> (r: &StringData)
        ensures
            r@ == self@.0,
    {
        &self.0
    }

    /// The value of the pair.
    pub fn value(&self) -> (r: &StringData)
        ensures
            r@ == self@.1,
    {
        &self.1
    }

    /// The number of bytes the pair occupies on the wire.
    pub fn bytes(&self) -> (r: usize)
        requires
            self.wf(),
        ensures
            r == spec_encode_string_pair(self@.0, self@.1).len(),
    {
        self.0.bytes() + self.1.bytes()
    }

    /// Append both strings to `buf`.
    pub fn encode(&self, buf: &mut Vec<u8>) -> (r: Result<usize, EncodeError>)
        requires
            self.wf(),
        ensures
            r matches Ok(n) && final(buf)@ == old(buf)@ + spec_encode_string_pair(
                self@.0,
                self@.1,
            ) && n == spec_encode_string_pair(self@.0, self@.1).len(),
    {
        let key_len = self.0.encode(buf)?;
        let value_len = self.1.encode(buf)?;
        assert(buf@ =~= old(buf)@ + spec_encode_string_pair(self@.0, self@.1));
        Ok(key_len + value_len)
    }

    /// Read a name and a value from the cursor.
    pub fn decode(ba: &mut ByteArray) -> (r: Result<Self, DecodeError>)
        requires
            old(ba).wf(),
        ensures
            final(ba).wf(),
            final(ba).spec_data() == old(ba).spec_data(),
            r matches Ok(d) ==> {
                &&& d.wf()
                &&& old(ba).spec_remaining() == spec_encode_string_pair(d@.0, d@.1) + final(ba).spec_remaining()
            },
    {
        let key = StringData::decode(ba)?;
        let value = StringData::decode(ba)?;
        let d = StringPairData(key, value);
        assert(old(ba).spec_remaining() =~= spec_encode_string_pair(d@.0, d@.1)
            + ba.spec_remaining());
        Ok(d)
    }
}

} // verus!

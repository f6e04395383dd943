//! A two-byte big-endian integer as it appears on the wire.

use vstd::prelude::*;
use crate::base::DecodeError;
use crate::byte_array::ByteArray;
use crate::data::{append_u16, lemma_be_u16_round_trip};
use crate::utils::be_u16_bytes;

verus! {

/// U16Data represents a two-byte big-endian integer.
#[derive(Debug, Clone, Copy, PartialEq, Eq, Structural)]
pub struct U16Data(u16);

impl View for U16Data {
    type V = u16;

    closed spec fn view(&self) -> u16 {
        self.0
    }
}

impl U16Data {
    /// Wrap a value.
    pub fn new(value: u16) -> (r: Self)
        ensures
            r@ == value,
    {
        U16Data(value)
    }

    /// The carried value.
    pub fn value(&self) -> (r: u16)
        ensures
            r == self@,
    {
        self.0
    }

    /// The number of bytes the value occupies on the wire.
    pub fn bytes(&self) -> (r: usize)
        ensures
            r == 2,
    {
        2
    }

    /// The number of bytes any such value occupies on the wire.
    pub fn const_bytes() -> (r: usize)
        ensures
            r == 2,
    {
        2
    }

    /// Append the two big-endian bytes to `buf`.
    pub fn encode(&self, buf: &mut Vec<u8>) -> (n: usize)
        ensures
            final(buf)@ == old(buf)@ + be_u16_bytes(self@),
            n == 2,
    {
        append_u16(buf, self.0);
        2
    }

    /// Read two big-endian bytes from the cursor.
    pub fn decode(ba: &mut ByteArray) -> (r: Result<Self, DecodeError>)
        requires
            old(ba).wf(),
        ensures
            final(ba).wf(),
            final(ba).spec_data() == old(ba).spec_data(),
            r matches Ok(d) ==> {
                &&& old(ba).spec_remaining() == be_u16_bytes(d@) + final(ba).spec_remaining()
                &&& final(ba).spec_offset() == old(ba).spec_offset() + 2
            },
            r is Err <==> old(ba).spec_remaining().len() < 2,
    {
        match ba.read_u16() {
            Ok(v) => {
                proof {
                    lemma_be_u16_round_trip(v);
                    assert(be_u16_bytes(v) =~= old(ba).spec_remaining().take(2));
                    assert(old(ba).spec_remaining() =~= be_u16_bytes(v) + ba.spec_remaining());
                }
                Ok(U16Data(v))
            },
            Err(e) => Err(DecodeError::from_byte_array(e)),
        }
    }
}

impl Default for U16Data {
    fn default() -> (r: Self)
        ensures
            r@ == 0,
    {
        U16Data(0)
    }
}

} // verus!

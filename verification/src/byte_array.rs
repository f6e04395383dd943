//! A read cursor over a byte slice, the decoding side of the codec.

use vstd::prelude::*;
use vstd::slice::slice_subrange;
use crate::utils::{to_utf8_string, valid_mqtt_string_bytes};

verus! {

/// Error raised when a read runs past the end of the buffer or the bytes do
/// not form the value asked for.
#[derive(Debug, Clone, Copy, PartialEq, Eq, Structural)]
pub enum ByteArrayError {
    OutOfRangeError,
    InvalidString(crate::utils::StringError),
}

/// A cursor that consumes a borrowed byte slice from front to back.
pub struct ByteArray<'a> {
    offset: usize,
    data: &'a [u8],
}

impl<'a> ByteArray<'a> {
    /// The whole underlying byte sequence.
    pub closed spec fn spec_data(&self) -> Seq<u8> {
        self.data@
    }

    /// How many bytes have been consumed so far.
    pub closed spec fn spec_offset(&self) -> int {
        self.offset as int
    }

    /// The cursor never points past the end of the data.
    pub open spec fn wf(&self) -> bool {
        0 <= self.spec_offset() <= self.spec_data().len()
    }

    /// The bytes not yet consumed.
    pub open spec fn spec_remaining(&self) -> Seq<u8> {
        self.spec_data().skip(self.spec_offset())
    }

    /// Create a new cursor at the start of `data`.
    pub fn new(data: &'a [u8]) -> (r: Self)
        ensures
            r.wf(),
            r.spec_data() == data@,
            r.spec_offset() == 0,
    {
        ByteArray { offset: 0, data }
    }

    /// Get length of the underlying byte slice.
    pub fn len(&self) -> (r: usize)
        ensures
            r == self.spec_data().len(),
    {
        self.data.len()
    }

    /// Get the number of bytes still available to read.
    pub fn remaining_bytes(&self) -> (r: usize)
        requires
            self.wf(),
        ensures
            r == self.spec_remaining().len(),
    {
        self.data.len() - self.offset
    }

    /// Read one byte.
    pub fn read_byte(&mut self) -> (r: Result<u8, ByteArrayError>)
        requires
            old(self).wf(),
        ensures
            final(self).wf(),
            final(self).spec_data() == old(self).spec_data(),
            old(self).spec_remaining().len() >= 1 ==> {
                &&& r == Ok::<u8, ByteArrayError>(old(self).spec_remaining()[0])
                &&& final(self).spec_offset() == old(self).spec_offset() + 1
            },
            old(self).spec_remaining().len() < 1 ==> {
                &&& r == Err::<u8, ByteArrayError>(ByteArrayError::OutOfRangeError)
                &&& final(self).spec_offset() == old(self).spec_offset()
            },
    {
        if self.offset < self.data.len() {
            let b = self.data[self.offset];
            self.offset += 1;
            Ok(b)
        } else {
            Err(ByteArrayError::OutOfRangeError)
        }
    }

    /// Read a big-endian u16.
    pub fn read_u16(&mut self) -> (r: Result<u16, ByteArrayError>)
        requires
            old(self).wf(),
        ensures
            final(self).wf(),
            final(self).spec_data() == old(self).spec_data(),
            old(self).spec_remaining().len() >= 2 ==> {
                &&& r == Ok::<u16, ByteArrayError>(crate::utils::be_u16(
                    old(self).spec_remaining()[0],
                    old(self).spec_remaining()[1],
                ))
                &&& final(self).spec_offset() == old(self).spec_offset() + 2
            },
            old(self).spec_remaining().len() < 2 ==> {
                &&& r == Err::<u16, ByteArrayError>(ByteArrayError::OutOfRangeError)
                &&& final(self).spec_offset() == old(self).spec_offset()
            },
    {
        if self.data.len() - self.offset >= 2 {
            let hi = self.data[self.offset];
            let lo = self.data[self.offset + 1];
            self.offset += 2;
            Ok((hi as u16) * 256 + (lo as u16))
        } else {
            Err(ByteArrayError::OutOfRangeError)
        }
    }

    /// Read a big-endian u32.
    pub fn read_u32(&mut self) -> (r: Result<u32, ByteArrayError>)
        requires
            old(self).wf(),
        ensures
            final(self).wf(),
            final(self).spec_data() == old(self).spec_data(),
            old(self).spec_remaining().len() >= 4 ==> {
                &&& r == Ok::<u32, ByteArrayError>(crate::utils::be_u32(
                    old(self).spec_remaining()[0],
                    old(self).spec_remaining()[1],
                    old(self).spec_remaining()[2],
                    old(self).spec_remaining()[3],
                ))
                &&& final(self).spec_offset() == old(self).spec_offset() + 4
            },
            old(self).spec_remaining().len() < 4 ==> {
                &&& r == Err::<u32, ByteArrayError>(ByteArrayError::OutOfRangeError)
                &&& final(self).spec_offset() == old(self).spec_offset()
            },
    {
        if self.data.len() - self.offset >= 4 {
            let b0 = self.data[self.offset];
            let b1 = self.data[self.offset + 1];
            let b2 = self.data[self.offset + 2];
            let b3 = self.data[self.offset + 3];
            self.offset += 4;
            Ok(((b0 as u32) * 16777216) + ((b1 as u32) * 65536) + ((b2 as u32) * 256) + (b3
                as u32))
        } else {
            Err(ByteArrayError::OutOfRangeError)
        }
    }

    /// Read an MQTT UTF-8 string of `len` bytes.
    pub fn read_string(&mut self, len: usize) -> (r: Result<String, ByteArrayError>)
        requires
            old(self).wf(),
        ensures
            final(self).wf(),
            final(self).spec_data() == old(self).spec_data(),
            old(self).spec_remaining().len() >= len && valid_mqtt_string_bytes(
                old(self).spec_remaining().take(len as int),
            ) ==> {
                &&& r matches Ok(s) && vstd::utf8::encode_utf8(s@) == old(
                    self,
                ).spec_remaining().take(len as int)
                &&& final(self).spec_offset() == old(self).spec_offset() + len
            },
            !(old(self).spec_remaining().len() >= len && valid_mqtt_string_bytes(
                old(self).spec_remaining().take(len as int),
            )) ==> r is Err,
            old(self).spec_remaining().len() < len ==> final(self).spec_offset() == old(
                self,
            ).spec_offset(),
    {
        let bytes = match self.read_bytes(len) {
            Ok(b) => b,
            Err(e) => {
                return Err(e);
            },
        };
        match to_utf8_string(bytes) {
            Ok(s) => Ok(s),
            Err(e) => Err(ByteArrayError::InvalidString(e)),
        }
    }

    /// Read a raw byte slice of `len` bytes.
    pub fn read_bytes(&mut self, len: usize) -> (r: Result<&'a [u8], ByteArrayError>)
        requires
            old(self).wf(),
        ensures
            final(self).wf(),
            final(self).spec_data() == old(self).spec_data(),
            old(self).spec_remaining().len() >= len ==> {
                &&& r matches Ok(b) && b@ == old(self).spec_remaining().take(len as int)
                &&& final(self).spec_offset() == old(self).spec_offset() + len
            },
            old(self).spec_remaining().len() < len ==> {
                &&& r == Err::<&'a [u8], ByteArrayError>(ByteArrayError::OutOfRangeError)
                &&& final(self).spec_offset() == old(self).spec_offset()
            },
    {
        if len <= self.data.len() && self.offset <= self.data.len() - len {
            let start = self.offset;
            self.offset += len;
            let out = slice_subrange(self.data, start, start + len);
            assert(out@ =~= self.spec_data().skip(start as int).take(len as int));
            Ok(out)
        } else {
            Err(ByteArrayError::OutOfRangeError)
        }
    }

    /// Reset the read position to the start of the data.
    pub fn reset_offset(&mut self)
        ensures
            final(self).wf(),
            final(self).spec_data() == old(self).spec_data(),
            final(self).spec_offset() == 0,
    {
        self.offset = 0;
    }
}

} // verus!

//! Framing a byte stream: decide when an accumulating buffer holds one
//! complete MQTT packet, and how long it is.

use vstd::prelude::*;
use crate::base::{spec_parse_varint, read_varint, VARINT_MAX};
use crate::byte_array::ByteArray;

verus! {

/// What the front of a connection buffer holds.
#[derive(Debug, Clone, Copy, PartialEq, Eq, Structural)]
pub enum FrameStatus {
    /// A complete packet of this many bytes, fixed header included.
    Complete(usize),
    /// No full packet yet; read more bytes.
    NeedMore,
    /// The framing is broken or the packet exceeds the size cap; the
    /// connection must be failed.
    Invalid,
}

/// The whole-packet length the buffer front announces: the header byte,
/// the remaining-length encoding, then that many body bytes.
pub open spec fn spec_frame_len(buf: Seq<u8>) -> Option<int> {
    if buf.len() == 0 {
        None
    } else {
        match spec_parse_varint(buf.skip(1), 4) {
            Some((v, n)) => Some(1 + n + v),
            None => None,
        }
    }
}

/// Inspect the front of a connection buffer: a complete packet's length,
/// a request for more bytes, or broken framing.  A packet longer than
/// `maximum_packet_size` is invalid, as is a remaining length that is no
/// valid variable-byte integer within the first five buffered bytes.
pub fn detect_frame(buf: &[u8], maximum_packet_size: usize) -> (r: FrameStatus)
    ensures
        (match r {
            FrameStatus::Complete(n) => {
                &&& spec_frame_len(buf@) == Some(n as int)
                &&& n <= buf@.len()
                &&& n <= maximum_packet_size
            },
            FrameStatus::NeedMore => (match spec_frame_len(buf@) {
                Some(n) => n > buf@.len() && n <= maximum_packet_size,
                None => buf@.len() < 5,
            }),
            FrameStatus::Invalid => (match spec_frame_len(buf@) {
                Some(n) => n > maximum_packet_size,
                None => buf@.len() >= 5,
            }),
        }),
{
    if buf.len() == 0 {
        return FrameStatus::NeedMore;
    }
    let mut ba = ByteArray::new(buf);
    let _ = match ba.read_byte() {
        Ok(b) => b,
        Err(_) => {
            return FrameStatus::NeedMore;
        },
    };
    let ghost tail = ba.spec_remaining();
    proof {
        assert(tail =~= buf@.skip(1));
        crate::base::lemma_parse_varint_inverse(tail, 4);
        crate::base::lemma_varint_bound_4();
    }
    let remaining = match read_varint(&mut ba) {
        Ok(v) => v,
        Err(_) => {
            // Five buffered bytes always hold a full variable-byte integer
            // when the framing is sound.
            if buf.len() >= 5 {
                return FrameStatus::Invalid;
            }
            return FrameStatus::NeedMore;
        },
    };
    let header_len = buf.len() - ba.remaining_bytes();
    let total = header_len + remaining as usize;
    if total > maximum_packet_size {
        return FrameStatus::Invalid;
    }
    if total <= buf.len() {
        FrameStatus::Complete(total)
    } else {
        FrameStatus::NeedMore
    }
}

} // verus!

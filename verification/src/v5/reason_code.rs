//! The reason codes an acknowledgement may carry.

use vstd::prelude::*;
use crate::base::DecodeError;
use crate::byte_array::ByteArray;

verus! {

/// The reason codes the PUBACK packet may carry.
#[derive(Debug, Clone, Copy, PartialEq, Eq, Structural)]
pub enum ReasonCode {
    Success,
    NoMatchingSubscribers,
    UnspecifiedError,
    ImplementationSpecificError,
    NotAuthorized,
    TopicNameInvalid,
    PacketIdentifierInUse,
    QuotaExceeded,
    PayloadFormatInvalid,
}

/// The wire byte of each reason code.
pub open spec fn spec_reason_code_value(c: ReasonCode) -> u8 {
    match c {
        ReasonCode::Success => 0,
        ReasonCode::NoMatchingSubscribers => 16,
        ReasonCode::UnspecifiedError => 128,
        ReasonCode::ImplementationSpecificError => 131,
        ReasonCode::NotAuthorized => 135,
        ReasonCode::TopicNameInvalid => 144,
        ReasonCode::PacketIdentifierInUse => 145,
        ReasonCode::QuotaExceeded => 151,
        ReasonCode::PayloadFormatInvalid => 153,
    }
}

impl ReasonCode {
    /// The wire byte.
    pub fn value(self) -> (r: u8)
        ensures
            r == spec_reason_code_value(self),
    {
        match self {
            ReasonCode::Success => 0,
            ReasonCode::NoMatchingSubscribers => 16,
            ReasonCode::UnspecifiedError => 128,
            ReasonCode::ImplementationSpecificError => 131,
            ReasonCode::NotAuthorized => 135,
            ReasonCode::TopicNameInvalid => 144,
            ReasonCode::PacketIdentifierInUse => 145,
            ReasonCode::QuotaExceeded => 151,
            ReasonCode::PayloadFormatInvalid => 153,
        }
    }

    /// The reason code named by a wire byte, or an error for one the
    /// PUBACK packet may not carry.
    pub fn try_from(v: u8) -> (r: Result<ReasonCode, DecodeError>)
        ensures
            r matches Ok(c) ==> spec_reason_code_value(c) == v,
            r is Err <==> !(v == 0 || v == 16 || v == 128 || v == 131 || v == 135 || v == 144 || v
                == 145 || v == 151 || v == 153),
    {
        if v == 0 {
            Ok(ReasonCode::Success)
        } else if v == 16 {
            Ok(ReasonCode::NoMatchingSubscribers)
        } else if v == 128 {
            Ok(ReasonCode::UnspecifiedError)
        } else if v == 131 {
            Ok(ReasonCode::ImplementationSpecificError)
        } else if v == 135 {
            Ok(ReasonCode::NotAuthorized)
        } else if v == 144 {
            Ok(ReasonCode::TopicNameInvalid)
        } else if v == 145 {
            Ok(ReasonCode::PacketIdentifierInUse)
        } else if v == 151 {
            Ok(ReasonCode::QuotaExceeded)
        } else if v == 153 {
            Ok(ReasonCode::PayloadFormatInvalid)
        } else {
            Err(DecodeError::OutOfRange)
        }
    }

    /// Read one reason code from the cursor.
    pub fn decode(ba: &mut ByteArray) -> (r: Result<ReasonCode, DecodeError>)
        requires
            old(ba).wf(),
        ensures
            final(ba).wf(),
            final(ba).spec_data() == old(ba).spec_data(),
            r matches Ok(c) ==> old(ba).spec_remaining() == seq![spec_reason_code_value(c)]
                + final(ba).spec_remaining(),
            forall|c: ReasonCode|
                old(ba).spec_remaining().len() >= 1 && old(ba).spec_remaining()[0]
                    == #[trigger] spec_reason_code_value(c) ==> r is Ok,
    {
        let b = match ba.read_byte() {
            Ok(b) => b,
            Err(e) => {
                return Err(DecodeError::from_byte_array(e));
            },
        };
        let c = ReasonCode::try_from(b)?;
        proof {
            assert(old(ba).spec_remaining() =~= seq![spec_reason_code_value(c)]
                + ba.spec_remaining());
        }
        Ok(c)
    }
}

impl Default for ReasonCode {
    fn default() -> (r: Self)
        ensures
            r == ReasonCode::Success,
    {
        ReasonCode::Success
    }
}

} // verus!

//! The CONNACK packet: the session-present flag and the return code that
//! settles the handshake.

use vstd::prelude::*;
use crate::base::{DecodeError, EncodeError, FixedHeader, PacketType, spec_encode_fixed_header};
use crate::byte_array::ByteArray;

verus! {

/// The outcome of a CONNECT, as the broker reports it.
#[derive(Debug, Clone, Copy, PartialEq, Eq, Structural)]
pub enum ConnectReturnCode {
    /// Connection accepted.
    Accepted,
    /// The broker does not speak the requested protocol level.
    UnacceptableProtocolVersion,
    /// The client identifier is not allowed.
    IdentifierRejected,
    /// The service is unavailable.
    ServerUnavailable,
    /// The username or password is malformed.
    BadUserNameOrPassword,
    /// The client is not authorized to connect.
    NotAuthorized,
}

/// The wire byte of each return code.
pub open spec fn spec_return_code_value(c: ConnectReturnCode) -> u8 {
    match c {
        ConnectReturnCode::Accepted => 0,
        ConnectReturnCode::UnacceptableProtocolVersion => 1,
        ConnectReturnCode::IdentifierRejected => 2,
        ConnectReturnCode::ServerUnavailable => 3,
        ConnectReturnCode::BadUserNameOrPassword => 4,
        ConnectReturnCode::NotAuthorized => 5,
    }
}

impl ConnectReturnCode {
    /// The wire byte.
    pub fn value(self) -> (r: u8)
        ensures
            r == spec_return_code_value(self),
    {
        match self {
            ConnectReturnCode::Accepted => 0,
            ConnectReturnCode::UnacceptableProtocolVersion => 1,
            ConnectReturnCode::IdentifierRejected => 2,
            ConnectReturnCode::ServerUnavailable => 3,
            ConnectReturnCode::BadUserNameOrPassword => 4,
            ConnectReturnCode::NotAuthorized => 5,
        }
    }

    /// The return code named by a wire byte.
    pub fn try_from(v: u8) -> (r: Result<ConnectReturnCode, DecodeError>)
        ensures
            r matches Ok(c) ==> spec_return_code_value(c) == v,
            r is Err <==> v > 5,
    {
        if v == 0 {
            Ok(ConnectReturnCode::Accepted)
        } else if v == 1 {
            Ok(ConnectReturnCode::UnacceptableProtocolVersion)
        } else if v == 2 {
            Ok(ConnectReturnCode::IdentifierRejected)
        } else if v == 3 {
            Ok(ConnectReturnCode::ServerUnavailable)
        } else if v == 4 {
            Ok(ConnectReturnCode::BadUserNameOrPassword)
        } else if v == 5 {
            Ok(ConnectReturnCode::NotAuthorized)
        } else {
            Err(DecodeError::OutOfRange)
        }
    }
}

/// The bytes of a CONNACK packet: the acknowledge-flags byte carrying the
/// session-present bit, then the return code.
pub open spec fn spec_encode_connect_ack(session_present: bool, code: ConnectReturnCode) -> Seq<
    u8,
> {
    spec_encode_fixed_header(
        FixedHeader {
            packet_type: PacketType::ConnectAck,
            packet_flags: crate::base::PacketFlags::Reserved,
            remaining_length: 2,
        },
    ) + seq![
        if session_present {
            1u8
        } else {
            0u8
        },
        spec_return_code_value(code),
    ]
}

/// The broker's reply to a CONNECT.
#[derive(Debug, Default, Clone, Copy, PartialEq, Eq, Structural)]
pub struct ConnectAckPacket {
    session_present: bool,
    return_code: ConnectReturnCode,
}

impl Default for ConnectReturnCode {
    fn default() -> (r: Self)
        ensures
            r == ConnectReturnCode::Accepted,
    {
        ConnectReturnCode::Accepted
    }
}

impl ConnectAckPacket {
    /// Build a reply: the return code and whether prior session state was
    /// found.
    pub fn new(return_code: ConnectReturnCode, session_present: bool) -> (r: Self)
        ensures
            r.spec_return_code() == return_code,
            r.spec_session_present() == session_present,
    {
        ConnectAckPacket { session_present, return_code }
    }

    /// Whether prior session state was found for the client.
    pub closed spec fn spec_session_present(&self) -> bool {
        self.session_present
    }

    /// The handshake outcome.
    pub closed spec fn spec_return_code(&self) -> ConnectReturnCode {
        self.return_code
    }

    /// Whether prior session state was found for the client.
    pub fn session_present(&self) -> (r: bool)
        ensures
            r == self.spec_session_present(),
    {
        self.session_present
    }

    /// The handshake outcome.
    pub fn return_code(&self) -> (r: ConnectReturnCode)
        ensures
            r == self.spec_return_code(),
    {
        self.return_code
    }

    /// The packet type this packet announces.
    pub fn packet_type(&self) -> (r: PacketType)
        ensures
            r == PacketType::ConnectAck,
    {
        PacketType::ConnectAck
    }

    /// Append the packet bytes to `buf`.
    pub fn encode(&self, buf: &mut Vec<u8>) -> (r: Result<usize, EncodeError>)
        ensures
            r matches Ok(n) && final(buf)@ == old(buf)@ + spec_encode_connect_ack(
                self.spec_session_present(),
                self.spec_return_code(),
            ) && n == spec_encode_connect_ack(
                self.spec_session_present(),
                self.spec_return_code(),
            ).len(),
    {
        let fixed_header = match FixedHeader::new(PacketType::ConnectAck, 2) {
            Ok(h) => h,
            Err(e) => {
                return Err(e);
            },
        };
        let hn = match fixed_header.encode(buf) {
            Ok(n) => n,
            Err(e) => {
                return Err(e);
            },
        };
        buf.push(if self.session_present {
            1
        } else {
            0
        });
        buf.push(self.return_code.value());
        proof {
            assert(buf@ =~= old(buf)@ + spec_encode_connect_ack(
                self.spec_session_present(),
                self.spec_return_code(),
            ));
        }
        Ok(hn + 2)
    }

    /// Read a CONNACK from the cursor; the upper bits of the acknowledge
    /// flags must be zero and the return code known.
    pub fn decode(ba: &mut ByteArray) -> (r: Result<Self, DecodeError>)
        requires
            old(ba).wf(),
        ensures
            final(ba).wf(),
            final(ba).spec_data() == old(ba).spec_data(),
            r matches Ok(p) ==> old(ba).spec_remaining() == spec_encode_connect_ack(
                p.spec_session_present(),
                p.spec_return_code(),
            ) + final(ba).spec_remaining(),
            old(ba).spec_remaining().len() >= 4 && old(ba).spec_remaining()[0] == 32 && old(
                ba,
            ).spec_remaining()[1] == 2 && old(ba).spec_remaining()[2] <= 1 && old(
                ba,
            ).spec_remaining()[3] <= 5 ==> r is Ok,
    {
        let ghost rem0 = old(ba).spec_remaining();
        let ghost starts_well = rem0.len() >= 4 && rem0[0] == 32 && rem0[1] == 2 && rem0[2] <= 1
            && rem0[3] <= 5;
        proof {
            if starts_well {
                let h0 = FixedHeader {
                    packet_type: PacketType::ConnectAck,
                    packet_flags: crate::base::PacketFlags::Reserved,
                    remaining_length: 2,
                };
                assert(spec_encode_fixed_header(h0) =~= seq![32u8, 2u8]) by {
                    assert(crate::base::spec_varint_encode(2) =~= seq![2u8]);
                }
                assert(rem0.take(2) =~= seq![32u8, 2u8]);
                assert(crate::base::spec_header_prefix(rem0, h0));
            }
        }
        let fixed_header = match FixedHeader::decode(ba) {
            Ok(h) => h,
            Err(e) => {
                return Err(e);
            },
        };
        proof {
            if starts_well {
                assert(rem0.take(spec_encode_fixed_header(fixed_header).len() as int)
                    =~= spec_encode_fixed_header(fixed_header));
                crate::base::lemma_header_bytes_pin(rem0, fixed_header);
                assert(crate::base::spec_packet_type_code(fixed_header.packet_type) == 32int
                    / 16);
            }
        }
        if !matches!(fixed_header.packet_type, PacketType::ConnectAck) {
            return Err(DecodeError::InvalidPacketType);
        }
        if fixed_header.remaining_length != 2 {
            return Err(DecodeError::InvalidRemainingLength);
        }
        let ghost rem1 = ba.spec_remaining();
        proof {
            if starts_well {
                assert(rem1 =~= rem0.skip(2));
            }
        }
        let ack_flags = match ba.read_byte() {
            Ok(b) => b,
            Err(e) => {
                return Err(DecodeError::from_byte_array(e));
            },
        };
        if ack_flags > 1 {
            return Err(DecodeError::InvalidFixedHeader);
        }
        let code_byte = match ba.read_byte() {
            Ok(b) => b,
            Err(e) => {
                return Err(DecodeError::from_byte_array(e));
            },
        };
        let return_code = match ConnectReturnCode::try_from(code_byte) {
            Ok(c) => c,
            Err(e) => {
                return Err(e);
            },
        };
        let p = ConnectAckPacket { session_present: ack_flags == 1, return_code };
        proof {
            assert(rem1[0] == ack_flags && rem1[1] == code_byte);
            assert(old(ba).spec_remaining() =~= spec_encode_connect_ack(
                p.spec_session_present(),
                p.spec_return_code(),
            ) + ba.spec_remaining());
        }
        Ok(p)
    }
}

} // verus!

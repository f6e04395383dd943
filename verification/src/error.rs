//! The broker's error type: a kind and a free-form message.

use vstd::prelude::*;

verus! {

/// Represent the types of errors.
#[derive(Debug, Clone, Copy, PartialEq, Eq, Structural)]
pub enum ErrorKind {
    /// Error occurred while performing I/O.
    IoError,
    /// Packet encode error.
    EncodeError,
    /// Packet decode error.
    DecodeError,
    /// Send packet error.
    SendError,
    /// Socket stream error.
    SocketError,
    /// Cert files error.
    CertError,
    /// Invalid pid.
    PidError,
    /// Not expected packet.
    PacketError,
    /// Configure error.
    ConfigError,
    /// Invalid connect status.
    InvalidConnectStatus,
    /// Internal queue closed because a sibling task died.
    ChannelError,
    /// A caller handed in a value the function cannot take.
    ParameterError,
    /// Credentials rejected.
    AuthError,
}

/// An error with its kind and a detail message.
#[derive(Debug, Clone)]
pub struct Error {
    kind: ErrorKind,
    message: String,
}

impl Error {
    /// The kind of this error.
    pub closed spec fn spec_kind(&self) -> ErrorKind {
        self.kind
    }

    /// The detail message of this error.
    pub closed spec fn spec_message(&self) -> Seq<char> {
        self.message@
    }

    /// Build an error from a kind and a message.
    pub fn new(kind: ErrorKind, message: &str) -> (r: Self)
        ensures
            r.spec_kind() == kind,
            r.spec_message() == message@,
    {
        Error { kind, message: message.to_owned() }
    }

    /// Build an error from a kind and an owned message.
    pub fn from_string(kind: ErrorKind, message: String) -> (r: Self)
        ensures
            r.spec_kind() == kind,
            r.spec_message() == message@,
    {
        Error { kind, message }
    }

    /// The kind of this error.
    pub fn kind(&self) -> (r: ErrorKind)
        ensures
            r == self.spec_kind(),
    {
        self.kind
    }

    /// The detail message of this error.
    pub fn message(&self) -> (r: &str)
        ensures
            r@ == self.spec_message(),
    {
        self.message.as_str()
    }
}

} // verus!

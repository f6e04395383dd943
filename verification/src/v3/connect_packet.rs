//! The CONNECT packet: protocol name and level, the connect flags, the
//! keep-alive interval, then the client identifier and the optional will,
//! username and password fields.

use vstd::prelude::*;
use crate::base::{DecodeError, EncodeError, FixedHeader, PacketType, QoS, Version, VARINT_MAX,
    spec_encode_fixed_header, spec_version_value};
use crate::byte_array::ByteArray;
use crate::connect_flags::{spec_connect_flags_byte, ConnectFlags};
use crate::data::{BinaryData, StringData, spec_encode_binary, spec_encode_string};
use crate::topic::{spec_valid_pub_topic, str_eq, Topic};
use crate::u16_data::U16Data;
use crate::utils::{be_u16_bytes, spec_valid_client_id, validate_client_id};

verus! {

/// The variable header of a CONNECT packet: protocol name, level, flags
/// and keep-alive.
pub open spec fn spec_preamble_bytes(p: ConnectPacket) -> Seq<u8> {
    spec_encode_string(p.spec_protocol_name()) + seq![
        spec_version_value(p.spec_protocol_level()),
        spec_connect_flags_byte(p.spec_connect_flags()),
    ] + be_u16_bytes(p.spec_keep_alive())
}

/// The bytes after the fixed header of a CONNECT packet.
pub open spec fn spec_connect_body(p: ConnectPacket) -> Seq<u8> {
    spec_preamble_bytes(p) + spec_encode_string(p.spec_client_id()) + spec_connect_tail(p)
}

/// The bytes of a CONNECT packet.
pub open spec fn spec_encode_connect(p: ConnectPacket) -> Seq<u8> {
    spec_encode_fixed_header(
        FixedHeader {
            packet_type: PacketType::ConnectCmd,
            packet_flags: crate::base::PacketFlags::Reserved,
            remaining_length: spec_connect_body(p).len() as u32,
        },
    ) + spec_connect_body(p)
}

/// The will, username and password fields of the payload, as the flags
/// announce them.
pub open spec fn spec_connect_tail(p: ConnectPacket) -> Seq<u8> {
    (if p.spec_connect_flags().will {
        spec_encode_string(p.spec_will_topic().unwrap()) + spec_encode_binary(
            p.spec_will_message(),
        )
    } else {
        Seq::<u8>::empty()
    }) + (if p.spec_connect_flags().username {
        spec_encode_string(p.spec_username())
    } else {
        Seq::<u8>::empty()
    }) + (if p.spec_connect_flags().password {
        spec_encode_binary(p.spec_password())
    } else {
        Seq::<u8>::empty()
    })
}

/// The first packet of a connection, carrying everything the broker needs
/// to open a session.
#[derive(Debug, Clone, PartialEq, Eq)]
pub struct ConnectPacket {
    protocol_name: StringData,
    protocol_level: Version,
    connect_flags: ConnectFlags,
    keep_alive: U16Data,
    client_id: StringData,
    will_topic: Option<StringData>,
    will_message: BinaryData,
    username: StringData,
    password: BinaryData,
}

impl ConnectPacket {
    /// The protocol name, always the four characters of `MQTT` on the wire.
    pub closed spec fn spec_protocol_name(&self) -> Seq<char> {
        self.protocol_name@
    }

    /// The protocol level.
    pub closed spec fn spec_protocol_level(&self) -> Version {
        self.protocol_level
    }

    /// The connect flags.
    pub closed spec fn spec_connect_flags(&self) -> ConnectFlags {
        self.connect_flags
    }

    /// The keep-alive interval in seconds.
    pub closed spec fn spec_keep_alive(&self) -> u16 {
        self.keep_alive@
    }

    /// The client identifier.
    pub closed spec fn spec_client_id(&self) -> Seq<char> {
        self.client_id@
    }

    /// The will topic, present exactly when the will flag is set.
    pub closed spec fn spec_will_topic(&self) -> Option<Seq<char>> {
        match self.will_topic {
            Some(t) => Some(t@),
            None => None,
        }
    }

    /// The will payload.
    pub closed spec fn spec_will_message(&self) -> Seq<u8> {
        self.will_message@
    }

    /// The username.
    pub closed spec fn spec_username(&self) -> Seq<char> {
        self.username@
    }

    /// The password bytes.
    pub closed spec fn spec_password(&self) -> Seq<u8> {
        self.password@
    }

    /// All fields as one tuple, for stating what a setter leaves untouched.
    pub open spec fn spec_fields(&self) -> (
        Seq<char>,
        Version,
        ConnectFlags,
        u16,
        Seq<char>,
        Option<Seq<char>>,
        Seq<u8>,
        Seq<char>,
        Seq<u8>,
    ) {
        (
            self.spec_protocol_name(),
            self.spec_protocol_level(),
            self.spec_connect_flags(),
            self.spec_keep_alive(),
            self.spec_client_id(),
            self.spec_will_topic(),
            self.spec_will_message(),
            self.spec_username(),
            self.spec_password(),
        )
    }

    /// A packet the codec will put on the wire: the MQTT protocol name,
    /// well-formed strings, a will topic exactly when the will flag is set,
    /// no password without a username, and a non-empty client identifier
    /// unless the session is clean.
    pub open spec fn wf(&self) -> bool {
        &&& self.spec_protocol_name() == "MQTT"@
        &&& crate::utils::valid_mqtt_string_bytes(
            vstd::utf8::encode_utf8(self.spec_protocol_name()),
        )
        &&& crate::utils::valid_mqtt_string_bytes(vstd::utf8::encode_utf8(self.spec_client_id()))
        &&& crate::utils::valid_mqtt_string_bytes(vstd::utf8::encode_utf8(self.spec_username()))
        &&& self.spec_will_message().len() <= 65535
        &&& self.spec_password().len() <= 65535
        &&& (self.spec_connect_flags().will ==> (self.spec_will_topic() matches Some(t)
            && spec_valid_pub_topic(t) && crate::utils::valid_mqtt_string_bytes(
            vstd::utf8::encode_utf8(t),
        )))
        &&& (!self.spec_connect_flags().will ==> self.spec_will_topic() is None
            && self.spec_connect_flags().will_qos == QoS::AtMostOnce
            && !self.spec_connect_flags().will_retain)
        &&& (!self.spec_connect_flags().username ==> !self.spec_connect_flags().password)
        &&& (self.spec_client_id().len() == 0 ==> self.spec_connect_flags().clean_session)
    }

    /// Build a packet for `client_id`, which must be one to twenty-three
    /// letters or digits; the keep-alive starts at sixty seconds.
    pub fn new(client_id: &str) -> (r: Result<ConnectPacket, EncodeError>)
        ensures
            r is Ok <==> spec_valid_client_id(client_id@),
            r matches Ok(p) ==> {
                &&& p.wf()
                &&& p.spec_client_id() == client_id@
                &&& p.spec_keep_alive() == 60
                &&& p.spec_protocol_level() == Version::V311
                &&& p.spec_connect_flags() == ConnectFlags::spec_default()
            },
    {
        proof {
            lemma_protocol_name_bytes();
            if spec_valid_client_id(client_id@) {
                lemma_client_id_bytes(client_id@);
            }
        }
        if validate_client_id(client_id).is_err() {
            return Err(EncodeError::InvalidData);
        }
        let protocol_name = match StringData::from_str("MQTT") {
            Ok(d) => d,
            Err(_) => {
                return Err(EncodeError::InvalidData);
            },
        };
        let client_id_data = match StringData::from_str(client_id) {
            Ok(d) => d,
            Err(e) => {
                return Err(e);
            },
        };
        Ok(
            ConnectPacket {
                protocol_name,
                protocol_level: Version::V311,
                connect_flags: ConnectFlags::new(),
                keep_alive: U16Data::new(60),
                client_id: client_id_data,
                will_topic: None,
                will_message: BinaryData::new(),
                username: StringData::new(),
                password: BinaryData::new(),
            },
        )
    }

    /// Set the protocol level.
    pub fn set_protcol_level(&mut self, level: Version)
        ensures
            final(self).spec_fields() == (
                old(self).spec_protocol_name(),
                level,
                old(self).spec_connect_flags(),
                old(self).spec_keep_alive(),
                old(self).spec_client_id(),
                old(self).spec_will_topic(),
                old(self).spec_will_message(),
                old(self).spec_username(),
                old(self).spec_password(),
            ),
    {
        self.protocol_level = level;
    }

    /// The protocol level.
    pub fn protocol_level(&self) -> (r: Version)
        ensures
            r == self.spec_protocol_level(),
    {
        self.protocol_level
    }

    /// Replace the connect flags wholesale.
    pub fn set_connect_flags(&mut self, flags: ConnectFlags)
        ensures
            final(self).spec_fields() == (
                old(self).spec_protocol_name(),
                old(self).spec_protocol_level(),
                flags,
                old(self).spec_keep_alive(),
                old(self).spec_client_id(),
                old(self).spec_will_topic(),
                old(self).spec_will_message(),
                old(self).spec_username(),
                old(self).spec_password(),
            ),
    {
        self.connect_flags = flags;
    }

    /// The connect flags.
    pub fn connect_flags(&self) -> (r: &ConnectFlags)
        ensures
            *r == self.spec_connect_flags(),
    {
        &self.connect_flags
    }

    /// Set the keep-alive interval in seconds.
    pub fn set_keep_alive(&mut self, keep_alive: u16)
        ensures
            final(self).spec_fields() == (
                old(self).spec_protocol_name(),
                old(self).spec_protocol_level(),
                old(self).spec_connect_flags(),
                keep_alive,
                old(self).spec_client_id(),
                old(self).spec_will_topic(),
                old(self).spec_will_message(),
                old(self).spec_username(),
                old(self).spec_password(),
            ),
    {
        self.keep_alive = U16Data::new(keep_alive);
    }

    /// The keep-alive interval in seconds.
    pub fn keep_alive(&self) -> (r: u16)
        ensures
            r == self.spec_keep_alive(),
    {
        self.keep_alive.value()
    }

    /// Replace the client identifier, checked as in `new`.
    pub fn set_client_id(&mut self, id: &str) -> (r: Result<(), EncodeError>)
        ensures
            r is Ok <==> spec_valid_client_id(id@),
            r is Ok ==> final(self).spec_client_id() == id@,
            r is Err ==> final(self).spec_fields() == old(self).spec_fields(),
    {
        if validate_client_id(id).is_err() {
            return Err(EncodeError::InvalidData);
        }
        let d = match StringData::from_str(id) {
            Ok(d) => d,
            Err(e) => {
                proof {
                    lemma_client_id_bytes(id@);
                }
                return Err(e);
            },
        };
        self.client_id = d;
        Ok(())
    }

    /// The client identifier.
    pub fn client_id(&self) -> (r: &str)
        ensures
            r@ == self.spec_client_id(),
    {
        self.client_id.as_str()
    }

    /// Set the will quality of service inside the connect flags.
    pub fn set_qos(&mut self, qos: QoS)
        ensures
            final(self).spec_connect_flags() == (ConnectFlags {
                will_qos: qos,
                ..old(self).spec_connect_flags()
            }),
            final(self).spec_protocol_name() == old(self).spec_protocol_name(),
            final(self).spec_client_id() == old(self).spec_client_id(),
    {
        self.connect_flags.set_will_qos(qos);
    }

    /// Set the username and raise the username flag.
    pub fn set_username(&mut self, username: &str) -> (r: Result<(), EncodeError>)
        ensures
            r is Ok ==> final(self).spec_username() == username@ && final(self).spec_connect_flags() == (ConnectFlags {
                username: true,
                ..old(self).spec_connect_flags()
            }),
            r is Err ==> final(self).spec_fields() == old(self).spec_fields(),
    {
        let d = match StringData::from_str(username) {
            Ok(d) => d,
            Err(e) => {
                return Err(e);
            },
        };
        self.username = d;
        self.connect_flags.set_username(true);
        Ok(())
    }

    /// The username.
    pub fn username(&self) -> (r: &str)
        ensures
            r@ == self.spec_username(),
    {
        self.username.as_str()
    }

    /// Set the password and raise the password flag.
    pub fn set_password(&mut self, password: &[u8]) -> (r: Result<(), EncodeError>)
        ensures
            r is Ok <==> password@.len() <= 65535,
            r is Ok ==> final(self).spec_password() == password@ && final(self).spec_connect_flags() == (ConnectFlags {
                password: true,
                ..old(self).spec_connect_flags()
            }),
            r is Err ==> final(self).spec_fields() == old(self).spec_fields(),
    {
        let d = match BinaryData::from_slice(password) {
            Ok(d) => d,
            Err(e) => {
                return Err(e);
            },
        };
        self.password = d;
        self.connect_flags.set_password(true);
        Ok(())
    }

    /// The password bytes.
    pub fn password(&self) -> (r: &[u8])
        ensures
            r@ == self.spec_password(),
    {
        self.password.as_slice()
    }

    /// Set the will topic and raise the will flag; an empty topic clears
    /// both instead.
    pub fn set_will_topic(&mut self, topic: &str) -> (r: Result<(), EncodeError>)
        ensures
            r is Ok && topic@.len() > 0 ==> final(self).spec_will_topic() == Some(topic@) && final(self).spec_connect_flags() == (ConnectFlags {
                will: true,
                ..old(self).spec_connect_flags()
            }),
            topic@.len() == 0 ==> r is Ok && final(self).spec_will_topic() is None && final(self).spec_connect_flags() == (ConnectFlags {
                will: false,
                ..old(self).spec_connect_flags()
            }),
            topic@.len() > 0 && !spec_valid_pub_topic(topic@) ==> r is Err,
            r is Err ==> final(self).spec_fields() == old(self).spec_fields(),
    {
        if topic.is_empty() {
            self.will_topic = None;
            self.connect_flags.set_will(false);
            return Ok(());
        }
        proof {
            vstd::utf8::encode_utf8_valid_utf8(topic@);
        }
        if Topic::validate_pub_topic(topic).is_err() {
            return Err(EncodeError::InvalidData);
        }
        let d = match StringData::from_str(topic) {
            Ok(d) => d,
            Err(e) => {
                return Err(e);
            },
        };
        self.will_topic = Some(d);
        self.connect_flags.set_will(true);
        Ok(())
    }

    /// The will topic, if a will is set.
    pub fn will_topic(&self) -> (r: Option<&str>)
        ensures
            (match r {
                Some(t) => self.spec_will_topic() == Some(t@),
                None => self.spec_will_topic() is None,
            }),
    {
        match &self.will_topic {
            Some(t) => Some(t.as_str()),
            None => None,
        }
    }

    /// Set the will payload.
    pub fn set_will_message(&mut self, message: &[u8]) -> (r: Result<(), EncodeError>)
        ensures
            r is Ok <==> message@.len() <= 65535,
            r is Ok ==> final(self).spec_will_message() == message@ && final(self).spec_fields().2
                == old(self).spec_fields().2,
            r is Err ==> final(self).spec_fields() == old(self).spec_fields(),
    {
        let d = match BinaryData::from_slice(message) {
            Ok(d) => d,
            Err(e) => {
                return Err(e);
            },
        };
        self.will_message = d;
        Ok(())
    }

    /// The will payload.
    pub fn will_message(&self) -> (r: &[u8])
        ensures
            r@ == self.spec_will_message(),
    {
        self.will_message.as_slice()
    }

    /// The packet type this packet announces.
    pub fn packet_type(&self) -> (r: PacketType)
        ensures
            r == PacketType::ConnectCmd,
    {
        PacketType::ConnectCmd
    }

    /// The number of bytes of the variable header and payload.
    fn body_bytes(&self) -> (r: usize)
        requires
            self.wf(),
        ensures
            r == spec_connect_body(*self).len(),
    {
        let mut n: usize = self.protocol_name.bytes() + 2 + 2 + self.client_id.bytes();
        if self.connect_flags.will() {
            let wt = match &self.will_topic {
                Some(t) => t,
                None => {
                    return 0;
                },
            };
            n = n + wt.bytes() + self.will_message.bytes();
        }
        if self.connect_flags.username() {
            n = n + self.username.bytes();
        }
        if self.connect_flags.password() {
            n = n + self.password.bytes();
        }
        n
    }

    /// Append the variable header and payload to `buf`.
    #[verifier::rlimit(100)]
    fn encode_body(&self, buf: &mut Vec<u8>) -> (r: Result<(), EncodeError>)
        requires
            self.wf(),
        ensures
            r is Ok && final(buf)@ == old(buf)@ + spec_connect_body(*self),
    {
        let _ = match self.protocol_name.encode(buf) {
            Ok(n) => n,
            Err(e) => {
                return Err(e);
            },
        };
        let ghost b_pn = buf@;
        buf.push(self.protocol_level.value());
        buf.push(self.connect_flags.to_byte());
        let _ = self.keep_alive.encode(buf);
        let ghost b_ka = buf@;
        let _ = match self.client_id.encode(buf) {
            Ok(n) => n,
            Err(e) => {
                return Err(e);
            },
        };
        let ghost b_cid = buf@;
        if self.connect_flags.will() {
            let wt = match &self.will_topic {
                Some(t) => t,
                None => {
                    return Err(EncodeError::InvalidData);
                },
            };
            let _ = match wt.encode(buf) {
                Ok(n) => n,
                Err(e) => {
                    return Err(e);
                },
            };
            let _ = match self.will_message.encode(buf) {
                Ok(n) => n,
                Err(e) => {
                    return Err(e);
                },
            };
        }
        let ghost b_will = buf@;
        if self.connect_flags.username() {
            let _ = match self.username.encode(buf) {
                Ok(n) => n,
                Err(e) => {
                    return Err(e);
                },
            };
        }
        let ghost b_user = buf@;
        if self.connect_flags.password() {
            let _ = match self.password.encode(buf) {
                Ok(n) => n,
                Err(e) => {
                    return Err(e);
                },
            };
        }
        proof {
            assert(b_ka =~= b_pn + seq![
                spec_version_value(self.spec_protocol_level()),
                spec_connect_flags_byte(self.spec_connect_flags()),
            ] + be_u16_bytes(self.spec_keep_alive()));
            assert(b_will =~= b_cid + (if self.spec_connect_flags().will {
                spec_encode_string(self.spec_will_topic().unwrap()) + spec_encode_binary(
                    self.spec_will_message(),
                )
            } else {
                Seq::<u8>::empty()
            }));
            assert(b_user =~= b_will + (if self.spec_connect_flags().username {
                spec_encode_string(self.spec_username())
            } else {
                Seq::<u8>::empty()
            }));
            assert(buf@ =~= b_user + (if self.spec_connect_flags().password {
                spec_encode_binary(self.spec_password())
            } else {
                Seq::<u8>::empty()
            }));
            assert(buf@ =~= old(buf)@ + spec_connect_body(*self));
        }
        Ok(())
    }

    /// Append the packet bytes to `buf`.
    pub fn encode(&self, buf: &mut Vec<u8>) -> (r: Result<usize, EncodeError>)
        requires
            self.wf(),
        ensures
            r matches Ok(n) && final(buf)@ == old(buf)@ + spec_encode_connect(*self) && n
                == spec_encode_connect(*self).len(),
    {
        let remaining_length = self.body_bytes();
        let fixed_header = match FixedHeader::new(PacketType::ConnectCmd, remaining_length) {
            Ok(h) => h,
            Err(e) => {
                return Err(e);
            },
        };
        let hn = match fixed_header.encode(buf) {
            Ok(n) => n,
            Err(e) => {
                return Err(e);
            },
        };
        let _ = match self.encode_body(buf) {
            Ok(n) => n,
            Err(e) => {
                return Err(e);
            },
        };
        proof {
            assert(buf@ =~= old(buf)@ + spec_encode_connect(*self));
            crate::base::lemma_varint_round_trip(remaining_length as int, Seq::empty());
        }
        Ok(hn + remaining_length)
    }

    /// Read the variable header and payload of a CONNECT packet.  A buffer
    /// that begins with a well-formed packet's body is always accepted, as
    /// a packet with the same bytes.
    #[verifier::rlimit(100)]
    fn decode_body(ba: &mut ByteArray) -> (r: Result<Self, DecodeError>)
        requires
            old(ba).wf(),
        ensures
            final(ba).wf(),
            final(ba).spec_data() == old(ba).spec_data(),
            r matches Ok(p) ==> p.wf() && old(ba).spec_remaining() == spec_connect_body(p)
                + final(ba).spec_remaining(),
            forall|q: ConnectPacket|
                q.wf() && crate::utils::spec_prefix(
                    old(ba).spec_remaining(),
                    #[trigger] spec_connect_body(q),
                ) ==> (r matches Ok(p2) && spec_connect_body(p2) == spec_connect_body(q)),
    {
        let ghost rem1 = ba.spec_remaining();
        let pre = Self::decode_preamble(ba);
        proof {
            assert forall|q: ConnectPacket|
                q.wf() && crate::utils::spec_prefix(
                    rem1,
                    #[trigger] spec_connect_body(q),
                ) implies (pre matches Ok(t) && t.1 == q.spec_protocol_level() && t.2
                == q.spec_connect_flags() && t.3@ == q.spec_keep_alive()) by {
                lemma_body_preamble(rem1, q);
            }
        }
        let (protocol_name, protocol_level, connect_flags, keep_alive) = match pre {
            Ok(t) => t,
            Err(e) => {
                return Err(e);
            },
        };
        let ghost g_ka = ba.spec_remaining();
        proof {
            assert forall|q: ConnectPacket|
                q.wf() && crate::utils::spec_prefix(
                    rem1,
                    #[trigger] spec_connect_body(q),
                ) implies crate::utils::spec_prefix(
                g_ka,
                spec_encode_string(q.spec_client_id()) + spec_connect_tail(q),
            ) by {
                assert(g_ka =~= rem1.skip(
                    spec_encode_string(protocol_name@).len() as int + 4,
                ));
                lemma_body_at_cid(rem1, q, g_ka);
            }
        }
        let p = match Self::decode_rest(ba, protocol_name, protocol_level, connect_flags,
            keep_alive) {
            Ok(p) => p,
            Err(e) => {
                return Err(e);
            },
        };
        proof {
            assert(rem1 =~= spec_connect_body(p) + ba.spec_remaining());
            assert forall|q: ConnectPacket|
                q.wf() && crate::utils::spec_prefix(
                    rem1,
                    #[trigger] spec_connect_body(q),
                ) implies spec_connect_body(p) == spec_connect_body(q) by {
                lemma_body_pieces_equal(p, q);
            }
        }
        Ok(p)
    }

    /// Read the client identifier and payload tail, and assemble the
    /// packet around the preamble already read.
    #[verifier::rlimit(100)]
    fn decode_rest(
        ba: &mut ByteArray,
        protocol_name: StringData,
        protocol_level: Version,
        connect_flags: ConnectFlags,
        keep_alive: U16Data,
    ) -> (r: Result<Self, DecodeError>)
        requires
            old(ba).wf(),
            protocol_name@ == "MQTT"@,
            protocol_name.wf(),
            !connect_flags.will ==> connect_flags.will_qos == QoS::AtMostOnce
                && !connect_flags.will_retain,
            !connect_flags.username ==> !connect_flags.password,
        ensures
            final(ba).wf(),
            final(ba).spec_data() == old(ba).spec_data(),
            r matches Ok(p) ==> {
                &&& p.wf()
                &&& p.spec_protocol_name() == "MQTT"@
                &&& p.spec_protocol_level() == protocol_level
                &&& p.spec_connect_flags() == connect_flags
                &&& p.spec_keep_alive() == keep_alive@
                &&& old(ba).spec_remaining() == spec_encode_string(p.spec_client_id())
                    + spec_connect_tail(p) + final(ba).spec_remaining()
            },
            forall|q: ConnectPacket|
                q.wf() && q.spec_connect_flags() == connect_flags && crate::utils::spec_prefix(
                    old(ba).spec_remaining(),
                    #[trigger] (spec_encode_string(q.spec_client_id()) + spec_connect_tail(q)),
                ) ==> (r matches Ok(p2) && spec_encode_string(p2.spec_client_id())
                    + spec_connect_tail(p2) == spec_encode_string(q.spec_client_id())
                    + spec_connect_tail(q)),
    {
        let ghost g_ka = old(ba).spec_remaining();
        proof {
            assert forall|q: ConnectPacket|
                q.wf() && q.spec_connect_flags() == connect_flags && crate::utils::spec_prefix(
                    g_ka,
                    #[trigger] (spec_encode_string(q.spec_client_id()) + spec_connect_tail(q)),
                ) implies StringData::spec_decodable(g_ka) by {
                crate::utils::lemma_prefix_of_concat(
                    g_ka,
                    spec_encode_string(q.spec_client_id()),
                    spec_connect_tail(q),
                );
                crate::data::lemma_string_prefix_decodable(g_ka, q.spec_client_id());
            }
        }
        let client_id = match StringData::decode(ba) {
            Ok(d) => d,
            Err(_) => {
                return Err(DecodeError::InvalidClientId);
            },
        };
        proof {
            assert forall|q: ConnectPacket|
                q.wf() && q.spec_connect_flags() == connect_flags && crate::utils::spec_prefix(
                    g_ka,
                    #[trigger] (spec_encode_string(q.spec_client_id()) + spec_connect_tail(q)),
                ) implies client_id@ == q.spec_client_id() by {
                crate::utils::lemma_prefix_of_concat(
                    g_ka,
                    spec_encode_string(q.spec_client_id()),
                    spec_connect_tail(q),
                );
                assert(crate::utils::spec_prefix(g_ka, spec_encode_string(client_id@))) by {
                    assert(g_ka.take(spec_encode_string(client_id@).len() as int)
                        =~= spec_encode_string(client_id@));
                }
                crate::data::lemma_string_prefix_deterministic(
                    g_ka,
                    client_id@,
                    q.spec_client_id(),
                );
            }
        }
        if client_id.is_empty() && !connect_flags.clean_session() {
            return Err(DecodeError::InvalidClientId);
        }
        let ghost g_cid = ba.spec_remaining();
        proof {
            assert forall|q: ConnectPacket|
                q.wf() && q.spec_connect_flags() == connect_flags && crate::utils::spec_prefix(
                    g_ka,
                    #[trigger] (spec_encode_string(q.spec_client_id()) + spec_connect_tail(q)),
                ) implies crate::utils::spec_prefix(g_cid, spec_connect_tail(q)) by {
                crate::utils::lemma_prefix_of_concat(
                    g_ka,
                    spec_encode_string(q.spec_client_id()),
                    spec_connect_tail(q),
                );
                assert(g_cid =~= g_ka.skip(spec_encode_string(client_id@).len() as int));
            }
        }
        let tr = Self::decode_payload_tail(ba, &connect_flags);
        proof {
            assert forall|q: ConnectPacket|
                q.wf() && q.spec_connect_flags() == connect_flags && crate::utils::spec_prefix(
                    g_ka,
                    #[trigger] (spec_encode_string(q.spec_client_id()) + spec_connect_tail(q)),
                ) implies (tr matches Ok(t4) && spec_tail_bytes(t4, connect_flags)
                == spec_connect_tail(q)) by {
            }
        }
        let (will_topic, will_message, username, password) = match tr {
            Ok(t) => t,
            Err(e) => {
                return Err(e);
            },
        };
        let p = ConnectPacket {
            protocol_name,
            protocol_level,
            connect_flags,
            keep_alive,
            client_id,
            will_topic,
            will_message,
            username,
            password,
        };
        proof {
            assert(spec_connect_tail(p) =~= spec_tail_bytes(
                (will_topic, will_message, username, password),
                connect_flags,
            ));
            assert(g_ka =~= spec_encode_string(p.spec_client_id()) + spec_connect_tail(p)
                + ba.spec_remaining());
            assert forall|q: ConnectPacket|
                q.wf() && q.spec_connect_flags() == connect_flags && crate::utils::spec_prefix(
                    g_ka,
                    #[trigger] (spec_encode_string(q.spec_client_id()) + spec_connect_tail(q)),
                ) implies spec_encode_string(p.spec_client_id()) + spec_connect_tail(p)
                == spec_encode_string(q.spec_client_id()) + spec_connect_tail(q) by {
                assert(spec_encode_string(p.spec_client_id()) + spec_connect_tail(p)
                    =~= spec_encode_string(q.spec_client_id()) + spec_connect_tail(q));
            }
        }
        Ok(p)
    }

    /// Read the protocol name, level, connect flags and keep-alive of a
    /// CONNECT packet, with the flag rules checked.  Bytes that begin with
    /// a well-formed preamble are always accepted.
    #[verifier::rlimit(100)]
    fn decode_preamble(ba: &mut ByteArray) -> (r: Result<
        (StringData, Version, ConnectFlags, U16Data),
        DecodeError,
    >)
        requires
            old(ba).wf(),
        ensures
            final(ba).wf(),
            final(ba).spec_data() == old(ba).spec_data(),
            r matches Ok((pn, lvl, f, ka)) ==> {
                &&& old(ba).spec_remaining() == spec_encode_string(pn@) + seq![
                    spec_version_value(lvl),
                    spec_connect_flags_byte(f),
                ] + be_u16_bytes(ka@) + final(ba).spec_remaining()
                &&& pn@ == "MQTT"@
                &&& pn.wf()
                &&& (!f.will ==> f.will_qos == QoS::AtMostOnce && !f.will_retain)
                &&& (!f.username ==> !f.password)
            },
            forall|pn2: Seq<char>, lvl2: Version, f2: ConnectFlags, ka2: u16|
                #![trigger spec_encode_string(pn2), spec_version_value(lvl2),
                    spec_connect_flags_byte(f2), be_u16_bytes(ka2)]
                pn2 == "MQTT"@ && (!f2.will ==> f2.will_qos == QoS::AtMostOnce
                    && !f2.will_retain) && (!f2.username ==> !f2.password)
                    && crate::utils::spec_prefix(
                    old(ba).spec_remaining(),
                    spec_encode_string(pn2) + seq![
                        spec_version_value(lvl2),
                        spec_connect_flags_byte(f2),
                    ] + be_u16_bytes(ka2),
                ) ==> (r matches Ok(t) && t.1 == lvl2 && t.2 == f2 && t.3@ == ka2),
    {
        let ghost rem1 = ba.spec_remaining();
        proof {
            assert forall|pn2: Seq<char>, lvl2: Version, f2: ConnectFlags, ka2: u16|
                #![trigger spec_encode_string(pn2), spec_version_value(lvl2),
                    spec_connect_flags_byte(f2), be_u16_bytes(ka2)]
                pn2 == "MQTT"@ && crate::utils::spec_prefix(
                    rem1,
                    spec_encode_string(pn2) + seq![
                        spec_version_value(lvl2),
                        spec_connect_flags_byte(f2),
                    ] + be_u16_bytes(ka2),
                ) implies spec_preamble_anchors(rem1, lvl2, f2, ka2)
                && StringData::spec_decodable(rem1) by {
                lemma_preamble_split(rem1, lvl2, f2, ka2);
                lemma_protocol_name_bytes();
                crate::data::lemma_string_prefix_decodable(rem1, "MQTT"@);
            }
        }
        let protocol_name = match StringData::decode(ba) {
            Ok(d) => d,
            Err(e) => {
                return Err(e);
            },
        };
        proof {
            assert forall|pn2: Seq<char>, lvl2: Version, f2: ConnectFlags, ka2: u16|
                #![trigger spec_encode_string(pn2), spec_version_value(lvl2),
                    spec_connect_flags_byte(f2), be_u16_bytes(ka2)]
                pn2 == "MQTT"@ && crate::utils::spec_prefix(
                    rem1,
                    spec_encode_string(pn2) + seq![
                        spec_version_value(lvl2),
                        spec_connect_flags_byte(f2),
                    ] + be_u16_bytes(ka2),
                ) implies protocol_name@ == "MQTT"@ by {
                lemma_preamble_split(rem1, lvl2, f2, ka2);
                lemma_protocol_name_bytes();
                assert(crate::utils::spec_prefix(rem1, spec_encode_string(protocol_name@))) by {
                    assert(rem1.take(spec_encode_string(protocol_name@).len() as int)
                        =~= spec_encode_string(protocol_name@));
                }
                crate::data::lemma_string_prefix_deterministic(rem1, protocol_name@, "MQTT"@);
            }
        }
        if !str_eq(protocol_name.as_str(), "MQTT") {
            return Err(DecodeError::InvalidProtocolName);
        }
        let ghost g_pn = ba.spec_remaining();
        proof {
            assert(g_pn =~= rem1.skip(spec_encode_string(protocol_name@).len() as int));
        }
        let level_byte = match ba.read_byte() {
            Ok(b) => b,
            Err(e) => {
                return Err(DecodeError::from_byte_array(e));
            },
        };
        let protocol_level = match Version::try_from(level_byte) {
            Ok(v) => v,
            Err(e) => {
                return Err(e);
            },
        };
        let ghost g_lvl = ba.spec_remaining();
        proof {
            assert(g_lvl =~= g_pn.skip(1));
        }
        let fr = ConnectFlags::decode(ba);
        proof {
            assert forall|pn2: Seq<char>, lvl2: Version, f2: ConnectFlags, ka2: u16|
                #![trigger spec_encode_string(pn2), spec_version_value(lvl2),
                    spec_connect_flags_byte(f2), be_u16_bytes(ka2)]
                pn2 == "MQTT"@ && crate::utils::spec_prefix(
                    rem1,
                    spec_encode_string(pn2) + seq![
                        spec_version_value(lvl2),
                        spec_connect_flags_byte(f2),
                    ] + be_u16_bytes(ka2),
                ) implies (fr matches Ok(g) && g == f2) && protocol_level == lvl2 by {
                lemma_preamble_split(rem1, lvl2, f2, ka2);
                assert(g_pn[0] == spec_version_value(lvl2));
                assert(g_pn[1] == spec_connect_flags_byte(f2));
                assert(g_lvl[0] == spec_connect_flags_byte(f2));
            }
        }
        let connect_flags = match fr {
            Ok(f) => f,
            Err(e) => {
                return Err(e);
            },
        };
        if !connect_flags.will() && (!matches!(connect_flags.will_qos(), QoS::AtMostOnce)
            || connect_flags.will_retain()) {
            return Err(DecodeError::InvalidConnectFlags);
        }
        if !connect_flags.username() && connect_flags.password() {
            return Err(DecodeError::InvalidConnectFlags);
        }
        let ghost g_flg = ba.spec_remaining();
        proof {
            assert(g_flg =~= g_lvl.skip(1));
        }
        let keep_alive = match U16Data::decode(ba) {
            Ok(v) => v,
            Err(e) => {
                return Err(e);
            },
        };
        proof {
            assert forall|pn2: Seq<char>, lvl2: Version, f2: ConnectFlags, ka2: u16|
                #![trigger spec_encode_string(pn2), spec_version_value(lvl2),
                    spec_connect_flags_byte(f2), be_u16_bytes(ka2)]
                pn2 == "MQTT"@ && crate::utils::spec_prefix(
                    rem1,
                    spec_encode_string(pn2) + seq![
                        spec_version_value(lvl2),
                        spec_connect_flags_byte(f2),
                    ] + be_u16_bytes(ka2),
                ) implies keep_alive@ == ka2 by {
                lemma_preamble_split(rem1, lvl2, f2, ka2);
                assert(g_flg =~= g_pn.skip(2));
                assert(g_flg.take(2)[0] == g_flg[0] && g_flg.take(2)[1] == g_flg[1]);
                crate::data::lemma_be_u16_round_trip(ka2);
                crate::data::lemma_be_u16_round_trip(keep_alive@);
            }
        }
        proof {
            assert(g_pn =~= seq![level_byte] + g_lvl);
            assert(g_lvl =~= seq![spec_connect_flags_byte(connect_flags)] + g_flg);
            assert(rem1 =~= spec_encode_string(protocol_name@) + seq![
                spec_version_value(protocol_level),
                spec_connect_flags_byte(connect_flags),
            ] + be_u16_bytes(keep_alive@) + ba.spec_remaining());
        }
        Ok((protocol_name, protocol_level, connect_flags, keep_alive))
    }

    /// Read the will, username and password fields that the connect flags
    /// announce.
    #[verifier::rlimit(100)]
    fn decode_payload_tail(ba: &mut ByteArray, connect_flags: &ConnectFlags) -> (r: Result<
        (Option<StringData>, BinaryData, StringData, BinaryData),
        DecodeError,
    >)
        requires
            old(ba).wf(),
        ensures
            final(ba).wf(),
            final(ba).spec_data() == old(ba).spec_data(),
            r matches Ok((will_topic, will_message, username, password)) ==> {
                &&& old(ba).spec_remaining() == (if connect_flags.will {
                    spec_encode_string(will_topic.unwrap()@) + spec_encode_binary(will_message@)
                } else {
                    Seq::<u8>::empty()
                }) + (if connect_flags.username {
                    spec_encode_string(username@)
                } else {
                    Seq::<u8>::empty()
                }) + (if connect_flags.password {
                    spec_encode_binary(password@)
                } else {
                    Seq::<u8>::empty()
                }) + final(ba).spec_remaining()
                &&& (connect_flags.will ==> (will_topic matches Some(t) && t.wf()
                    && spec_valid_pub_topic(t@)))
                &&& (!connect_flags.will ==> will_topic is None && will_message@
                    == Seq::<u8>::empty())
                &&& will_message.wf()
                &&& username.wf()
                &&& password.wf()
                &&& (!connect_flags.username ==> username@ == Seq::<char>::empty())
                &&& (!connect_flags.password ==> password@ == Seq::<u8>::empty())
            },
            forall|p: ConnectPacket|
                p.wf() && p.spec_connect_flags() == *connect_flags && crate::utils::spec_prefix(
                    old(ba).spec_remaining(),
                    #[trigger] spec_connect_tail(p),
                ) ==> (r matches Ok(t4) && spec_tail_bytes(t4, *connect_flags)
                    == spec_connect_tail(p)),
    {
        let ghost rem0 = old(ba).spec_remaining();
        proof {
            assert forall|p: ConnectPacket|
                p.wf() && p.spec_connect_flags() == *connect_flags && crate::utils::spec_prefix(
                    rem0,
                    #[trigger] spec_connect_tail(p),
                ) implies spec_tail_hyp(rem0, p) by {
            }
        }
        let will_topic: Option<StringData> = if connect_flags.will() {
            proof {
                assert forall|p: ConnectPacket|
                    spec_tail_hyp(rem0, p) && p.spec_connect_flags() == *connect_flags implies
                    StringData::spec_decodable(rem0) by {
                    lemma_tail_split(rem0, p);
                    crate::data::lemma_string_prefix_decodable(
                        rem0,
                        p.spec_will_topic().unwrap(),
                    );
                }
            }
            let t = match StringData::decode(ba) {
                Ok(d) => d,
                Err(e) => {
                    return Err(e);
                },
            };
            proof {
                assert forall|p: ConnectPacket|
                    spec_tail_hyp(rem0, p) && p.spec_connect_flags() == *connect_flags implies t@
                    == p.spec_will_topic().unwrap() by {
                    lemma_tail_split(rem0, p);
                    assert(crate::utils::spec_prefix(rem0, spec_encode_string(t@))) by {
                        assert(rem0.take(spec_encode_string(t@).len() as int)
                            =~= spec_encode_string(t@));
                    }
                    crate::data::lemma_string_prefix_deterministic(
                        rem0,
                        t@,
                        p.spec_will_topic().unwrap(),
                    );
                }
            }
            if Topic::validate_pub_topic(t.as_str()).is_err() {
                return Err(DecodeError::InvalidTopic);
            }
            Some(t)
        } else {
            None
        };
        let ghost g_wt = ba.spec_remaining();
        proof {
            if connect_flags.will {
                assert forall|p: ConnectPacket|
                    spec_tail_hyp(rem0, p) && p.spec_connect_flags() == *connect_flags implies
                    crate::utils::spec_prefix(
                    g_wt,
                    spec_encode_binary(p.spec_will_message()),
                ) && p.spec_will_message().len() <= 65535 by {
                    lemma_tail_split(rem0, p);
                    assert(will_topic.unwrap()@ == p.spec_will_topic().unwrap());
                    assert(g_wt =~= rem0.skip(spec_encode_string(
                        will_topic.unwrap()@,
                    ).len() as int));
                    crate::utils::lemma_prefix_of_concat(
                        g_wt,
                        spec_encode_binary(p.spec_will_message()),
                        spec_user_pass_bytes(p),
                    );
                }
            }
        }
        let will_message = if connect_flags.will() {
            proof {
                assert forall|p: ConnectPacket|
                    spec_tail_hyp(rem0, p) && p.spec_connect_flags() == *connect_flags implies
                    BinaryData::spec_decodable(g_wt) by {
                    crate::data::lemma_binary_prefix_decodable(g_wt, p.spec_will_message());
                }
            }
            match BinaryData::decode(ba) {
                Ok(d) => d,
                Err(e) => {
                    return Err(e);
                },
            }
        } else {
            BinaryData::new()
        };
        let ghost g_will = ba.spec_remaining();
        proof {
            assert forall|p: ConnectPacket|
                spec_tail_hyp(rem0, p) && p.spec_connect_flags() == *connect_flags implies
                crate::utils::spec_prefix(g_will, spec_user_pass_bytes(p)) && (
            p.spec_connect_flags().will ==> spec_encode_string(will_topic.unwrap()@)
                + spec_encode_binary(will_message@) == spec_encode_string(
                p.spec_will_topic().unwrap(),
            ) + spec_encode_binary(p.spec_will_message())) by {
                lemma_tail_split(rem0, p);
                if p.spec_connect_flags().will {
                    assert(g_wt =~= rem0.skip(spec_encode_string(
                        will_topic.unwrap()@,
                    ).len() as int));
                    assert(crate::utils::spec_prefix(g_wt, spec_encode_binary(will_message@)))
                        by {
                        assert(g_wt.take(spec_encode_binary(will_message@).len() as int)
                            =~= spec_encode_binary(will_message@));
                    }
                    crate::data::lemma_binary_prefix_deterministic(
                        g_wt,
                        will_message@,
                        p.spec_will_message(),
                    );
                    assert(g_will =~= g_wt.skip(spec_encode_binary(will_message@).len() as int));
                    crate::utils::lemma_prefix_of_concat(
                        g_wt,
                        spec_encode_binary(p.spec_will_message()),
                        spec_user_pass_bytes(p),
                    );
                } else {
                    assert(g_will =~= rem0);
                }
            }
        }
        let username = if connect_flags.username() {
            proof {
                assert forall|p: ConnectPacket|
                    spec_tail_hyp(rem0, p) && p.spec_connect_flags() == *connect_flags implies
                    StringData::spec_decodable(g_will) by {
                    crate::utils::lemma_prefix_of_concat(
                        g_will,
                        (if p.spec_connect_flags().username {
                            spec_encode_string(p.spec_username())
                        } else {
                            Seq::<u8>::empty()
                        }),
                        (if p.spec_connect_flags().password {
                            spec_encode_binary(p.spec_password())
                        } else {
                            Seq::<u8>::empty()
                        }),
                    );
                    crate::data::lemma_string_prefix_decodable(g_will, p.spec_username());
                }
            }
            match StringData::decode(ba) {
                Ok(d) => d,
                Err(e) => {
                    return Err(e);
                },
            }
        } else {
            StringData::new()
        };
        let ghost g_user = ba.spec_remaining();
        proof {
            assert forall|p: ConnectPacket|
                spec_tail_hyp(rem0, p) && p.spec_connect_flags() == *connect_flags implies
                crate::utils::spec_prefix(
                g_user,
                (if p.spec_connect_flags().password {
                    spec_encode_binary(p.spec_password())
                } else {
                    Seq::<u8>::empty()
                }),
            ) && (p.spec_connect_flags().username ==> username@ == p.spec_username()) by {
                crate::utils::lemma_prefix_of_concat(
                    g_will,
                    (if p.spec_connect_flags().username {
                        spec_encode_string(p.spec_username())
                    } else {
                        Seq::<u8>::empty()
                    }),
                    (if p.spec_connect_flags().password {
                        spec_encode_binary(p.spec_password())
                    } else {
                        Seq::<u8>::empty()
                    }),
                );
                if p.spec_connect_flags().username {
                    assert(crate::utils::spec_prefix(g_will, spec_encode_string(username@)))
                        by {
                        assert(g_will.take(spec_encode_string(username@).len() as int)
                            =~= spec_encode_string(username@));
                    }
                    crate::data::lemma_string_prefix_deterministic(
                        g_will,
                        username@,
                        p.spec_username(),
                    );
                    assert(g_user =~= g_will.skip(spec_encode_string(username@).len() as int));
                } else {
                    assert(g_user =~= g_will);
                }
            }
        }
        let password = if connect_flags.password() {
            proof {
                assert forall|p: ConnectPacket|
                    spec_tail_hyp(rem0, p) && p.spec_connect_flags() == *connect_flags implies
                    BinaryData::spec_decodable(g_user) by {
                    crate::data::lemma_binary_prefix_decodable(g_user, p.spec_password());
                }
            }
            match BinaryData::decode(ba) {
                Ok(d) => d,
                Err(e) => {
                    return Err(e);
                },
            }
        } else {
            BinaryData::new()
        };
        proof {
            assert(old(ba).spec_remaining() =~= (if connect_flags.will {
                spec_encode_string(will_topic.unwrap()@) + spec_encode_binary(will_message@)
            } else {
                Seq::<u8>::empty()
            }) + (if connect_flags.username {
                spec_encode_string(username@)
            } else {
                Seq::<u8>::empty()
            }) + (if connect_flags.password {
                spec_encode_binary(password@)
            } else {
                Seq::<u8>::empty()
            }) + ba.spec_remaining());
            assert forall|p: ConnectPacket|
                spec_tail_hyp(rem0, p) && p.spec_connect_flags() == *connect_flags implies
                spec_tail_bytes(
                (will_topic, will_message, username, password),
                *connect_flags,
            ) == spec_connect_tail(p) by {
                if p.spec_connect_flags().password {
                    assert(crate::utils::spec_prefix(g_user, spec_encode_binary(password@))) by {
                        assert(g_user.take(spec_encode_binary(password@).len() as int)
                            =~= spec_encode_binary(password@));
                    }
                    crate::data::lemma_binary_prefix_deterministic(
                        g_user,
                        password@,
                        p.spec_password(),
                    );
                }
                assert(spec_tail_bytes(
                    (will_topic, will_message, username, password),
                    *connect_flags,
                ) =~= spec_connect_tail(p));
            }
        }
        Ok((will_topic, will_message, username, password))
    }

    /// The fixed header a CONNECT packet encodes under.
    pub open spec fn spec_header(p: ConnectPacket) -> FixedHeader {
        FixedHeader {
            packet_type: PacketType::ConnectCmd,
            packet_flags: crate::base::PacketFlags::Reserved,
            remaining_length: spec_connect_body(p).len() as u32,
        }
    }

    /// Read a CONNECT packet from the cursor, checking the protocol name
    /// and level, the flag rules, the client-identifier rule, and that the
    /// body fills the announced remaining length exactly.  A buffer that
    /// begins with a well-formed packet's bytes is always accepted.
    #[verifier::rlimit(100)]
    pub fn decode(ba: &mut ByteArray) -> (r: Result<Self, DecodeError>)
        requires
            old(ba).wf(),
        ensures
            final(ba).wf(),
            final(ba).spec_data() == old(ba).spec_data(),
            r matches Ok(p) ==> p.wf() && old(ba).spec_remaining() == spec_encode_connect(p)
                + final(ba).spec_remaining(),
            forall|q: ConnectPacket|
                q.wf() && spec_connect_body(q).len() <= crate::base::VARINT_MAX
                    && crate::utils::spec_prefix(
                    old(ba).spec_remaining(),
                    #[trigger] spec_encode_connect(q),
                ) ==> r is Ok,
            (forall|h: FixedHeader|
                crate::base::spec_header_prefix(old(ba).spec_remaining(), h) && h.packet_type
                    != PacketType::ConnectCmd ==> r == Err::<ConnectPacket, DecodeError>(
                    DecodeError::InvalidPacketType,
                )),
    {
        let ghost rem0 = old(ba).spec_remaining();
        let fixed_header = match FixedHeader::decode(ba) {
            Ok(h) => h,
            Err(e) => {
                proof {
                    assert forall|q: ConnectPacket|
                        q.wf() && spec_connect_body(q).len() <= crate::base::VARINT_MAX
                            && crate::utils::spec_prefix(
                            rem0,
                            #[trigger] spec_encode_connect(q),
                        ) implies false by {
                        lemma_connect_prefix_header(rem0, q);
                    }
                }
                return Err(e);
            },
        };
        proof {
            assert(rem0.take(spec_encode_fixed_header(fixed_header).len() as int)
                =~= spec_encode_fixed_header(fixed_header));
            assert(crate::base::spec_header_prefix(rem0, fixed_header));
            assert forall|h: FixedHeader|
                crate::base::spec_header_prefix(rem0, h) implies h == fixed_header by {
                crate::base::lemma_header_prefix_deterministic(rem0, h, fixed_header);
            }
        }
        if !matches!(fixed_header.packet_type, PacketType::ConnectCmd) {
            proof {
                assert forall|q: ConnectPacket|
                    q.wf() && spec_connect_body(q).len() <= crate::base::VARINT_MAX
                        && crate::utils::spec_prefix(
                        rem0,
                        #[trigger] spec_encode_connect(q),
                    ) implies false by {
                    lemma_connect_prefix_header(rem0, q);
                }
            }
            return Err(DecodeError::InvalidPacketType);
        }
        let before = ba.remaining_bytes();
        let ghost rem1 = ba.spec_remaining();
        proof {
            assert(rem1 =~= rem0.skip(spec_encode_fixed_header(fixed_header).len() as int));
            assert forall|q: ConnectPacket|
                q.wf() && spec_connect_body(q).len() <= crate::base::VARINT_MAX
                    && crate::utils::spec_prefix(
                    rem0,
                    #[trigger] spec_encode_connect(q),
                ) implies crate::utils::spec_prefix(rem1, spec_connect_body(q)) && fixed_header
                == Self::spec_header(q) by {
                lemma_connect_prefix_header(rem0, q);
                crate::base::lemma_header_prefix_deterministic(
                    rem0,
                    fixed_header,
                    Self::spec_header(q),
                );
            }
        }
        let p = match Self::decode_body(ba) {
            Ok(p) => p,
            Err(e) => {
                return Err(e);
            },
        };
        let consumed = before - ba.remaining_bytes();
        if consumed != fixed_header.remaining_length as usize {
            proof {
                assert forall|q: ConnectPacket|
                    q.wf() && spec_connect_body(q).len() <= crate::base::VARINT_MAX
                        && crate::utils::spec_prefix(
                        rem0,
                        #[trigger] spec_encode_connect(q),
                    ) implies false by {
                    assert(spec_connect_body(p).len() == consumed);
                    assert(spec_connect_body(p) == spec_connect_body(q));
                }
            }
            return Err(DecodeError::InvalidRemainingLength);
        }
        proof {
            assert(spec_connect_body(p).len() == consumed);
            assert(old(ba).spec_remaining() =~= spec_encode_connect(p) + ba.spec_remaining());
        }
        Ok(p)
    }
}

/// A buffer beginning with a well-formed CONNECT's bytes begins with its
/// header, and its body follows.
proof fn lemma_connect_prefix_header(b: Seq<u8>, q: ConnectPacket)
    requires
        q.wf(),
        spec_connect_body(q).len() <= crate::base::VARINT_MAX,
        crate::utils::spec_prefix(b, spec_encode_connect(q)),
    ensures
        crate::base::spec_header_prefix(b, ConnectPacket::spec_header(q)),
        crate::utils::spec_prefix(
            b.skip(spec_encode_fixed_header(ConnectPacket::spec_header(q)).len() as int),
            spec_connect_body(q),
        ),
{
    let h = ConnectPacket::spec_header(q);
    assert(spec_encode_connect(q) == spec_encode_fixed_header(h) + spec_connect_body(q));
    crate::utils::lemma_prefix_of_concat(b, spec_encode_fixed_header(h), spec_connect_body(q));
    assert(crate::base::spec_fixed_header_wf(h));
}

/// Packets that agree on every field's bytes have the same body bytes.
#[verifier::rlimit(100)]
proof fn lemma_body_pieces_equal(p: ConnectPacket, q: ConnectPacket)
    requires
        p.spec_protocol_name() == "MQTT"@,
        q.spec_protocol_name() == "MQTT"@,
        p.spec_protocol_level() == q.spec_protocol_level(),
        p.spec_connect_flags() == q.spec_connect_flags(),
        p.spec_keep_alive() == q.spec_keep_alive(),
        spec_encode_string(p.spec_client_id()) + spec_connect_tail(p) == spec_encode_string(
            q.spec_client_id(),
        ) + spec_connect_tail(q),
    ensures
        spec_connect_body(p) == spec_connect_body(q),
{
    let x = spec_encode_string("MQTT"@) + seq![
        spec_version_value(p.spec_protocol_level()),
        spec_connect_flags_byte(p.spec_connect_flags()),
    ] + be_u16_bytes(p.spec_keep_alive());
    assert(spec_connect_body(p) =~= x + (spec_encode_string(p.spec_client_id())
        + spec_connect_tail(p)));
    assert(spec_connect_body(q) =~= x + (spec_encode_string(q.spec_client_id())
        + spec_connect_tail(q)));
}

/// The fixed bytes of the preamble, anchored after the protocol name.
pub open spec fn spec_preamble_anchors(b: Seq<u8>, lvl: Version, f: ConnectFlags, ka: u16) -> bool {
    let mid = b.skip(spec_encode_string("MQTT"@).len() as int);
    &&& mid.len() >= 4
    &&& mid[0] == spec_version_value(lvl)
    &&& mid[1] == spec_connect_flags_byte(f)
    &&& mid.skip(2)[0] == be_u16_bytes(ka)[0]
    &&& mid.skip(2)[1] == be_u16_bytes(ka)[1]
}

/// A buffer beginning with a preamble's bytes splits at the protocol name
/// and carries the level, flag and keep-alive bytes next.
pub proof fn lemma_preamble_split(b: Seq<u8>, lvl: Version, f: ConnectFlags, ka: u16)
    requires
        crate::utils::spec_prefix(
            b,
            spec_encode_string("MQTT"@) + seq![
                spec_version_value(lvl),
                spec_connect_flags_byte(f),
            ] + be_u16_bytes(ka),
        ),
    ensures
        crate::utils::spec_prefix(b, spec_encode_string("MQTT"@)),
        spec_preamble_anchors(b, lvl, f, ka),
{
    let pn = spec_encode_string("MQTT"@);
    let two = seq![spec_version_value(lvl), spec_connect_flags_byte(f)];
    assert(pn + two + be_u16_bytes(ka) =~= pn + (two + be_u16_bytes(ka)));
    crate::utils::lemma_prefix_of_concat(b, pn, two + be_u16_bytes(ka));
    let mid = b.skip(pn.len() as int);
    crate::utils::lemma_prefix_of_concat(mid, two, be_u16_bytes(ka));
    assert(mid.take(2)[0] == mid[0] && mid.take(2)[1] == mid[1]);
    assert(mid.skip(2).take(2)[0] == mid.skip(2)[0] && mid.skip(2).take(2)[1] == mid.skip(2)[1]);
}

/// A well-formed CONNECT body begins with its preamble bytes.
proof fn lemma_body_preamble(rem1: Seq<u8>, q: ConnectPacket)
    requires
        q.wf(),
        crate::utils::spec_prefix(rem1, spec_connect_body(q)),
    ensures
        crate::utils::spec_prefix(
            rem1,
            spec_encode_string("MQTT"@) + seq![
                spec_version_value(q.spec_protocol_level()),
                spec_connect_flags_byte(q.spec_connect_flags()),
            ] + be_u16_bytes(q.spec_keep_alive()),
        ),
{
    let x = spec_encode_string("MQTT"@) + seq![
        spec_version_value(q.spec_protocol_level()),
        spec_connect_flags_byte(q.spec_connect_flags()),
    ] + be_u16_bytes(q.spec_keep_alive());
    assert(spec_connect_body(q) =~= x + (spec_encode_string(q.spec_client_id())
        + spec_connect_tail(q)));
    crate::utils::lemma_prefix_of_concat(
        rem1,
        x,
        spec_encode_string(q.spec_client_id()) + spec_connect_tail(q),
    );
}

/// After the preamble of a well-formed CONNECT body come the client
/// identifier and the payload tail.
proof fn lemma_body_at_cid(rem1: Seq<u8>, q: ConnectPacket, g_ka: Seq<u8>)
    requires
        q.wf(),
        crate::utils::spec_prefix(rem1, spec_connect_body(q)),
        g_ka == rem1.skip(spec_encode_string("MQTT"@).len() as int + 4),
    ensures
        crate::utils::spec_prefix(
            g_ka,
            spec_encode_string(q.spec_client_id()) + spec_connect_tail(q),
        ),
        StringData::spec_decodable(g_ka),
{
    let x = spec_encode_string("MQTT"@) + seq![
        spec_version_value(q.spec_protocol_level()),
        spec_connect_flags_byte(q.spec_connect_flags()),
    ] + be_u16_bytes(q.spec_keep_alive());
    assert(spec_connect_body(q) =~= x + (spec_encode_string(q.spec_client_id())
        + spec_connect_tail(q)));
    crate::utils::lemma_prefix_of_concat(
        rem1,
        x,
        spec_encode_string(q.spec_client_id()) + spec_connect_tail(q),
    );
    assert(g_ka =~= rem1.skip(x.len() as int));
    crate::utils::lemma_prefix_of_concat(
        g_ka,
        spec_encode_string(q.spec_client_id()),
        spec_connect_tail(q),
    );
    crate::data::lemma_string_prefix_decodable(g_ka, q.spec_client_id());
}

/// A buffer beginning with a well-formed CONNECT body splits at its
/// protocol name, with the two fixed bytes next.
proof fn lemma_body_split(b: Seq<u8>, q: ConnectPacket)
    requires
        q.wf(),
        crate::utils::spec_prefix(b, spec_connect_body(q)),
    ensures
        crate::utils::spec_prefix(b, spec_encode_string("MQTT"@)),
        b.skip(spec_encode_string("MQTT"@).len() as int).len() >= 2,
        b.skip(spec_encode_string("MQTT"@).len() as int)[0] == spec_version_value(
            q.spec_protocol_level(),
        ),
        b.skip(spec_encode_string("MQTT"@).len() as int)[1] == spec_connect_flags_byte(
            q.spec_connect_flags(),
        ),
        crate::utils::spec_prefix(
            b.skip(spec_encode_string("MQTT"@).len() as int).skip(2),
            be_u16_bytes(q.spec_keep_alive()) + (spec_encode_string(q.spec_client_id())
                + spec_connect_tail(q)),
        ),
{
    let pn = spec_encode_string("MQTT"@);
    let two = seq![
        spec_version_value(q.spec_protocol_level()),
        spec_connect_flags_byte(q.spec_connect_flags()),
    ];
    let rest = be_u16_bytes(q.spec_keep_alive()) + (spec_encode_string(q.spec_client_id())
        + spec_connect_tail(q));
    assert(spec_connect_body(q) =~= pn + (two + rest));
    crate::utils::lemma_prefix_of_concat(b, pn, two + rest);
    let mid = b.skip(pn.len() as int);
    crate::utils::lemma_prefix_of_concat(mid, two, rest);
    assert(mid.take(2)[0] == mid[0] && mid.take(2)[1] == mid[1]);
}

/// The payload-tail bytes of decoded fields under the given flags.
pub open spec fn spec_tail_bytes(
    t4: (Option<StringData>, BinaryData, StringData, BinaryData),
    flags: ConnectFlags,
) -> Seq<u8> {
    (if flags.will {
        spec_encode_string(t4.0.unwrap()@) + spec_encode_binary(t4.1@)
    } else {
        Seq::<u8>::empty()
    }) + (if flags.username {
        spec_encode_string(t4.2@)
    } else {
        Seq::<u8>::empty()
    }) + (if flags.password {
        spec_encode_binary(t4.3@)
    } else {
        Seq::<u8>::empty()
    })
}

/// The hypothesis the tail reader works under: a well-formed packet whose
/// tail bytes begin the buffer.
pub open spec fn spec_tail_hyp(b: Seq<u8>, p: ConnectPacket) -> bool {
    p.wf() && crate::utils::spec_prefix(b, spec_connect_tail(p))
}

/// The username and password parts of a packet's tail.
pub open spec fn spec_user_pass_bytes(p: ConnectPacket) -> Seq<u8> {
    (if p.spec_connect_flags().username {
        spec_encode_string(p.spec_username())
    } else {
        Seq::<u8>::empty()
    }) + (if p.spec_connect_flags().password {
        spec_encode_binary(p.spec_password())
    } else {
        Seq::<u8>::empty()
    })
}

/// Split a tail prefix at the will fields.
proof fn lemma_tail_split(b: Seq<u8>, p: ConnectPacket)
    requires
        spec_tail_hyp(b, p),
    ensures
        p.spec_connect_flags().will ==> crate::utils::spec_prefix(
            b,
            spec_encode_string(p.spec_will_topic().unwrap()),
        ) && crate::utils::spec_prefix(
            b.skip(spec_encode_string(p.spec_will_topic().unwrap()).len() as int),
            spec_encode_binary(p.spec_will_message()) + spec_user_pass_bytes(p),
        ) && crate::utils::valid_mqtt_string_bytes(
            vstd::utf8::encode_utf8(p.spec_will_topic().unwrap()),
        ),
        !p.spec_connect_flags().will ==> crate::utils::spec_prefix(b, spec_user_pass_bytes(p)),
{
    if p.spec_connect_flags().will {
        let wt = spec_encode_string(p.spec_will_topic().unwrap());
        let wm = spec_encode_binary(p.spec_will_message());
        assert(spec_connect_tail(p) =~= wt + (wm + spec_user_pass_bytes(p)));
        crate::utils::lemma_prefix_of_concat(b, wt, wm + spec_user_pass_bytes(p));
    } else {
        assert(spec_connect_tail(p) =~= spec_user_pass_bytes(p));
    }
}

/// The protocol name is a short ASCII string, so it always fits the MQTT
/// string rules.
pub proof fn lemma_protocol_name_bytes()
    ensures
        crate::utils::valid_mqtt_string_bytes(vstd::utf8::encode_utf8("MQTT"@)),
{
    reveal_strlit("MQTT");
    assert(vstd::utf8::is_ascii_chars("MQTT"@)) by {
        assert forall|i: int| 0 <= i < "MQTT"@.len() implies ("MQTT"@[i] as nat) < 128 by {
            assert("MQTT"@.len() == 4);
            assert("MQTT"@[0] == 'M' && "MQTT"@[1] == 'Q' && "MQTT"@[2] == 'T' && "MQTT"@[3]
                == 'T');
        }
    }
    vstd::utf8::is_ascii_chars_encode_utf8("MQTT"@);
    vstd::utf8::encode_utf8_valid_utf8("MQTT"@);
    if vstd::utf8::encode_utf8("MQTT"@).contains(0u8) {
        let j = choose|j: int|
            0 <= j < vstd::utf8::encode_utf8("MQTT"@).len() && vstd::utf8::encode_utf8(
                "MQTT"@,
            )[j] == 0u8;
        assert("MQTT"@[j] as u8 == 0u8);
        assert("MQTT"@[0] == 'M' && "MQTT"@[1] == 'Q' && "MQTT"@[2] == 'T' && "MQTT"@[3] == 'T');
    }
}

/// A valid client identifier is ASCII, so its bytes are its characters.
pub proof fn lemma_client_id_bytes(s: Seq<char>)
    requires
        spec_valid_client_id(s),
    ensures
        crate::utils::valid_mqtt_string_bytes(vstd::utf8::encode_utf8(s)),
{
    assert(vstd::utf8::is_ascii_chars(s));
    vstd::utf8::is_ascii_chars_encode_utf8(s);
    vstd::utf8::encode_utf8_valid_utf8(s);
    if vstd::utf8::encode_utf8(s).contains(0u8) {
        let j = choose|j: int|
            0 <= j < vstd::utf8::encode_utf8(s).len() && vstd::utf8::encode_utf8(s)[j] == 0u8;
        assert(s[j] as u8 == 0u8);
    }
}

} // verus!

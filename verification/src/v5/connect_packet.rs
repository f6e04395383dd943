//! The MQTT 5 CONNECT packet: the 3.1.1 fields plus a property block after
//! the keep-alive and, when a will is carried, a will-property block before
//! the will topic.

use vstd::prelude::*;
use crate::base::{DecodeError, EncodeError, FixedHeader, PacketType, QoS, Version, VARINT_MAX,
    spec_encode_fixed_header};
use crate::byte_array::ByteArray;
use crate::connect_flags::{spec_connect_flags_byte, ConnectFlags};
use crate::data::{BinaryData, StringData, spec_encode_binary, spec_encode_string};
use crate::topic::{spec_valid_pub_topic, str_eq, Topic};
use crate::u16_data::U16Data;
use crate::utils::{be_u16_bytes, spec_valid_client_id, validate_client_id};
use crate::v5::property::{check_property_type_list, decode_property_block, encode_property_block,
    has_duplicate_property, props_bytes, spec_encode_property_block, spec_encode_props,
    spec_props_legal, spec_props_wf, Properties, Property, PropertyType};

verus! {

/// The property types a CONNECT may carry.
pub open spec fn spec_connect_allowed() -> Seq<PropertyType> {
    seq![
        PropertyType::SessionExpiryInterval,
        PropertyType::ReceiveMaximum,
        PropertyType::MaximumPacketSize,
        PropertyType::TopicAliasMaximum,
        PropertyType::RequestProblemInformation,
        PropertyType::UserProperty,
        PropertyType::AuthenticationMethod,
        PropertyType::AuthenticationData,
    ]
}

/// The property types a will may carry.
pub open spec fn spec_connect_will_allowed() -> Seq<PropertyType> {
    seq![
        PropertyType::WillDelayInterval,
        PropertyType::PayloadFormatIndicator,
        PropertyType::MessageExpiryInterval,
        PropertyType::ContentType,
        PropertyType::ResponseTopic,
        PropertyType::CorrelationData,
        PropertyType::UserProperty,
    ]
}

/// The CONNECT property whitelist, as a list to check against.
fn connect_allowed() -> (r: Vec<PropertyType>)
    ensures
        r@ == spec_connect_allowed(),
{
    let mut v: Vec<PropertyType> = Vec::new();
    v.push(PropertyType::SessionExpiryInterval);
    v.push(PropertyType::ReceiveMaximum);
    v.push(PropertyType::MaximumPacketSize);
    v.push(PropertyType::TopicAliasMaximum);
    v.push(PropertyType::RequestProblemInformation);
    v.push(PropertyType::UserProperty);
    v.push(PropertyType::AuthenticationMethod);
    v.push(PropertyType::AuthenticationData);
    proof {
        assert(v@ =~= spec_connect_allowed());
    }
    v
}

/// The will property whitelist, as a list to check against.
fn connect_will_allowed() -> (r: Vec<PropertyType>)
    ensures
        r@ == spec_connect_will_allowed(),
{
    let mut v: Vec<PropertyType> = Vec::new();
    v.push(PropertyType::WillDelayInterval);
    v.push(PropertyType::PayloadFormatIndicator);
    v.push(PropertyType::MessageExpiryInterval);
    v.push(PropertyType::ContentType);
    v.push(PropertyType::ResponseTopic);
    v.push(PropertyType::CorrelationData);
    v.push(PropertyType::UserProperty);
    proof {
        assert(v@ =~= spec_connect_will_allowed());
    }
    v
}

/// The username and password parts of a packet's payload tail.
pub open spec fn spec_user_pass_bytes(p: ConnectPacket) -> Seq<u8> {
    (if p.spec_connect_flags().username {
        spec_encode_string(p.spec_username())
    } else {
        Seq::<u8>::empty()
    }) + (if p.spec_connect_flags().password {
        spec_encode_binary(p.spec_password())
    } else {
        Seq::<u8>::empty()
    })
}

/// The payload tail of a CONNECT body: the will block when announced,
/// then username and password as announced.
pub open spec fn spec_connect_tail(p: ConnectPacket) -> Seq<u8> {
    (if p.spec_connect_flags().will {
        spec_encode_property_block(p.spec_will_properties()) + spec_encode_string(
            p.spec_will_topic().unwrap(),
        ) + spec_encode_binary(p.spec_will_message())
    } else {
        Seq::<u8>::empty()
    }) + spec_user_pass_bytes(p)
}

/// The hypothesis the tail reader works under: a well-formed packet with an
/// empty will-property list whose tail bytes begin the buffer.
pub open spec fn spec_tail_hyp(b: Seq<u8>, p: ConnectPacket) -> bool {
    p.wf() && p.spec_will_properties().len() == 0 && crate::utils::spec_prefix(
        b,
        spec_connect_tail(p),
    )
}

/// The tail bytes that decoded tail fields stand for.
pub open spec fn spec_tail_bytes(
    t5: (Properties, Option<StringData>, BinaryData, StringData, BinaryData),
    flags: ConnectFlags,
) -> Seq<u8> {
    (if flags.will {
        spec_encode_property_block(t5.0@) + spec_encode_string(t5.1.unwrap()@)
            + spec_encode_binary(t5.2@)
    } else {
        Seq::<u8>::empty()
    }) + (if flags.username {
        spec_encode_string(t5.3@)
    } else {
        Seq::<u8>::empty()
    }) + (if flags.password {
        spec_encode_binary(t5.4@)
    } else {
        Seq::<u8>::empty()
    })
}

/// The preamble bytes of a CONNECT body: protocol name, level, connect
/// flags and keep-alive.
pub open spec fn spec_preamble_bytes(p: ConnectPacket) -> Seq<u8> {
    spec_encode_string(p.spec_protocol_name()) + seq![
        5u8,
        spec_connect_flags_byte(p.spec_connect_flags()),
    ] + be_u16_bytes(p.spec_keep_alive())
}

/// The bytes after the fixed header of an MQTT 5 CONNECT packet.
pub open spec fn spec_connect_body(p: ConnectPacket) -> Seq<u8> {
    spec_preamble_bytes(p) + spec_encode_property_block(p.spec_properties())
        + spec_encode_string(p.spec_client_id()) + spec_connect_tail(p)
}

/// The bytes of an MQTT 5 CONNECT packet.
pub open spec fn spec_encode_connect(p: ConnectPacket) -> Seq<u8> {
    spec_encode_fixed_header(
        FixedHeader {
            packet_type: PacketType::ConnectCmd,
            packet_flags: crate::base::PacketFlags::Reserved,
            remaining_length: spec_connect_body(p).len() as u32,
        },
    ) + spec_connect_body(p)
}

/// The first packet of an MQTT 5 connection.
#[derive(Debug, Clone, PartialEq, Eq)]
pub struct ConnectPacket {
    protocol_name: StringData,
    connect_flags: ConnectFlags,
    keep_alive: U16Data,
    properties: Properties,
    client_id: StringData,
    will_properties: Properties,
    will_topic: Option<StringData>,
    will_message: BinaryData,
    username: StringData,
    password: BinaryData,
}

impl ConnectPacket {
    /// The protocol name, always the four characters of `MQTT` on the wire.
    pub closed spec fn spec_protocol_name(&self) -> Seq<char> {
        self.protocol_name@
    }

    /// The connect flags.
    pub closed spec fn spec_connect_flags(&self) -> ConnectFlags {
        self.connect_flags
    }

    /// The keep-alive interval in seconds.
    pub closed spec fn spec_keep_alive(&self) -> u16 {
        self.keep_alive@
    }

    /// The CONNECT properties.
    pub closed spec fn spec_properties(&self) -> Seq<Property> {
        self.properties@
    }

    /// The client identifier.
    pub closed spec fn spec_client_id(&self) -> Seq<char> {
        self.client_id@
    }

    /// The will properties.
    pub closed spec fn spec_will_properties(&self) -> Seq<Property> {
        self.will_properties@
    }

    /// The will topic, present exactly when the will flag is set.
    pub closed spec fn spec_will_topic(&self) -> Option<Seq<char>> {
        match self.will_topic {
            Some(t) => Some(t@),
            None => None,
        }
    }

    /// The will payload.
    pub closed spec fn spec_will_message(&self) -> Seq<u8> {
        self.will_message@
    }

    /// The username.
    pub closed spec fn spec_username(&self) -> Seq<char> {
        self.username@
    }

    /// The password bytes.
    pub closed spec fn spec_password(&self) -> Seq<u8> {
        self.password@
    }

    /// A packet the codec will put on the wire: the 3.1.1 rules, legal
    /// property blocks, and a body within the remaining-length range.
    pub open spec fn wf(&self) -> bool {
        &&& self.spec_protocol_name() == "MQTT"@
        &&& crate::utils::valid_mqtt_string_bytes(
            vstd::utf8::encode_utf8(self.spec_protocol_name()),
        )
        &&& crate::utils::valid_mqtt_string_bytes(vstd::utf8::encode_utf8(self.spec_client_id()))
        &&& crate::utils::valid_mqtt_string_bytes(vstd::utf8::encode_utf8(self.spec_username()))
        &&& self.spec_will_message().len() <= 65535
        &&& self.spec_password().len() <= 65535
        &&& spec_props_wf(self.spec_properties())
        &&& spec_props_legal(self.spec_properties(), spec_connect_allowed())
        &&& spec_props_wf(self.spec_will_properties())
        &&& spec_props_legal(self.spec_will_properties(), spec_connect_will_allowed())
        &&& spec_encode_props(self.spec_properties()).len() <= VARINT_MAX
        &&& spec_encode_props(self.spec_will_properties()).len() <= VARINT_MAX
        &&& spec_connect_body(*self).len() <= VARINT_MAX
        &&& (self.spec_connect_flags().will ==> (self.spec_will_topic() matches Some(t)
            && spec_valid_pub_topic(t) && crate::utils::valid_mqtt_string_bytes(
            vstd::utf8::encode_utf8(t),
        )))
        &&& (!self.spec_connect_flags().will ==> self.spec_will_topic() is None
            && self.spec_connect_flags().will_qos == QoS::AtMostOnce
            && !self.spec_connect_flags().will_retain && self.spec_will_properties().len() == 0)
        &&& (!self.spec_connect_flags().username ==> !self.spec_connect_flags().password)
        &&& (self.spec_client_id().len() == 0 ==> self.spec_connect_flags().clean_session)
    }

    /// Build a packet for `client_id`, which must be one to twenty-three
    /// letters or digits; the keep-alive starts at sixty seconds.
    pub fn new(client_id: &str) -> (r: Result<ConnectPacket, EncodeError>)
        ensures
            r is Ok <==> spec_valid_client_id(client_id@),
            r matches Ok(p) ==> {
                &&& p.wf()
                &&& p.spec_client_id() == client_id@
                &&& p.spec_keep_alive() == 60
                &&& p.spec_connect_flags() == ConnectFlags::spec_default()
                &&& p.spec_properties().len() == 0
            },
    {
        proof {
            crate::v3::connect_packet::lemma_protocol_name_bytes();
            if spec_valid_client_id(client_id@) {
                crate::v3::connect_packet::lemma_client_id_bytes(client_id@);
            }
        }
        if validate_client_id(client_id).is_err() {
            return Err(EncodeError::InvalidData);
        }
        let protocol_name = match StringData::from_str("MQTT") {
            Ok(d) => d,
            Err(_) => {
                return Err(EncodeError::InvalidData);
            },
        };
        let client_id_data = match StringData::from_str(client_id) {
            Ok(d) => d,
            Err(e) => {
                return Err(e);
            },
        };
        let p = ConnectPacket {
            protocol_name,
            connect_flags: ConnectFlags::new(),
            keep_alive: U16Data::new(60),
            properties: Vec::new(),
            client_id: client_id_data,
            will_properties: Vec::new(),
            will_topic: None,
            will_message: BinaryData::new(),
            username: StringData::new(),
            password: BinaryData::new(),
        };
        proof {
            assert(spec_encode_props(Seq::<Property>::empty()) =~= Seq::<u8>::empty());
            crate::base::lemma_varint_round_trip(0, Seq::empty());
            assert(spec_connect_body(p).len() <= VARINT_MAX);
        }
        Ok(p)
    }

    /// The protocol level; always MQTT 5 for this packet.
    pub fn protocol_level(&self) -> (r: Version)
        ensures
            r == Version::V5,
    {
        Version::V5
    }

    /// Set the keep-alive interval in seconds.
    pub fn set_keep_alive(&mut self, keep_alive: u16)
        ensures
            final(self).spec_keep_alive() == keep_alive,
            final(self).spec_connect_flags() == old(self).spec_connect_flags(),
            final(self).spec_client_id() == old(self).spec_client_id(),
    {
        self.keep_alive = U16Data::new(keep_alive);
    }

    /// The keep-alive interval in seconds.
    pub fn keep_alive(&self) -> (r: u16)
        ensures
            r == self.spec_keep_alive(),
    {
        self.keep_alive.value()
    }

    /// Set the will-retain flag.
    pub fn set_will_retain(&mut self, will_retain: bool)
        ensures
            final(self).spec_connect_flags() == (ConnectFlags {
                will_retain,
                ..old(self).spec_connect_flags()
            }),
            final(self).spec_client_id() == old(self).spec_client_id(),
    {
        self.connect_flags.set_will_retain(will_retain);
    }

    /// Whether the will-retain flag is set.
    pub fn will_retain(&self) -> (r: bool)
        ensures
            r == self.spec_connect_flags().will_retain,
    {
        self.connect_flags.will_retain()
    }

    /// Set the will quality of service.
    pub fn set_will_qos(&mut self, qos: QoS)
        ensures
            final(self).spec_connect_flags() == (ConnectFlags {
                will_qos: qos,
                ..old(self).spec_connect_flags()
            }),
            final(self).spec_client_id() == old(self).spec_client_id(),
    {
        self.connect_flags.set_will_qos(qos);
    }

    /// The will quality of service.
    pub fn will_qos(&self) -> (r: QoS)
        ensures
            r == self.spec_connect_flags().will_qos,
    {
        self.connect_flags.will_qos()
    }

    /// Set the will flag.
    pub fn set_will(&mut self, will: bool)
        ensures
            final(self).spec_connect_flags() == (ConnectFlags {
                will,
                ..old(self).spec_connect_flags()
            }),
            final(self).spec_client_id() == old(self).spec_client_id(),
    {
        self.connect_flags.set_will(will);
    }

    /// Whether a will message is carried.
    pub fn will(&self) -> (r: bool)
        ensures
            r == self.spec_connect_flags().will,
    {
        self.connect_flags.will()
    }

    /// Set the clean-session flag.
    pub fn set_clean_session(&mut self, clean_session: bool)
        ensures
            final(self).spec_connect_flags() == (ConnectFlags {
                clean_session,
                ..old(self).spec_connect_flags()
            }),
            final(self).spec_client_id() == old(self).spec_client_id(),
    {
        self.connect_flags.set_clean_session(clean_session);
    }

    /// Whether the broker should discard prior session state.
    pub fn clean_session(&self) -> (r: bool)
        ensures
            r == self.spec_connect_flags().clean_session,
    {
        self.connect_flags.clean_session()
    }

    /// Replace the CONNECT properties.
    pub fn set_properties(&mut self, properties: Properties)
        ensures
            final(self).spec_properties() == properties@,
            final(self).spec_client_id() == old(self).spec_client_id(),
            final(self).spec_connect_flags() == old(self).spec_connect_flags(),
    {
        self.properties = properties;
    }

    /// The CONNECT properties.
    pub fn properties(&self) -> (r: &Properties)
        ensures
            r@ == self.spec_properties(),
    {
        &self.properties
    }

    /// Replace the client identifier, checked as in `new`.
    pub fn set_client_id(&mut self, id: &str) -> (r: Result<(), EncodeError>)
        ensures
            r is Ok <==> spec_valid_client_id(id@),
            r is Ok ==> final(self).spec_client_id() == id@,
    {
        if validate_client_id(id).is_err() {
            return Err(EncodeError::InvalidData);
        }
        let d = match StringData::from_str(id) {
            Ok(d) => d,
            Err(e) => {
                proof {
                    crate::v3::connect_packet::lemma_client_id_bytes(id@);
                }
                return Err(e);
            },
        };
        self.client_id = d;
        Ok(())
    }

    /// The client identifier.
    pub fn client_id(&self) -> (r: &str)
        ensures
            r@ == self.spec_client_id(),
    {
        self.client_id.as_str()
    }

    /// Set the username and raise the username flag, or clear both.
    pub fn set_username(&mut self, username: Option<&str>) -> (r: Result<(), EncodeError>)
        ensures
            r is Ok && username is Some ==> final(self).spec_username() == username.unwrap()@
                && final(self).spec_connect_flags() == (ConnectFlags {
                username: true,
                ..old(self).spec_connect_flags()
            }),
            username is None ==> r is Ok && final(self).spec_username() == Seq::<char>::empty()
                && final(self).spec_connect_flags() == (ConnectFlags {
                username: false,
                ..old(self).spec_connect_flags()
            }),
    {
        match username {
            Some(u) => {
                let d = match StringData::from_str(u) {
                    Ok(d) => d,
                    Err(e) => {
                        return Err(e);
                    },
                };
                self.username = d;
                self.connect_flags.set_username(true);
            },
            None => {
                self.username = StringData::new();
                self.connect_flags.set_username(false);
            },
        }
        Ok(())
    }

    /// The username, when the username flag is set.
    pub fn username(&self) -> (r: Option<&str>)
        ensures
            self.spec_connect_flags().username ==> (r matches Some(u) && u@
                == self.spec_username()),
            !self.spec_connect_flags().username ==> r is None,
    {
        if self.connect_flags.username() {
            Some(self.username.as_str())
        } else {
            None
        }
    }

    /// Set the password and raise the password flag, or clear both.
    pub fn set_password(&mut self, password: Option<&[u8]>) -> (r: Result<(), EncodeError>)
        ensures
            r is Ok && password is Some ==> final(self).spec_password() == password.unwrap()@
                && final(self).spec_connect_flags() == (ConnectFlags {
                password: true,
                ..old(self).spec_connect_flags()
            }),
            password is None ==> r is Ok && final(self).spec_password() == Seq::<u8>::empty()
                && final(self).spec_connect_flags() == (ConnectFlags {
                password: false,
                ..old(self).spec_connect_flags()
            }),
    {
        match password {
            Some(p) => {
                let d = match BinaryData::from_slice(p) {
                    Ok(d) => d,
                    Err(e) => {
                        return Err(e);
                    },
                };
                self.password = d;
                self.connect_flags.set_password(true);
            },
            None => {
                self.password = BinaryData::new();
                self.connect_flags.set_password(false);
            },
        }
        Ok(())
    }

    /// The password bytes, when the password flag is set.
    pub fn password(&self) -> (r: Option<&[u8]>)
        ensures
            self.spec_connect_flags().password ==> (r matches Some(p) && p@
                == self.spec_password()),
            !self.spec_connect_flags().password ==> r is None,
    {
        if self.connect_flags.password() {
            Some(self.password.as_slice())
        } else {
            None
        }
    }

    /// Replace the will properties.
    pub fn set_will_properties(&mut self, properties: Properties)
        ensures
            final(self).spec_will_properties() == properties@,
            final(self).spec_client_id() == old(self).spec_client_id(),
            final(self).spec_connect_flags() == old(self).spec_connect_flags(),
    {
        self.will_properties = properties;
    }

    /// The will properties.
    pub fn will_properties(&self) -> (r: &Properties)
        ensures
            r@ == self.spec_will_properties(),
    {
        &self.will_properties
    }

    /// Set the will topic and raise the will flag; an empty topic clears
    /// both.
    pub fn set_will_topic(&mut self, topic: &str) -> (r: Result<(), EncodeError>)
        ensures
            r is Ok && topic@.len() > 0 ==> final(self).spec_will_topic() == Some(topic@) && final(self).spec_connect_flags() == (ConnectFlags {
                will: true,
                ..old(self).spec_connect_flags()
            }),
            topic@.len() == 0 ==> r is Ok && final(self).spec_will_topic() is None && final(self).spec_connect_flags() == (ConnectFlags {
                will: false,
                ..old(self).spec_connect_flags()
            }),
            topic@.len() > 0 && !spec_valid_pub_topic(topic@) ==> r is Err,
    {
        if topic.is_empty() {
            self.will_topic = None;
            self.connect_flags.set_will(false);
            return Ok(());
        }
        proof {
            vstd::utf8::encode_utf8_valid_utf8(topic@);
        }
        if Topic::validate_pub_topic(topic).is_err() {
            return Err(EncodeError::InvalidData);
        }
        let d = match StringData::from_str(topic) {
            Ok(d) => d,
            Err(e) => {
                return Err(e);
            },
        };
        self.will_topic = Some(d);
        self.connect_flags.set_will(true);
        Ok(())
    }

    /// The will topic, if a will is set.
    pub fn will_topic(&self) -> (r: Option<&str>)
        ensures
            (match r {
                Some(t) => self.spec_will_topic() == Some(t@),
                None => self.spec_will_topic() is None,
            }),
    {
        match &self.will_topic {
            Some(t) => Some(t.as_str()),
            None => None,
        }
    }

    /// Set the will payload.
    pub fn set_will_message(&mut self, message: &[u8]) -> (r: Result<(), EncodeError>)
        ensures
            r is Ok <==> message@.len() <= 65535,
            r is Ok ==> final(self).spec_will_message() == message@,
    {
        let d = match BinaryData::from_slice(message) {
            Ok(d) => d,
            Err(e) => {
                return Err(e);
            },
        };
        self.will_message = d;
        Ok(())
    }

    /// The will payload.
    pub fn will_message(&self) -> (r: &[u8])
        ensures
            r@ == self.spec_will_message(),
    {
        self.will_message.as_slice()
    }

    /// The packet type this packet announces.
    pub fn packet_type(&self) -> (r: PacketType)
        ensures
            r == PacketType::ConnectCmd,
    {
        PacketType::ConnectCmd
    }

    /// Append the variable header and payload to `buf`.
    #[verifier::rlimit(100)]
    fn encode_body(&self, buf: &mut Vec<u8>) -> (r: Result<(), EncodeError>)
        requires
            self.wf(),
        ensures
            r is Ok && final(buf)@ == old(buf)@ + spec_connect_body(*self),
    {
        let _ = match self.protocol_name.encode(buf) {
            Ok(n) => n,
            Err(e) => {
                return Err(e);
            },
        };
        let ghost b_pn = buf@;
        buf.push(5u8);
        buf.push(self.connect_flags.to_byte());
        let _ = self.keep_alive.encode(buf);
        let ghost b_ka = buf@;
        let _ = match encode_property_block(&self.properties, buf) {
            Ok(n) => n,
            Err(e) => {
                return Err(e);
            },
        };
        let ghost b_props = buf@;
        let _ = match self.client_id.encode(buf) {
            Ok(n) => n,
            Err(e) => {
                return Err(e);
            },
        };
        let ghost b_cid = buf@;
        if self.connect_flags.will() {
            let _ = match encode_property_block(&self.will_properties, buf) {
                Ok(n) => n,
                Err(e) => {
                    return Err(e);
                },
            };
            let wt = match &self.will_topic {
                Some(t) => t,
                None => {
                    return Err(EncodeError::InvalidData);
                },
            };
            let _ = match wt.encode(buf) {
                Ok(n) => n,
                Err(e) => {
                    return Err(e);
                },
            };
            let _ = match self.will_message.encode(buf) {
                Ok(n) => n,
                Err(e) => {
                    return Err(e);
                },
            };
        }
        let ghost b_will = buf@;
        if self.connect_flags.username() {
            let _ = match self.username.encode(buf) {
                Ok(n) => n,
                Err(e) => {
                    return Err(e);
                },
            };
        }
        let ghost b_user = buf@;
        if self.connect_flags.password() {
            let _ = match self.password.encode(buf) {
                Ok(n) => n,
                Err(e) => {
                    return Err(e);
                },
            };
        }
        proof {
            assert(b_ka =~= b_pn + seq![5u8, spec_connect_flags_byte(self.spec_connect_flags())]
                + be_u16_bytes(self.spec_keep_alive()));
            assert(b_will =~= b_cid + (if self.spec_connect_flags().will {
                spec_encode_property_block(self.spec_will_properties()) + spec_encode_string(
                    self.spec_will_topic().unwrap(),
                ) + spec_encode_binary(self.spec_will_message())
            } else {
                Seq::<u8>::empty()
            }));
            assert(b_user =~= b_will + (if self.spec_connect_flags().username {
                spec_encode_string(self.spec_username())
            } else {
                Seq::<u8>::empty()
            }));
            assert(buf@ =~= b_user + (if self.spec_connect_flags().password {
                spec_encode_binary(self.spec_password())
            } else {
                Seq::<u8>::empty()
            }));
            assert(buf@ =~= old(buf)@ + spec_connect_body(*self));
        }
        Ok(())
    }

    /// The number of bytes of the variable header and payload.
    #[verifier::rlimit(100)]
    fn body_bytes(&self) -> (r: usize)
        requires
            self.wf(),
        ensures
            r == spec_connect_body(*self).len(),
    {
        let pb = props_bytes(&self.properties);
        proof {
            crate::base::lemma_varint_round_trip(
                spec_encode_props(self.spec_properties()).len() as int,
                Seq::empty(),
            );
        }
        let pbl = crate::v5::publish_ack_packet::varint_len_of(pb);
        let mut n: usize = self.protocol_name.bytes() + 2 + 2 + pbl + pb + self.client_id.bytes();
        if self.connect_flags.will() {
            let wpb = props_bytes(&self.will_properties);
            proof {
                crate::base::lemma_varint_round_trip(
                    spec_encode_props(self.spec_will_properties()).len() as int,
                    Seq::empty(),
                );
            }
            let wpbl = crate::v5::publish_ack_packet::varint_len_of(wpb);
            let wt = match &self.will_topic {
                Some(t) => t,
                None => {
                    return 0;
                },
            };
            n = n + wpbl + wpb + wt.bytes() + self.will_message.bytes();
        }
        if self.connect_flags.username() {
            n = n + self.username.bytes();
        }
        if self.connect_flags.password() {
            n = n + self.password.bytes();
        }
        n
    }

    /// Append the packet bytes to `buf`.
    pub fn encode(&self, buf: &mut Vec<u8>) -> (r: Result<usize, EncodeError>)
        requires
            self.wf(),
        ensures
            r matches Ok(n) && final(buf)@ == old(buf)@ + spec_encode_connect(*self) && n
                == spec_encode_connect(*self).len(),
    {
        let remaining_length = self.body_bytes();
        let fixed_header = match FixedHeader::new(PacketType::ConnectCmd, remaining_length) {
            Ok(h) => h,
            Err(e) => {
                return Err(e);
            },
        };
        let hn = match fixed_header.encode(buf) {
            Ok(n) => n,
            Err(e) => {
                return Err(e);
            },
        };
        let _ = match self.encode_body(buf) {
            Ok(n) => n,
            Err(e) => {
                return Err(e);
            },
        };
        proof {
            assert(buf@ =~= old(buf)@ + spec_encode_connect(*self));
            crate::base::lemma_varint_round_trip(remaining_length as int, Seq::empty());
        }
        Ok(hn + remaining_length)
    }

    /// Read the protocol name, level, connect flags and keep-alive of an
    /// MQTT 5 CONNECT packet, with the flag rules checked.
    #[verifier::rlimit(100)]
    fn decode_preamble(ba: &mut ByteArray) -> (r: Result<
        (StringData, ConnectFlags, U16Data),
        DecodeError,
    >)
        requires
            old(ba).wf(),
        ensures
            final(ba).wf(),
            final(ba).spec_data() == old(ba).spec_data(),
            r matches Ok((pn, f, ka)) ==> {
                &&& old(ba).spec_remaining() == spec_encode_string(pn@) + seq![
                    5u8,
                    spec_connect_flags_byte(f),
                ] + be_u16_bytes(ka@) + final(ba).spec_remaining()
                &&& pn@ == "MQTT"@
                &&& pn.wf()
                &&& (!f.will ==> f.will_qos == QoS::AtMostOnce && !f.will_retain)
                &&& (!f.username ==> !f.password)
            },
            forall|f2: ConnectFlags, ka2: u16|
                #![trigger spec_connect_flags_byte(f2), be_u16_bytes(ka2)]
                (!f2.will ==> f2.will_qos == QoS::AtMostOnce && !f2.will_retain) && (!f2.username
                    ==> !f2.password) && crate::utils::spec_prefix(
                    old(ba).spec_remaining(),
                    spec_encode_string("MQTT"@) + seq![5u8, spec_connect_flags_byte(f2)]
                        + be_u16_bytes(ka2),
                ) ==> (r matches Ok(t) && t.1 == f2 && t.2@ == ka2),
    {
        let ghost rem1 = ba.spec_remaining();
        proof {
            assert forall|f2: ConnectFlags, ka2: u16|
                #![trigger spec_connect_flags_byte(f2), be_u16_bytes(ka2)]
                crate::utils::spec_prefix(
                    rem1,
                    spec_encode_string("MQTT"@) + seq![5u8, spec_connect_flags_byte(f2)]
                        + be_u16_bytes(ka2),
                ) implies crate::v3::connect_packet::spec_preamble_anchors(
                rem1,
                Version::V5,
                f2,
                ka2,
            ) && StringData::spec_decodable(rem1) by {
                assert(spec_encode_string("MQTT"@) + seq![5u8, spec_connect_flags_byte(f2)]
                    + be_u16_bytes(ka2) =~= spec_encode_string("MQTT"@) + seq![
                    crate::base::spec_version_value(Version::V5),
                    spec_connect_flags_byte(f2),
                ] + be_u16_bytes(ka2));
                crate::v3::connect_packet::lemma_preamble_split(rem1, Version::V5, f2, ka2);
                crate::v3::connect_packet::lemma_protocol_name_bytes();
                crate::data::lemma_string_prefix_decodable(rem1, "MQTT"@);
            }
        }
        let protocol_name = match StringData::decode(ba) {
            Ok(d) => d,
            Err(e) => {
                return Err(e);
            },
        };
        proof {
            assert forall|f2: ConnectFlags, ka2: u16|
                #![trigger spec_connect_flags_byte(f2), be_u16_bytes(ka2)]
                crate::utils::spec_prefix(
                    rem1,
                    spec_encode_string("MQTT"@) + seq![5u8, spec_connect_flags_byte(f2)]
                        + be_u16_bytes(ka2),
                ) implies protocol_name@ == "MQTT"@ by {
                assert(spec_encode_string("MQTT"@) + seq![5u8, spec_connect_flags_byte(f2)]
                    + be_u16_bytes(ka2) =~= spec_encode_string("MQTT"@) + seq![
                    crate::base::spec_version_value(Version::V5),
                    spec_connect_flags_byte(f2),
                ] + be_u16_bytes(ka2));
                crate::v3::connect_packet::lemma_preamble_split(rem1, Version::V5, f2, ka2);
                crate::v3::connect_packet::lemma_protocol_name_bytes();
                assert(crate::utils::spec_prefix(rem1, spec_encode_string(protocol_name@))) by {
                    assert(rem1.take(spec_encode_string(protocol_name@).len() as int)
                        =~= spec_encode_string(protocol_name@));
                }
                crate::data::lemma_string_prefix_deterministic(rem1, protocol_name@, "MQTT"@);
            }
        }
        if !str_eq(protocol_name.as_str(), "MQTT") {
            return Err(DecodeError::InvalidProtocolName);
        }
        let ghost g_pn = ba.spec_remaining();
        proof {
            assert(g_pn =~= rem1.skip(spec_encode_string(protocol_name@).len() as int));
        }
        let level_byte = match ba.read_byte() {
            Ok(b) => b,
            Err(e) => {
                return Err(DecodeError::from_byte_array(e));
            },
        };
        let ghost g_lvl = ba.spec_remaining();
        proof {
            assert(g_lvl =~= g_pn.skip(1));
            assert forall|f2: ConnectFlags, ka2: u16|
                #![trigger spec_connect_flags_byte(f2), be_u16_bytes(ka2)]
                crate::utils::spec_prefix(
                    rem1,
                    spec_encode_string("MQTT"@) + seq![5u8, spec_connect_flags_byte(f2)]
                        + be_u16_bytes(ka2),
                ) implies level_byte == 5 by {
                assert(spec_encode_string("MQTT"@) + seq![5u8, spec_connect_flags_byte(f2)]
                    + be_u16_bytes(ka2) =~= spec_encode_string("MQTT"@) + seq![
                    crate::base::spec_version_value(Version::V5),
                    spec_connect_flags_byte(f2),
                ] + be_u16_bytes(ka2));
                crate::v3::connect_packet::lemma_preamble_split(rem1, Version::V5, f2, ka2);
                assert(g_pn[0] == crate::base::spec_version_value(Version::V5));
            }
        }
        if level_byte != 5 {
            return Err(DecodeError::InvalidProtocolLevel);
        }
        let fr = ConnectFlags::decode(ba);
        proof {
            assert forall|f2: ConnectFlags, ka2: u16|
                #![trigger spec_connect_flags_byte(f2), be_u16_bytes(ka2)]
                crate::utils::spec_prefix(
                    rem1,
                    spec_encode_string("MQTT"@) + seq![5u8, spec_connect_flags_byte(f2)]
                        + be_u16_bytes(ka2),
                ) implies (fr matches Ok(g) && g == f2) by {
                assert(spec_encode_string("MQTT"@) + seq![5u8, spec_connect_flags_byte(f2)]
                    + be_u16_bytes(ka2) =~= spec_encode_string("MQTT"@) + seq![
                    crate::base::spec_version_value(Version::V5),
                    spec_connect_flags_byte(f2),
                ] + be_u16_bytes(ka2));
                crate::v3::connect_packet::lemma_preamble_split(rem1, Version::V5, f2, ka2);
                assert(g_pn[1] == spec_connect_flags_byte(f2));
                assert(g_lvl[0] == spec_connect_flags_byte(f2));
            }
        }
        let connect_flags = match fr {
            Ok(f) => f,
            Err(e) => {
                return Err(e);
            },
        };
        if !connect_flags.will() && (!matches!(connect_flags.will_qos(), QoS::AtMostOnce)
            || connect_flags.will_retain()) {
            return Err(DecodeError::InvalidConnectFlags);
        }
        if !connect_flags.username() && connect_flags.password() {
            return Err(DecodeError::InvalidConnectFlags);
        }
        let ghost g_flg = ba.spec_remaining();
        proof {
            assert(g_flg =~= g_lvl.skip(1));
        }
        let keep_alive = match U16Data::decode(ba) {
            Ok(v) => v,
            Err(e) => {
                return Err(e);
            },
        };
        proof {
            assert forall|f2: ConnectFlags, ka2: u16|
                #![trigger spec_connect_flags_byte(f2), be_u16_bytes(ka2)]
                crate::utils::spec_prefix(
                    rem1,
                    spec_encode_string("MQTT"@) + seq![5u8, spec_connect_flags_byte(f2)]
                        + be_u16_bytes(ka2),
                ) implies keep_alive@ == ka2 by {
                assert(spec_encode_string("MQTT"@) + seq![5u8, spec_connect_flags_byte(f2)]
                    + be_u16_bytes(ka2) =~= spec_encode_string("MQTT"@) + seq![
                    crate::base::spec_version_value(Version::V5),
                    spec_connect_flags_byte(f2),
                ] + be_u16_bytes(ka2));
                crate::v3::connect_packet::lemma_preamble_split(rem1, Version::V5, f2, ka2);
                assert(g_flg =~= g_pn.skip(2));
                assert(g_flg.take(2)[0] == g_flg[0] && g_flg.take(2)[1] == g_flg[1]);
                crate::data::lemma_be_u16_round_trip(ka2);
                crate::data::lemma_be_u16_round_trip(keep_alive@);
            }
        }
        proof {
            assert(g_pn =~= seq![5u8] + g_lvl);
            assert(g_lvl =~= seq![spec_connect_flags_byte(connect_flags)] + g_flg);
            assert(rem1 =~= spec_encode_string(protocol_name@) + g_pn);
            assert(g_flg =~= be_u16_bytes(keep_alive@) + ba.spec_remaining());
            assert(rem1 =~= spec_encode_string(protocol_name@) + seq![
                5u8,
                spec_connect_flags_byte(connect_flags),
            ] + be_u16_bytes(keep_alive@) + ba.spec_remaining());
        }
        Ok((protocol_name, connect_flags, keep_alive))
    }

    /// Read the variable header, properties and client identifier of an
    /// MQTT 5 CONNECT packet.
    #[verifier::rlimit(100)]
    fn decode_front(ba: &mut ByteArray) -> (r: Result<
        (StringData, ConnectFlags, U16Data, Properties, StringData),
        DecodeError,
    >)
        requires
            old(ba).wf(),
        ensures
            final(ba).wf(),
            final(ba).spec_data() == old(ba).spec_data(),
            r matches Ok((pn, f, ka, props, cid)) ==> {
                &&& old(ba).spec_remaining() == spec_encode_string(pn@) + seq![
                    5u8,
                    spec_connect_flags_byte(f),
                ] + be_u16_bytes(ka@) + spec_encode_property_block(props@) + spec_encode_string(
                    cid@,
                ) + final(ba).spec_remaining()
                &&& pn@ == "MQTT"@
                &&& pn.wf()
                &&& cid.wf()
                &&& (!f.will ==> f.will_qos == QoS::AtMostOnce && !f.will_retain)
                &&& (!f.username ==> !f.password)
                &&& (cid@.len() == 0 ==> f.clean_session)
                &&& spec_props_wf(props@)
                &&& spec_props_legal(props@, spec_connect_allowed())
            },
            forall|q: ConnectPacket|
                #[trigger] spec_body_hyp(old(ba).spec_remaining(), q) ==> (r matches Ok(t5)
                    && t5.1 == q.spec_connect_flags() && t5.2@ == q.spec_keep_alive() && t5.3@
                    == Seq::<Property>::empty() && t5.4@ == q.spec_client_id()
                    && crate::utils::spec_prefix(
                    final(ba).spec_remaining(),
                    spec_connect_tail(q),
                )),
    {
        let ghost rem1 = ba.spec_remaining();
        let pr = Self::decode_preamble(ba);
        proof {
            assert forall|q: ConnectPacket| spec_body_hyp(rem1, q) implies (pr matches Ok(t)
                && t.1 == q.spec_connect_flags() && t.2@ == q.spec_keep_alive()) by {
                lemma_body_preamble(rem1, q);
            }
        }
        let (protocol_name, connect_flags, keep_alive) = match pr {
            Ok(t) => t,
            Err(e) => {
                return Err(e);
            },
        };
        let ghost g_ka = ba.spec_remaining();
        proof {
            assert forall|q: ConnectPacket| spec_body_hyp(rem1, q) implies connect_flags
                == q.spec_connect_flags() && keep_alive@ == q.spec_keep_alive() && g_ka.len() >= 1
                && g_ka[0] == 0 && crate::utils::spec_prefix(
                g_ka.skip(1),
                spec_encode_string(q.spec_client_id()) + spec_connect_tail(q),
            ) by {
                lemma_body_after_preamble(rem1, g_ka, q, protocol_name@);
            }
        }
        let pb = decode_property_block(ba);
        proof {
            assert forall|q: ConnectPacket| spec_body_hyp(rem1, q) implies (pb matches Ok(ps)
                && ps@.len() == 0) by {
            }
        }
        let properties = match pb {
            Ok(ps) => ps,
            Err(e) => {
                return Err(e);
            },
        };
        let allowed = connect_allowed();
        let tl_ok = check_property_type_list(&properties, allowed.as_slice());
        let dup = has_duplicate_property(&properties);
        proof {
            assert forall|q: ConnectPacket| spec_body_hyp(rem1, q) implies tl_ok && !dup by {
                assert(properties@ =~= Seq::<Property>::empty());
            }
        }
        if !tl_ok {
            return Err(DecodeError::InvalidPropertyType);
        }
        if dup {
            return Err(DecodeError::DuplicatedProperty);
        }
        let ghost g_props = ba.spec_remaining();
        proof {
            assert forall|q: ConnectPacket| spec_body_hyp(rem1, q) implies g_props == g_ka.skip(1)
                && crate::utils::spec_prefix(
                g_props,
                spec_encode_string(q.spec_client_id()),
            ) && StringData::spec_decodable(g_props) by {
                assert(properties@ =~= Seq::<Property>::empty());
                assert(spec_encode_props(Seq::<Property>::empty()) =~= Seq::<u8>::empty());
                assert(spec_encode_property_block(properties@) =~= seq![0u8]) by {
                    assert(crate::base::spec_varint_encode(0) =~= seq![0u8]);
                }
                assert(g_props =~= g_ka.skip(1));
                lemma_body_at_cid(g_ka, g_props, q);
            }
        }
        let cr = StringData::decode(ba);
        proof {
            assert forall|q: ConnectPacket| spec_body_hyp(rem1, q) implies (cr matches Ok(d) && d@
                == q.spec_client_id()) by {
                if cr is Ok {
                    assert(crate::utils::spec_prefix(
                        g_props,
                        spec_encode_string((cr->Ok_0)@),
                    )) by {
                        assert(g_props.take(spec_encode_string((cr->Ok_0)@).len() as int)
                            =~= spec_encode_string((cr->Ok_0)@));
                    }
                    crate::data::lemma_string_prefix_deterministic(
                        g_props,
                        (cr->Ok_0)@,
                        q.spec_client_id(),
                    );
                }
            }
        }
        let client_id = match cr {
            Ok(d) => d,
            Err(_) => {
                return Err(DecodeError::InvalidClientId);
            },
        };
        if client_id.is_empty() && !connect_flags.clean_session() {
            proof {
                assert forall|q: ConnectPacket| spec_body_hyp(rem1, q) implies false by {
                    assert(client_id@ == q.spec_client_id());
                    assert(connect_flags == q.spec_connect_flags());
                }
            }
            return Err(DecodeError::InvalidClientId);
        }
        let ghost g_cid = ba.spec_remaining();
        proof {
            assert forall|q: ConnectPacket| spec_body_hyp(rem1, q) implies crate::utils::spec_prefix(
                g_cid,
                spec_connect_tail(q),
            ) by {
                assert(client_id@ == q.spec_client_id());
                assert(g_cid =~= g_props.skip(spec_encode_string(q.spec_client_id()).len() as int));
                lemma_body_at_cid(g_ka, g_props, q);
            }
        }
        Ok((protocol_name, connect_flags, keep_alive, properties, client_id))
    }

    /// Read the variable header and payload of an MQTT 5 CONNECT packet.
    #[verifier::rlimit(100)]
    fn decode_body(ba: &mut ByteArray) -> (r: Result<Self, DecodeError>)
        requires
            old(ba).wf(),
        ensures
            final(ba).wf(),
            final(ba).spec_data() == old(ba).spec_data(),
            r matches Ok(p) ==> spec_connect_body(p) + final(ba).spec_remaining() == old(ba).spec_remaining() && spec_connect_body_wf(p),
            forall|q: ConnectPacket|
                #[trigger] spec_body_hyp(old(ba).spec_remaining(), q) ==> (r matches Ok(p2)
                    && spec_connect_body(p2) == spec_connect_body(q)),
    {
        let ghost rem1 = ba.spec_remaining();
        let fr = Self::decode_front(ba);
        proof {
            assert forall|q: ConnectPacket| spec_body_hyp(rem1, q) implies (fr is Ok) by {}
        }
        let (protocol_name, connect_flags, keep_alive, properties, client_id) = match fr {
            Ok(t) => t,
            Err(e) => {
                return Err(e);
            },
        };
        let ghost g_cid = ba.spec_remaining();
        proof {
            assert forall|q: ConnectPacket| spec_body_hyp(rem1, q) implies spec_tail_hyp(g_cid, q)
                && q.spec_connect_flags() == connect_flags by {
            }
        }
        let tr = Self::decode_payload_tail(ba, &connect_flags);
        proof {
            assert forall|q: ConnectPacket| spec_body_hyp(rem1, q) implies (tr matches Ok(t5)
                && spec_tail_bytes(t5, connect_flags) == spec_connect_tail(q)) by {
            }
        }
        let (will_properties, will_topic, will_message, username, password) = match tr {
            Ok(t) => t,
            Err(e) => {
                return Err(e);
            },
        };
        let p = ConnectPacket {
            protocol_name,
            connect_flags,
            keep_alive,
            properties,
            client_id,
            will_properties,
            will_topic,
            will_message,
            username,
            password,
        };
        proof {
            assert(rem1 =~= spec_connect_body(p) + ba.spec_remaining());
            assert(spec_encode_props(Seq::<Property>::empty()) =~= Seq::<u8>::empty());
            assert forall|q: ConnectPacket| spec_body_hyp(rem1, q) implies spec_connect_body(p)
                == spec_connect_body(q) by {
                assert(spec_tail_bytes(
                    (will_properties, will_topic, will_message, username, password),
                    connect_flags,
                ) == spec_connect_tail(q));
                assert(spec_connect_tail(p) =~= spec_tail_bytes(
                    (will_properties, will_topic, will_message, username, password),
                    connect_flags,
                ));
                assert(spec_encode_property_block(p.spec_properties())
                    == spec_encode_property_block(q.spec_properties())) by {
                    assert(properties@ =~= Seq::<Property>::empty());
                    assert(q.spec_properties() =~= Seq::<Property>::empty());
                }
                lemma_body_pieces_equal(p, q);
            }
        }
        Ok(p)
    }

    /// Read the will block, username and password that the connect flags
    /// announce.
    #[verifier::rlimit(100)]
    fn decode_payload_tail(ba: &mut ByteArray, connect_flags: &ConnectFlags) -> (r: Result<
        (Properties, Option<StringData>, BinaryData, StringData, BinaryData),
        DecodeError,
    >)
        requires
            old(ba).wf(),
        ensures
            final(ba).wf(),
            final(ba).spec_data() == old(ba).spec_data(),
            r matches Ok((will_properties, will_topic, will_message, username, password)) ==> {
                &&& old(ba).spec_remaining() == (if connect_flags.will {
                    spec_encode_property_block(will_properties@) + spec_encode_string(
                        will_topic.unwrap()@,
                    ) + spec_encode_binary(will_message@)
                } else {
                    Seq::<u8>::empty()
                }) + (if connect_flags.username {
                    spec_encode_string(username@)
                } else {
                    Seq::<u8>::empty()
                }) + (if connect_flags.password {
                    spec_encode_binary(password@)
                } else {
                    Seq::<u8>::empty()
                }) + final(ba).spec_remaining()
                &&& (connect_flags.will ==> (will_topic matches Some(t) && t.wf()
                    && spec_valid_pub_topic(t@)))
                &&& (!connect_flags.will ==> will_topic is None && will_message@
                    == Seq::<u8>::empty() && will_properties@ == Seq::<Property>::empty())
                &&& spec_props_wf(will_properties@)
                &&& spec_props_legal(will_properties@, spec_connect_will_allowed())
                &&& will_message.wf()
                &&& username.wf()
                &&& password.wf()
                &&& (!connect_flags.username ==> username@ == Seq::<char>::empty())
                &&& (!connect_flags.password ==> password@ == Seq::<u8>::empty())
            },
            forall|p: ConnectPacket|
                #[trigger] spec_tail_hyp(old(ba).spec_remaining(), p) && p.spec_connect_flags()
                    == *connect_flags ==> (r matches Ok(t5) && spec_tail_bytes(
                    t5,
                    *connect_flags,
                ) == spec_connect_tail(p)),
    {
        let ghost rem0 = old(ba).spec_remaining();
        let mut will_properties: Properties = Vec::new();
        let mut will_topic: Option<StringData> = None;
        let mut will_message = BinaryData::new();
        if connect_flags.will() {
            proof {
                assert forall|p: ConnectPacket|
                    spec_tail_hyp(rem0, p) && p.spec_connect_flags()
                        == *connect_flags implies rem0.len() >= 1 && rem0[0] == 0 by {
                    lemma_tail_split(rem0, p);
                }
            }
            will_properties = match decode_property_block(ba) {
                Ok(ps) => ps,
                Err(e) => {
                    return Err(e);
                },
            };
            let wallowed = connect_will_allowed();
            let tl_ok = check_property_type_list(&will_properties, wallowed.as_slice());
            let dup = has_duplicate_property(&will_properties);
            proof {
                assert forall|p: ConnectPacket|
                    spec_tail_hyp(rem0, p) && p.spec_connect_flags() == *connect_flags implies
                    will_properties@.len() == 0 && tl_ok && !dup by {
                    lemma_tail_split(rem0, p);
                }
            }
            if !tl_ok {
                return Err(DecodeError::InvalidPropertyType);
            }
            if dup {
                return Err(DecodeError::DuplicatedProperty);
            }
            let ghost g_pb = ba.spec_remaining();
            proof {
                assert forall|p: ConnectPacket|
                    spec_tail_hyp(rem0, p) && p.spec_connect_flags() == *connect_flags implies
                    g_pb == rem0.skip(1) && crate::utils::spec_prefix(
                    g_pb,
                    spec_encode_string(p.spec_will_topic().unwrap()),
                ) && StringData::spec_decodable(g_pb) by {
                    lemma_tail_split(rem0, p);
                    assert(spec_encode_property_block(will_properties@) =~= seq![0u8]) by {
                        assert(will_properties@ =~= Seq::<Property>::empty());
                        assert(spec_encode_props(Seq::<Property>::empty()) =~= Seq::<u8>::empty());
                        assert(crate::base::spec_varint_encode(0) =~= seq![0u8]);
                    }
                    assert(g_pb =~= rem0.skip(1));
                    crate::data::lemma_string_prefix_decodable(
                        g_pb,
                        p.spec_will_topic().unwrap(),
                    );
                }
            }
            let t = match StringData::decode(ba) {
                Ok(d) => d,
                Err(e) => {
                    return Err(e);
                },
            };
            let vr = Topic::validate_pub_topic(t.as_str());
            proof {
                assert forall|p: ConnectPacket|
                    spec_tail_hyp(rem0, p) && p.spec_connect_flags() == *connect_flags implies t@
                    == p.spec_will_topic().unwrap() && vr is Ok by {
                    lemma_tail_split(rem0, p);
                    assert(g_pb =~= rem0.skip(1));
                    assert(crate::utils::spec_prefix(g_pb, spec_encode_string(t@))) by {
                        assert(g_pb.take(spec_encode_string(t@).len() as int)
                            =~= spec_encode_string(t@));
                    }
                    crate::data::lemma_string_prefix_deterministic(
                        g_pb,
                        t@,
                        p.spec_will_topic().unwrap(),
                    );
                }
            }
            if vr.is_err() {
                return Err(DecodeError::InvalidTopic);
            }
            will_topic = Some(t);
            let ghost g_wt = ba.spec_remaining();
            proof {
                assert forall|p: ConnectPacket|
                    spec_tail_hyp(rem0, p) && p.spec_connect_flags() == *connect_flags implies
                    BinaryData::spec_decodable(g_wt) by {
                    lemma_tail_split(rem0, p);
                    assert(g_pb =~= rem0.skip(1));
                    assert(crate::utils::spec_prefix(g_pb, spec_encode_string(t@))) by {
                        assert(g_pb.take(spec_encode_string(t@).len() as int)
                            =~= spec_encode_string(t@));
                    }
                    crate::data::lemma_string_prefix_deterministic(
                        g_pb,
                        t@,
                        p.spec_will_topic().unwrap(),
                    );
                    assert(g_wt =~= rem0.skip(spec_encode_string(
                        p.spec_will_topic().unwrap(),
                    ).len() as int + 1));
                    crate::utils::lemma_prefix_of_concat(
                        g_wt,
                        spec_encode_binary(p.spec_will_message()),
                        spec_user_pass_bytes(p),
                    );
                    crate::data::lemma_binary_prefix_decodable(g_wt, p.spec_will_message());
                }
            }
            will_message = match BinaryData::decode(ba) {
                Ok(d) => d,
                Err(e) => {
                    return Err(e);
                },
            };
            proof {
                assert forall|p: ConnectPacket|
                    spec_tail_hyp(rem0, p) && p.spec_connect_flags() == *connect_flags implies
                    will_message@ == p.spec_will_message() && crate::utils::spec_prefix(
                    ba.spec_remaining(),
                    spec_user_pass_bytes(p),
                ) by {
                    lemma_tail_split(rem0, p);
                    assert(g_pb =~= rem0.skip(1));
                    assert(crate::utils::spec_prefix(g_pb, spec_encode_string(t@))) by {
                        assert(g_pb.take(spec_encode_string(t@).len() as int)
                            =~= spec_encode_string(t@));
                    }
                    crate::data::lemma_string_prefix_deterministic(
                        g_pb,
                        t@,
                        p.spec_will_topic().unwrap(),
                    );
                    assert(g_wt =~= rem0.skip(spec_encode_string(
                        p.spec_will_topic().unwrap(),
                    ).len() as int + 1));
                    crate::utils::lemma_prefix_of_concat(
                        g_wt,
                        spec_encode_binary(p.spec_will_message()),
                        spec_user_pass_bytes(p),
                    );
                    assert(crate::utils::spec_prefix(g_wt, spec_encode_binary(will_message@)))
                        by {
                        assert(g_wt.take(spec_encode_binary(will_message@).len() as int)
                            =~= spec_encode_binary(will_message@));
                    }
                    crate::data::lemma_binary_prefix_deterministic(
                        g_wt,
                        will_message@,
                        p.spec_will_message(),
                    );
                    assert(ba.spec_remaining() =~= g_wt.skip(spec_encode_binary(
                        will_message@,
                    ).len() as int));
                }
            }
        }
        let ghost g_will = ba.spec_remaining();
        proof {
            assert forall|p: ConnectPacket|
                spec_tail_hyp(rem0, p) && p.spec_connect_flags() == *connect_flags implies
                crate::utils::spec_prefix(g_will, spec_user_pass_bytes(p)) && (
            connect_flags.will ==> spec_encode_property_block(will_properties@)
                + spec_encode_string(will_topic.unwrap()@) + spec_encode_binary(will_message@)
                == spec_encode_property_block(p.spec_will_properties()) + spec_encode_string(
                p.spec_will_topic().unwrap(),
            ) + spec_encode_binary(p.spec_will_message())) by {
                lemma_tail_split(rem0, p);
                if !p.spec_connect_flags().will {
                    assert(g_will =~= rem0);
                } else {
                    assert(will_message@ == p.spec_will_message());
                    assert(will_topic.unwrap()@ == p.spec_will_topic().unwrap());
                    assert(crate::utils::spec_prefix(g_will, spec_user_pass_bytes(p)));
                    assert(will_properties@ =~= Seq::<Property>::empty());
                    assert(spec_encode_props(Seq::<Property>::empty()) =~= Seq::<u8>::empty());
                    assert(spec_encode_property_block(will_properties@) =~= seq![0u8]);
                    assert(spec_encode_property_block(p.spec_will_properties()) =~= seq![0u8])
                        by {
                        assert(p.spec_will_properties() =~= Seq::<Property>::empty());
                        assert(crate::base::spec_varint_encode(0) =~= seq![0u8]);
                    }
                }
            }
        }
        let username = if connect_flags.username() {
            proof {
                assert forall|p: ConnectPacket|
                    spec_tail_hyp(rem0, p) && p.spec_connect_flags() == *connect_flags implies
                    StringData::spec_decodable(g_will) by {
                    crate::utils::lemma_prefix_of_concat(
                        g_will,
                        (if p.spec_connect_flags().username {
                            spec_encode_string(p.spec_username())
                        } else {
                            Seq::<u8>::empty()
                        }),
                        (if p.spec_connect_flags().password {
                            spec_encode_binary(p.spec_password())
                        } else {
                            Seq::<u8>::empty()
                        }),
                    );
                    crate::data::lemma_string_prefix_decodable(g_will, p.spec_username());
                }
            }
            match StringData::decode(ba) {
                Ok(d) => d,
                Err(e) => {
                    return Err(e);
                },
            }
        } else {
            StringData::new()
        };
        let ghost g_user = ba.spec_remaining();
        proof {
            assert forall|p: ConnectPacket|
                spec_tail_hyp(rem0, p) && p.spec_connect_flags() == *connect_flags implies
                crate::utils::spec_prefix(
                g_user,
                (if p.spec_connect_flags().password {
                    spec_encode_binary(p.spec_password())
                } else {
                    Seq::<u8>::empty()
                }),
            ) && (p.spec_connect_flags().username ==> username@ == p.spec_username()) by {
                crate::utils::lemma_prefix_of_concat(
                    g_will,
                    (if p.spec_connect_flags().username {
                        spec_encode_string(p.spec_username())
                    } else {
                        Seq::<u8>::empty()
                    }),
                    (if p.spec_connect_flags().password {
                        spec_encode_binary(p.spec_password())
                    } else {
                        Seq::<u8>::empty()
                    }),
                );
                if p.spec_connect_flags().username {
                    assert(crate::utils::spec_prefix(g_will, spec_encode_string(username@))) by {
                        assert(g_will.take(spec_encode_string(username@).len() as int)
                            =~= spec_encode_string(username@));
                    }
                    crate::data::lemma_string_prefix_deterministic(
                        g_will,
                        username@,
                        p.spec_username(),
                    );
                    assert(g_user =~= g_will.skip(spec_encode_string(username@).len() as int));
                } else {
                    assert(g_user =~= g_will);
                }
            }
        }
        let password = if connect_flags.password() {
            proof {
                assert forall|p: ConnectPacket|
                    spec_tail_hyp(rem0, p) && p.spec_connect_flags() == *connect_flags implies
                    BinaryData::spec_decodable(g_user) by {
                    crate::data::lemma_binary_prefix_decodable(g_user, p.spec_password());
                }
            }
            match BinaryData::decode(ba) {
                Ok(d) => d,
                Err(e) => {
                    return Err(e);
                },
            }
        } else {
            BinaryData::new()
        };
        proof {
            assert(spec_encode_props(Seq::<Property>::empty()) =~= Seq::<u8>::empty());
            assert(old(ba).spec_remaining() =~= (if connect_flags.will {
                spec_encode_property_block(will_properties@) + spec_encode_string(
                    will_topic.unwrap()@,
                ) + spec_encode_binary(will_message@)
            } else {
                Seq::<u8>::empty()
            }) + (if connect_flags.username {
                spec_encode_string(username@)
            } else {
                Seq::<u8>::empty()
            }) + (if connect_flags.password {
                spec_encode_binary(password@)
            } else {
                Seq::<u8>::empty()
            }) + ba.spec_remaining());
            let t5 = (will_properties, will_topic, will_message, username, password);
            assert forall|p: ConnectPacket|
                spec_tail_hyp(rem0, p) && p.spec_connect_flags() == *connect_flags implies
                spec_tail_bytes(t5, *connect_flags) == spec_connect_tail(p) by {
                if p.spec_connect_flags().username {
                    assert(username@ == p.spec_username());
                }
                if p.spec_connect_flags().password {
                    assert(crate::utils::spec_prefix(g_user, spec_encode_binary(password@))) by {
                        assert(g_user.take(spec_encode_binary(password@).len() as int)
                            =~= spec_encode_binary(password@));
                    }
                    crate::data::lemma_binary_prefix_deterministic(
                        g_user,
                        password@,
                        p.spec_password(),
                    );
                }
                assert(spec_tail_bytes(t5, *connect_flags) =~= spec_connect_tail(p));
            }
        }
        Ok((will_properties, will_topic, will_message, username, password))
    }

    /// The fixed header an MQTT 5 CONNECT packet encodes under.
    pub open spec fn spec_header(p: ConnectPacket) -> FixedHeader {
        FixedHeader {
            packet_type: PacketType::ConnectCmd,
            packet_flags: crate::base::PacketFlags::Reserved,
            remaining_length: spec_connect_body(p).len() as u32,
        }
    }

    /// Read an MQTT 5 CONNECT packet from the cursor, checking the
    /// protocol name and level, the flag rules, the property whitelists,
    /// and that the body fills the announced remaining length exactly.  A
    /// buffer that begins with the bytes of a well-formed packet carrying
    /// empty property lists is always accepted.
    #[verifier::rlimit(100)]
    pub fn decode(ba: &mut ByteArray) -> (r: Result<Self, DecodeError>)
        requires
            old(ba).wf(),
        ensures
            final(ba).wf(),
            final(ba).spec_data() == old(ba).spec_data(),
            r matches Ok(p) ==> p.wf() && old(ba).spec_remaining() == spec_encode_connect(p)
                + final(ba).spec_remaining(),
            forall|q: ConnectPacket|
                q.wf() && q.spec_properties().len() == 0 && q.spec_will_properties().len() == 0
                    && crate::utils::spec_prefix(
                    old(ba).spec_remaining(),
                    #[trigger] spec_encode_connect(q),
                ) ==> r is Ok,
            (forall|h: FixedHeader|
                crate::base::spec_header_prefix(old(ba).spec_remaining(), h) && h.packet_type
                    != PacketType::ConnectCmd ==> r == Err::<ConnectPacket, DecodeError>(
                    DecodeError::InvalidPacketType,
                )),
    {
        let ghost rem0 = old(ba).spec_remaining();
        let fixed_header = match FixedHeader::decode(ba) {
            Ok(h) => h,
            Err(e) => {
                proof {
                    assert forall|q: ConnectPacket|
                        q.wf() && q.spec_properties().len() == 0
                            && q.spec_will_properties().len() == 0 && crate::utils::spec_prefix(
                            rem0,
                            #[trigger] spec_encode_connect(q),
                        ) implies false by {
                        lemma_connect_prefix_header(rem0, q);
                    }
                }
                return Err(e);
            },
        };
        proof {
            assert(rem0.take(spec_encode_fixed_header(fixed_header).len() as int)
                =~= spec_encode_fixed_header(fixed_header));
            assert(crate::base::spec_header_prefix(rem0, fixed_header));
            assert forall|h: FixedHeader|
                crate::base::spec_header_prefix(rem0, h) implies h == fixed_header by {
                crate::base::lemma_header_prefix_deterministic(rem0, h, fixed_header);
            }
        }
        if !matches!(fixed_header.packet_type, PacketType::ConnectCmd) {
            proof {
                assert forall|q: ConnectPacket|
                    q.wf() && q.spec_properties().len() == 0 && q.spec_will_properties().len()
                        == 0 && crate::utils::spec_prefix(
                        rem0,
                        #[trigger] spec_encode_connect(q),
                    ) implies false by {
                    lemma_connect_prefix_header(rem0, q);
                }
            }
            return Err(DecodeError::InvalidPacketType);
        }
        let before = ba.remaining_bytes();
        let ghost rem1 = ba.spec_remaining();
        proof {
            assert(rem1 =~= rem0.skip(spec_encode_fixed_header(fixed_header).len() as int));
            assert forall|q: ConnectPacket|
                q.wf() && q.spec_properties().len() == 0 && q.spec_will_properties().len() == 0
                    && crate::utils::spec_prefix(
                    rem0,
                    #[trigger] spec_encode_connect(q),
                ) implies spec_body_hyp(rem1, q) && fixed_header == Self::spec_header(q) by {
                lemma_connect_prefix_header(rem0, q);
                crate::base::lemma_header_prefix_deterministic(
                    rem0,
                    fixed_header,
                    Self::spec_header(q),
                );
            }
        }
        let p = match Self::decode_body(ba) {
            Ok(p) => p,
            Err(e) => {
                return Err(e);
            },
        };
        let consumed = before - ba.remaining_bytes();
        if consumed != fixed_header.remaining_length as usize {
            proof {
                assert forall|q: ConnectPacket|
                    q.wf() && q.spec_properties().len() == 0 && q.spec_will_properties().len()
                        == 0 && crate::utils::spec_prefix(
                        rem0,
                        #[trigger] spec_encode_connect(q),
                    ) implies false by {
                    assert(spec_connect_body(p).len() == consumed);
                    assert(spec_connect_body(p) == spec_connect_body(q));
                }
            }
            return Err(DecodeError::InvalidRemainingLength);
        }
        proof {
            assert(spec_connect_body(p).len() == consumed);
            assert(spec_encode_props(Seq::<Property>::empty()) =~= Seq::<u8>::empty());
            assert(spec_encode_property_block(p.spec_properties()).len() <= spec_connect_body(
                p,
            ).len());
            assert(spec_encode_props(p.spec_properties()).len() <= spec_encode_property_block(
                p.spec_properties(),
            ).len());
            if p.spec_connect_flags().will {
                assert(spec_encode_property_block(p.spec_will_properties()).len()
                    <= spec_connect_body(p).len());
                assert(spec_encode_props(p.spec_will_properties()).len()
                    <= spec_encode_property_block(p.spec_will_properties()).len());
            }
            assert(p.wf());
            assert(old(ba).spec_remaining() =~= spec_encode_connect(p) + ba.spec_remaining());
        }
        Ok(p)
    }
}

/// Split a tail prefix, under an empty will-property list, at the will
/// fields.
proof fn lemma_tail_split(b: Seq<u8>, p: ConnectPacket)
    requires
        spec_tail_hyp(b, p),
    ensures
        p.spec_connect_flags().will ==> b.len() >= 1 && b[0] == 0 && crate::utils::spec_prefix(
            b.skip(1),
            spec_encode_string(p.spec_will_topic().unwrap()),
        ) && crate::utils::spec_prefix(
            b.skip(spec_encode_string(p.spec_will_topic().unwrap()).len() as int + 1),
            spec_encode_binary(p.spec_will_message()) + spec_user_pass_bytes(p),
        ) && crate::utils::valid_mqtt_string_bytes(
            vstd::utf8::encode_utf8(p.spec_will_topic().unwrap()),
        ) && p.spec_will_message().len() <= 65535,
        !p.spec_connect_flags().will ==> crate::utils::spec_prefix(b, spec_user_pass_bytes(p)),
{
    if p.spec_connect_flags().will {
        let wt = spec_encode_string(p.spec_will_topic().unwrap());
        let wm = spec_encode_binary(p.spec_will_message());
        assert(spec_encode_property_block(p.spec_will_properties()) =~= seq![0u8]) by {
            assert(p.spec_will_properties() =~= Seq::<Property>::empty());
            assert(spec_encode_props(Seq::<Property>::empty()) =~= Seq::<u8>::empty());
            assert(crate::base::spec_varint_encode(0) =~= seq![0u8]);
        }
        assert(spec_connect_tail(p) =~= seq![0u8] + (wt + (wm + spec_user_pass_bytes(p))));
        crate::utils::lemma_prefix_of_concat(b, seq![0u8], wt + (wm + spec_user_pass_bytes(p)));
        crate::utils::lemma_prefix_of_concat(b.skip(1), wt, wm + spec_user_pass_bytes(p));
        assert(b.take(1)[0] == b[0]);
        assert(b.skip(1).skip(wt.len() as int) =~= b.skip(wt.len() as int + 1));
    } else {
        assert(spec_connect_tail(p) =~= spec_user_pass_bytes(p));
    }
}

/// The hypothesis under which a CONNECT body must be accepted: a
/// well-formed packet with empty property lists whose body bytes begin
/// the buffer.
pub open spec fn spec_body_hyp(b: Seq<u8>, q: ConnectPacket) -> bool {
    q.wf() && q.spec_properties().len() == 0 && q.spec_will_properties().len() == 0
        && crate::utils::spec_prefix(b, spec_connect_body(q))
}

/// A CONNECT body with an empty property list splits at its preamble, an
/// empty property block, the client identifier and the tail.
proof fn lemma_body_preamble(rem1: Seq<u8>, q: ConnectPacket)
    requires
        spec_body_hyp(rem1, q),
    ensures
        crate::utils::spec_prefix(
            rem1,
            spec_encode_string("MQTT"@) + seq![
                5u8,
                spec_connect_flags_byte(q.spec_connect_flags()),
            ] + be_u16_bytes(q.spec_keep_alive()),
        ),
        crate::utils::spec_prefix(
            rem1.skip((spec_encode_string("MQTT"@) + seq![
                5u8,
                spec_connect_flags_byte(q.spec_connect_flags()),
            ] + be_u16_bytes(q.spec_keep_alive())).len() as int),
            seq![0u8] + (spec_encode_string(q.spec_client_id()) + spec_connect_tail(q)),
        ),
{
    let x = spec_encode_string("MQTT"@) + seq![
        5u8,
        spec_connect_flags_byte(q.spec_connect_flags()),
    ] + be_u16_bytes(q.spec_keep_alive());
    let y = seq![0u8] + (spec_encode_string(q.spec_client_id()) + spec_connect_tail(q));
    assert(spec_encode_property_block(q.spec_properties()) =~= seq![0u8]) by {
        assert(q.spec_properties() =~= Seq::<Property>::empty());
        assert(spec_encode_props(Seq::<Property>::empty()) =~= Seq::<u8>::empty());
        assert(crate::base::spec_varint_encode(0) =~= seq![0u8]);
    }
    assert(spec_connect_body(q) =~= x + y);
    crate::utils::lemma_prefix_of_concat(rem1, x, y);
}

/// Bodies agree when every piece's bytes agree.
#[verifier::rlimit(100)]
proof fn lemma_body_pieces_equal(p: ConnectPacket, q: ConnectPacket)
    requires
        p.spec_protocol_name() == q.spec_protocol_name(),
        p.spec_connect_flags() == q.spec_connect_flags(),
        p.spec_keep_alive() == q.spec_keep_alive(),
        spec_encode_property_block(p.spec_properties()) == spec_encode_property_block(
            q.spec_properties(),
        ),
        p.spec_client_id() == q.spec_client_id(),
        spec_connect_tail(p) == spec_connect_tail(q),
    ensures
        spec_connect_body(p) == spec_connect_body(q),
{
    assert(spec_connect_body(p) =~= spec_encode_string(p.spec_protocol_name()) + seq![
        5u8,
        spec_connect_flags_byte(p.spec_connect_flags()),
    ] + be_u16_bytes(p.spec_keep_alive()) + spec_encode_property_block(p.spec_properties())
        + spec_encode_string(p.spec_client_id()) + spec_connect_tail(p));
    assert(spec_connect_body(q) =~= spec_encode_string(q.spec_protocol_name()) + seq![
        5u8,
        spec_connect_flags_byte(q.spec_connect_flags()),
    ] + be_u16_bytes(q.spec_keep_alive()) + spec_encode_property_block(q.spec_properties())
        + spec_encode_string(q.spec_client_id()) + spec_connect_tail(q));
}

/// After the preamble of a body with empty property lists come the empty
/// property block, the client identifier and the tail.
#[verifier::rlimit(100)]
proof fn lemma_body_after_preamble(rem1: Seq<u8>, g_ka: Seq<u8>, q: ConnectPacket, pn: Seq<char>)
    requires
        spec_body_hyp(rem1, q),
        pn == "MQTT"@,
        rem1 == spec_encode_string(pn) + seq![
            5u8,
            spec_connect_flags_byte(q.spec_connect_flags()),
        ] + be_u16_bytes(q.spec_keep_alive()) + g_ka,
    ensures
        g_ka.len() >= 1 && g_ka[0] == 0,
        crate::utils::spec_prefix(
            g_ka.skip(1),
            spec_encode_string(q.spec_client_id()) + spec_connect_tail(q),
        ),
{
    lemma_body_preamble(rem1, q);
    let x = spec_encode_string("MQTT"@) + seq![
        5u8,
        spec_connect_flags_byte(q.spec_connect_flags()),
    ] + be_u16_bytes(q.spec_keep_alive());
    assert(g_ka =~= rem1.skip(x.len() as int));
    crate::utils::lemma_prefix_of_concat(
        g_ka,
        seq![0u8],
        spec_encode_string(q.spec_client_id()) + spec_connect_tail(q),
    );
    assert(g_ka.take(1)[0] == g_ka[0]);
}

/// A buffer holding the client identifier then the tail splits there.
proof fn lemma_body_at_cid(g_ka: Seq<u8>, g_props: Seq<u8>, q: ConnectPacket)
    requires
        q.wf(),
        g_props == g_ka.skip(1),
        crate::utils::spec_prefix(
            g_ka.skip(1),
            spec_encode_string(q.spec_client_id()) + spec_connect_tail(q),
        ),
    ensures
        crate::utils::spec_prefix(g_props, spec_encode_string(q.spec_client_id())),
        StringData::spec_decodable(g_props),
        crate::utils::spec_prefix(
            g_props.skip(spec_encode_string(q.spec_client_id()).len() as int),
            spec_connect_tail(q),
        ),
{
    crate::utils::lemma_prefix_of_concat(
        g_props,
        spec_encode_string(q.spec_client_id()),
        spec_connect_tail(q),
    );
    crate::data::lemma_string_prefix_decodable(g_props, q.spec_client_id());
}

/// A buffer beginning with a well-formed CONNECT's bytes begins with its
/// header, and its body follows.
proof fn lemma_connect_prefix_header(b: Seq<u8>, q: ConnectPacket)
    requires
        q.wf(),
        crate::utils::spec_prefix(b, spec_encode_connect(q)),
    ensures
        crate::base::spec_header_prefix(b, ConnectPacket::spec_header(q)),
        crate::utils::spec_prefix(
            b.skip(spec_encode_fixed_header(ConnectPacket::spec_header(q)).len() as int),
            spec_connect_body(q),
        ),
{
    let h = ConnectPacket::spec_header(q);
    assert(spec_encode_connect(q) == spec_encode_fixed_header(h) + spec_connect_body(q));
    crate::utils::lemma_prefix_of_concat(b, spec_encode_fixed_header(h), spec_connect_body(q));
    assert(crate::base::spec_fixed_header_wf(h));
}

/// What decoding one body establishes: everything of `wf` except the
/// remaining-length bound, which the caller checks against the header.
pub open spec fn spec_connect_body_wf(p: ConnectPacket) -> bool {
    &&& p.spec_protocol_name() == "MQTT"@
    &&& crate::utils::valid_mqtt_string_bytes(vstd::utf8::encode_utf8(p.spec_protocol_name()))
    &&& crate::utils::valid_mqtt_string_bytes(vstd::utf8::encode_utf8(p.spec_client_id()))
    &&& crate::utils::valid_mqtt_string_bytes(vstd::utf8::encode_utf8(p.spec_username()))
    &&& p.spec_will_message().len() <= 65535
    &&& p.spec_password().len() <= 65535
    &&& spec_props_wf(p.spec_properties())
    &&& spec_props_legal(p.spec_properties(), spec_connect_allowed())
    &&& spec_props_wf(p.spec_will_properties())
    &&& spec_props_legal(p.spec_will_properties(), spec_connect_will_allowed())
    &&& (p.spec_connect_flags().will ==> (p.spec_will_topic() matches Some(t)
        && spec_valid_pub_topic(t) && crate::utils::valid_mqtt_string_bytes(
        vstd::utf8::encode_utf8(t),
    )))
    &&& (!p.spec_connect_flags().will ==> p.spec_will_topic() is None
        && p.spec_connect_flags().will_qos == QoS::AtMostOnce
        && !p.spec_connect_flags().will_retain && p.spec_will_properties().len() == 0)
    &&& (!p.spec_connect_flags().username ==> !p.spec_connect_flags().password)
    &&& (p.spec_client_id().len() == 0 ==> p.spec_connect_flags().clean_session)
}

} // verus!

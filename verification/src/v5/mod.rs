//! MQTT 5 packets: the property machinery and the packets that differ
//! from their 3.1.1 forms.

pub mod connect_packet;
pub mod property;
pub mod publish_ack_packet;
pub mod reason_code;

pub use connect_packet::ConnectPacket;
pub use property::{Properties, Property, PropertyType};
pub use publish_ack_packet::PublishAckPacket;
pub use reason_code::ReasonCode;

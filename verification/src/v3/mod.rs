//! MQTT 3.1.1 packets.

pub mod connect_ack_packet;
pub mod connect_packet;
pub mod disconnect_packet;
pub mod ping_request_packet;
pub mod ping_response_packet;
pub mod publish_ack_packet;
pub mod publish_complete_packet;
pub mod publish_packet;
pub mod publish_received_packet;
pub mod publish_release_packet;
pub mod subscribe_ack_packet;
pub mod subscribe_packet;
pub mod unsubscribe_ack_packet;
pub mod unsubscribe_packet;

pub use connect_ack_packet::{ConnectAckPacket, ConnectReturnCode};
pub use connect_packet::ConnectPacket;
pub use disconnect_packet::DisconnectPacket;
pub use ping_request_packet::PingRequestPacket;
pub use ping_response_packet::PingResponsePacket;
pub use publish_ack_packet::PublishAckPacket;
pub use publish_complete_packet::PublishCompletePacket;
pub use publish_packet::PublishPacket;
pub use publish_received_packet::PublishReceivedPacket;
pub use publish_release_packet::PublishReleasePacket;
pub use subscribe_ack_packet::{SubscribeAck, SubscribeAckPacket};
pub use subscribe_packet::{SubscribePacket, SubscribeTopic};
pub use unsubscribe_ack_packet::UnsubscribeAckPacket;
pub use unsubscribe_packet::UnsubscribePacket;

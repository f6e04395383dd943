//! The message vocabulary of the broker's tasks: what listeners, sessions,
//! the authenticator and the dispatcher say to one another.

use vstd::prelude::*;
use crate::base::{PacketId, QoS};
use crate::session::CachedSession;
use crate::v3::PublishPacket;

verus! {

/// A listener, numbered in the order the configuration binds them.
pub type ListenerId = u32;

/// A session within one listener.
pub type SessionId = u64;

/// A request from a listener to the authenticator.
pub enum ListenerToAuthCmd {
    /// Listener, session, username and password of one CONNECT.
    RequestAuth(ListenerId, SessionId, String, Vec<u8>),
}

/// The authenticator's reply to a listener.
pub enum AuthToListenerCmd {
    /// Session and whether access was granted.
    ResponseAuth(SessionId, bool),
}

/// A command from a listener to one of its sessions.
pub enum ListenerToSessionCmd {
    /// The handshake outcome: accepted, and whether session state was found.
    ConnectAck(bool, bool, Option<CachedSession>),
    /// The outcome of an inbound PUBLISH: identifier, level, accepted.
    PublishAck(PacketId, QoS, bool),
    /// A message to deliver to the client.
    Publish(PublishPacket),
    /// The granted level per filter of one SUBSCRIBE.
    SubscribeAck(PacketId, Vec<QoS>),
    /// Close the connection.
    Disconnect,
}

/// A command from a session to its listener.
pub enum SessionToListenerCmd {
    /// The session's CONNECT: identifier and clean-session flag.
    Connect(SessionId, String, bool),
    /// An inbound PUBLISH to route.
    Publish(SessionId, PublishPacket),
    /// An inbound SUBSCRIBE: identifier, filters with requested levels.
    Subscribe(SessionId, PacketId, Vec<(String, QoS)>),
    /// An inbound UNSUBSCRIBE: identifier, filters.
    Unsubscribe(SessionId, PacketId, Vec<String>),
    /// The session ended.
    Disconnect(SessionId),
}

/// A command from a listener to the dispatcher.
pub enum ListenerToDispatcherCmd {
    /// Look up cached state for a client identifier.
    CheckCachedSession(ListenerId, SessionId, String),
    /// Route one PUBLISH.
    Publish(PublishPacket),
    /// Add subscriptions for a session.
    Subscribe(ListenerId, SessionId, Vec<(String, QoS)>),
    /// Remove subscriptions of a session.
    Unsubscribe(ListenerId, SessionId, Vec<String>),
    /// A session was added.
    SessionAdded(ListenerId),
    /// A session was removed.
    SessionRemoved(ListenerId),
}

/// A command from the dispatcher to a listener.
pub enum DispatcherToListenerCmd {
    /// The cached state found for a session's client identifier.
    CheckCachedSessionResp(SessionId, Option<CachedSession>),
    /// A message to deliver to a session.
    Publish(SessionId, PublishPacket),
    /// The granted level per filter of one SUBSCRIBE.
    SubscribeAck(SessionId, PacketId, Vec<QoS>),
}

/// A command from the dispatcher to the metrics cache.
pub enum DispatcherToMetricsCmd {
    /// Listener added: identifier and bound address.
    ListenerAdded(ListenerId, String),
    /// Listener removed.
    ListenerRemoved(ListenerId),
    /// Sessions on a listener changed to the given count.
    SessionAdded(ListenerId, usize),
    /// Sessions on a listener changed to the given count.
    SessionRemoved(ListenerId, usize),
    /// Subscriptions on a listener changed by the given count.
    SubscriptionsAdded(ListenerId, usize),
    /// Subscriptions on a listener changed by the given count.
    SubscriptionsRemoved(ListenerId, usize),
    /// Publish packets sent: count and bytes.
    PublishPacketSent(ListenerId, usize, usize),
    /// Publish packets received: count and bytes.
    PublishPacketReceived(ListenerId, usize, usize),
}

} // verus!

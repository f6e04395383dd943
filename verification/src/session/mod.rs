//! The per-connection state machine: connection status, the inbound and
//! outbound acknowledgement tables for qualities of service one and two,
//! and the keep-alive timer.

pub mod config;

use vstd::prelude::*;
use crate::base::{PacketId, QoS};
use crate::v3::publish_packet::PublishPacket;
use crate::v3::publish_release_packet::PublishReleasePacket;
use crate::v3::publish_received_packet::PublishReceivedPacket;
use crate::v3::publish_complete_packet::PublishCompletePacket;
pub use config::SessionConfig;

verus! {

/// Where a connection stands in its lifecycle.
#[derive(Debug, Clone, Copy, PartialEq, Eq, Structural)]
pub enum Status {
    /// Waiting for the CONNECT handshake to finish.
    Connecting,
    /// The handshake succeeded; packets flow.
    Connected,
    /// Closed in an orderly way; state may be cached.
    Disconnected,
    /// Closed on an error; nothing is kept.
    Invalid,
}

/// An outbound PUBLISH awaiting its acknowledgement.
#[derive(Debug, Clone, PartialEq, Eq)]
pub struct InflightMessage {
    /// The message as sent, quality of service one or two.
    pub packet: PublishPacket,
    /// For quality of service two: the PUBREC arrived and a PUBCOMP is due.
    pub awaiting_complete: bool,
}

/// A snapshot of a disconnected non-clean session, kept by the dispatcher
/// under the client identifier.
#[derive(Debug, Clone)]
pub struct CachedSession {
    /// The client identifier the snapshot belongs to.
    pub client_id: String,
    /// The subscriptions, each a filter with its granted quality of service.
    pub subscriptions: Vec<(String, QoS)>,
    /// Outbound messages still awaiting acknowledgement.
    pub inflight_out: Vec<InflightMessage>,
    /// Inbound quality-of-service-two packet identifiers awaiting PUBREL.
    pub pub_recv: Vec<PacketId>,
}

/// A snapshot a session may restore: outbound identifiers unique,
/// non-zero and below the identifier ceiling, none at quality of service
/// zero, and inbound identifiers unique.
pub open spec fn spec_cached_sound(c: CachedSession) -> bool {
    &&& forall|i: int, j: int|
        0 <= i < j < c.inflight_out@.len() ==> (
        #[trigger] c.inflight_out@[i]).packet.spec_packet_id() != (
        #[trigger] c.inflight_out@[j]).packet.spec_packet_id()
    &&& forall|i: int|
        0 <= i < c.inflight_out@.len() ==> (
        #[trigger] c.inflight_out@[i]).packet.spec_packet_id() != 0 && c.inflight_out@[
            i
        ].packet.spec_packet_id() < 65535 && !(c.inflight_out@[i].packet.spec_qos() is AtMostOnce)
    &&& forall|i: int, j: int|
        0 <= i < j < c.pub_recv@.len() ==> c.pub_recv@[i] != c.pub_recv@[j]
}

/// One client connection's state.
#[derive(Debug)]
pub struct Session {
    status: Status,
    client_id: String,
    clean_session: bool,
    keep_alive: u16,
    maximum_inflight_messages: usize,
    pub_recv_packets: Vec<PacketId>,
    inflight_out: Vec<InflightMessage>,
    next_packet_id: PacketId,
    last_activity: u64,
}

impl Session {
    /// The connection status.
    pub closed spec fn spec_status(&self) -> Status {
        self.status
    }

    /// The client identifier.
    pub closed spec fn spec_client_id(&self) -> Seq<char> {
        self.client_id@
    }

    /// Whether the client asked for a clean session.
    pub closed spec fn spec_clean_session(&self) -> bool {
        self.clean_session
    }

    /// The keep-alive interval in seconds; zero disables the timer.
    pub closed spec fn spec_keep_alive(&self) -> u16 {
        self.keep_alive
    }

    /// The inbound quality-of-service-two identifiers awaiting PUBREL.
    pub closed spec fn spec_pub_recv(&self) -> Seq<PacketId> {
        self.pub_recv_packets@
    }

    /// The outbound messages awaiting acknowledgement.
    pub closed spec fn spec_inflight(&self) -> Seq<InflightMessage> {
        self.inflight_out@
    }

    /// The next packet identifier to hand out.
    pub closed spec fn spec_next_packet_id(&self) -> PacketId {
        self.next_packet_id
    }

    /// When the session last saw an inbound packet.
    pub closed spec fn spec_last_activity(&self) -> u64 {
        self.last_activity
    }

    /// The cap on the outbound table.
    pub closed spec fn spec_maximum_inflight_messages(&self) -> usize {
        self.maximum_inflight_messages
    }

    /// Identifiers in both tables are unique while in flight, and every
    /// outbound identifier is below the next one to hand out.
    pub open spec fn wf(&self) -> bool {
        &&& forall|i: int, j: int|
            0 <= i < j < self.spec_pub_recv().len() ==> self.spec_pub_recv()[i]
                != self.spec_pub_recv()[j]
        &&& forall|i: int, j: int|
            0 <= i < j < self.spec_inflight().len() ==> (#[trigger] self.spec_inflight()[i]).packet.spec_packet_id() != (
            #[trigger] self.spec_inflight()[j]).packet.spec_packet_id()
        &&& forall|i: int|
            0 <= i < self.spec_inflight().len() ==> (
            #[trigger] self.spec_inflight()[i]).packet.spec_packet_id()
                < self.spec_next_packet_id()
        &&& forall|i: int|
            0 <= i < self.spec_inflight().len() ==> !((
            #[trigger] self.spec_inflight()[i]).packet.spec_qos() is AtMostOnce)
        &&& self.spec_next_packet_id() >= 1
    }

    /// Open a session in the Connecting state.
    pub fn new(client_id: &str, clean_session: bool, keep_alive: u16, config: &SessionConfig) -> (r:
        Session)
        ensures
            r.wf(),
            r.spec_status() == Status::Connecting,
            r.spec_client_id() == client_id@,
            r.spec_clean_session() == clean_session,
            r.spec_keep_alive() == keep_alive,
            r.spec_pub_recv().len() == 0,
            r.spec_inflight().len() == 0,
            r.spec_maximum_inflight_messages() == config.spec_maximum_inflight_messages(),
    {
        Session {
            status: Status::Connecting,
            client_id: client_id.to_owned(),
            clean_session,
            keep_alive,
            maximum_inflight_messages: config.maximum_inflight_messages(),
            pub_recv_packets: Vec::new(),
            inflight_out: Vec::new(),
            next_packet_id: 1,
            last_activity: 0,
        }
    }

    /// The connection status.
    pub fn status(&self) -> (r: Status)
        ensures
            r == self.spec_status(),
    {
        self.status
    }

    /// The client identifier.
    pub fn client_id(&self) -> (r: &str)
        ensures
            r@ == self.spec_client_id(),
    {
        self.client_id.as_str()
    }

    /// Whether the client asked for a clean session.
    pub fn clean_session(&self) -> (r: bool)
        ensures
            r == self.spec_clean_session(),
    {
        self.clean_session
    }

    /// Settle the handshake: an accepted CONNACK connects the session, any
    /// other return code invalidates it.
    pub fn on_connect_ack(&mut self, accepted: bool)
        requires
            old(self).wf(),
        ensures
            final(self).wf(),
            accepted ==> final(self).spec_status() == Status::Connected,
            !accepted ==> final(self).spec_status() == Status::Invalid,
            final(self).spec_pub_recv() == old(self).spec_pub_recv(),
            final(self).spec_inflight() == old(self).spec_inflight(),
            final(self).spec_client_id() == old(self).spec_client_id(),
            final(self).spec_clean_session() == old(self).spec_clean_session(),
    {
        self.status = if accepted {
            Status::Connected
        } else {
            Status::Invalid
        };
        proof {
            assert(self.spec_pub_recv() == old(self).spec_pub_recv());
            assert(self.spec_inflight() == old(self).spec_inflight());
            assert(self.wf());
        }
    }

    /// An orderly close: the session is Disconnected and may be cached.
    pub fn on_disconnect(&mut self)
        requires
            old(self).wf(),
        ensures
            final(self).wf(),
            final(self).spec_status() == Status::Disconnected,
            final(self).spec_pub_recv() == old(self).spec_pub_recv(),
            final(self).spec_inflight() == old(self).spec_inflight(),
            final(self).spec_client_id() == old(self).spec_client_id(),
            final(self).spec_clean_session() == old(self).spec_clean_session(),
    {
        self.status = Status::Disconnected;
        proof {
            assert(self.spec_pub_recv() == old(self).spec_pub_recv());
            assert(self.spec_inflight() == old(self).spec_inflight());
            assert(self.wf());
        }
    }

    /// Note inbound traffic at time `now`, in seconds.
    pub fn touch(&mut self, now: u64)
        requires
            old(self).wf(),
        ensures
            final(self).wf(),
            final(self).spec_last_activity() == now,
            final(self).spec_status() == old(self).spec_status(),
            final(self).spec_pub_recv() == old(self).spec_pub_recv(),
            final(self).spec_inflight() == old(self).spec_inflight(),
    {
        self.last_activity = now;
        proof {
            assert(self.spec_pub_recv() == old(self).spec_pub_recv());
            assert(self.spec_inflight() == old(self).spec_inflight());
            assert(self.wf());
        }
    }

    /// Whether the keep-alive timer has run out at time `now`: one and a
    /// half keep-alive intervals without inbound traffic.  A keep-alive of
    /// zero disables the timer.
    pub fn keepalive_expired(&self, now: u64) -> (r: bool)
        requires
            now >= self.spec_last_activity(),
        ensures
            r == (self.spec_keep_alive() > 0 && now - self.spec_last_activity() >= (3 * (
            self.spec_keep_alive() as int) + 1) / 2),
    {
        if self.keep_alive == 0 {
            return false;
        }
        let threshold: u64 = (3 * (self.keep_alive as u64) + 1) / 2;
        now - self.last_activity >= threshold
    }

    /// Record an inbound quality-of-service-two message and answer with the
    /// PUBREC for it; a repeated identifier is recorded once.
    pub fn on_publish_qos2(&mut self, packet_id: PacketId) -> (r: PublishReceivedPacket)
        requires
            old(self).wf(),
        ensures
            final(self).wf(),
            r.spec_packet_id() == packet_id,
            final(self).spec_pub_recv().contains(packet_id),
            old(self).spec_pub_recv().contains(packet_id) ==> final(self).spec_pub_recv() == old(self).spec_pub_recv(),
            !old(self).spec_pub_recv().contains(packet_id) ==> final(self).spec_pub_recv() == old(self).spec_pub_recv().push(packet_id),
            final(self).spec_inflight() == old(self).spec_inflight(),
            final(self).spec_status() == old(self).spec_status(),
    {
        let mut i: usize = 0;
        let n = self.pub_recv_packets.len();
        while i < n
            invariant
                0 <= i <= n,
                n == self.spec_pub_recv().len(),
                old(self).wf(),
                *self == *old(self),
                forall|j: int| 0 <= j < i ==> self.spec_pub_recv()[j] != packet_id,
            decreases n - i,
        {
            if self.pub_recv_packets[i] == packet_id {
                proof {
                    assert(self.spec_pub_recv().contains(packet_id)) by {
                        assert(self.spec_pub_recv()[i as int] == packet_id);
                    }
                    assert(self.spec_pub_recv() == old(self).spec_pub_recv());
                    assert(self.spec_inflight() == old(self).spec_inflight());
                    assert(self.wf());
                }
                return PublishReceivedPacket::new(packet_id);
            }
            i += 1;
        }
        proof {
            if old(self).spec_pub_recv().contains(packet_id) {
                let j = choose|j: int|
                    0 <= j < old(self).spec_pub_recv().len() && old(self).spec_pub_recv()[j]
                        == packet_id;
                assert(self.spec_pub_recv()[j] != packet_id);
            }
        }
        self.pub_recv_packets.push(packet_id);
        proof {
            assert(self.spec_pub_recv().contains(packet_id)) by {
                assert(self.spec_pub_recv().last() == packet_id);
            }
            assert(self.spec_inflight() == old(self).spec_inflight());
            assert forall|a: int, b: int|
                0 <= a < b < self.spec_pub_recv().len() implies self.spec_pub_recv()[a]
                != self.spec_pub_recv()[b] by {
                if b < self.spec_pub_recv().len() - 1 {
                    assert(old(self).spec_pub_recv()[a] != old(self).spec_pub_recv()[b]);
                } else {
                    assert(old(self).spec_pub_recv()[a] != packet_id);
                }
            }
            assert(self.wf());
        }
        PublishReceivedPacket::new(packet_id)
    }

    /// Settle an inbound quality-of-service-two exchange: on PUBREL, drop
    /// the identifier and answer with the PUBCOMP for it.
    pub fn on_publish_release(&mut self, packet_id: PacketId) -> (r: PublishCompletePacket)
        requires
            old(self).wf(),
        ensures
            final(self).wf(),
            r.spec_packet_id() == packet_id,
            !final(self).spec_pub_recv().contains(packet_id),
            forall|p: PacketId|
                p != packet_id ==> (final(self).spec_pub_recv().contains(p) == old(self).spec_pub_recv().contains(p)),
            old(self).spec_pub_recv().contains(packet_id) ==> final(self).spec_pub_recv().len()
                == old(self).spec_pub_recv().len() - 1,
            !old(self).spec_pub_recv().contains(packet_id) ==> final(self).spec_pub_recv() == old(self).spec_pub_recv(),
            final(self).spec_inflight() == old(self).spec_inflight(),
            final(self).spec_status() == old(self).spec_status(),
    {
        let mut i: usize = 0;
        let n = self.pub_recv_packets.len();
        while i < n
            invariant
                0 <= i <= n,
                n == self.spec_pub_recv().len(),
                old(self).wf(),
                *self == *old(self),
                forall|j: int| 0 <= j < i ==> self.spec_pub_recv()[j] != packet_id,
            decreases n - i,
        {
            if self.pub_recv_packets[i] == packet_id {
                proof {
                    lemma_remove_unique(self.spec_pub_recv(), i as int);
                }
                let _ = self.pub_recv_packets.remove(i);
                proof {
                    assert(self.spec_pub_recv() =~= old(self).spec_pub_recv().remove(i as int));
                    assert(old(self).spec_pub_recv().contains(packet_id)) by {
                        assert(old(self).spec_pub_recv()[i as int] == packet_id);
                    }
                    assert(self.spec_inflight() == old(self).spec_inflight());
                    assert(self.wf());
                }
                return PublishCompletePacket::new(packet_id);
            }
            i += 1;
        }
        proof {
            if self.spec_pub_recv().contains(packet_id) {
                let j = choose|j: int|
                    0 <= j < self.spec_pub_recv().len() && self.spec_pub_recv()[j] == packet_id;
                assert(self.spec_pub_recv()[j] != packet_id);
            }
            assert(self.wf());
        }
        PublishCompletePacket::new(packet_id)
    }

    /// Hand an outbound message to this session for delivery.  A message at
    /// quality of service zero passes through untouched.  One above zero
    /// gets a fresh packet identifier and joins the outbound table, with
    /// the duplicate flag clear; a full table or an exhausted identifier
    /// space refuses the message, which is the session's backpressure.
    pub fn deliver_publish(&mut self, packet: &PublishPacket) -> (r: Result<
        PublishPacket,
        crate::error::Error,
    >)
        requires
            old(self).wf(),
            packet.wf(),
        ensures
            final(self).wf(),
            final(self).spec_pub_recv() == old(self).spec_pub_recv(),
            final(self).spec_status() == old(self).spec_status(),
            packet.spec_qos() is AtMostOnce ==> r is Ok && final(self).spec_inflight() == old(self).spec_inflight(),
            r matches Ok(p) ==> {
                &&& p.spec_topic() == packet.spec_topic()
                &&& p.spec_msg() == packet.spec_msg()
                &&& p.spec_qos() == packet.spec_qos()
                &&& !p.spec_dup()
                &&& p.spec_retain() == packet.spec_retain()
                &&& p.wf()
            },
            !(packet.spec_qos() is AtMostOnce) && r is Ok ==> {
                &&& final(self).spec_inflight().len() == old(self).spec_inflight().len() + 1
                &&& final(self).spec_inflight().last().packet.spec_packet_id() == old(self).spec_next_packet_id()
                &&& !final(self).spec_inflight().last().awaiting_complete
                &&& final(self).spec_inflight().last().packet.spec_topic() == packet.spec_topic()
                &&& final(self).spec_inflight().last().packet.spec_msg() == packet.spec_msg()
                &&& forall|k: int|
                    0 <= k < old(self).spec_inflight().len() ==> final(self).spec_inflight()[k]
                        == old(self).spec_inflight()[k]
            },
            !(packet.spec_qos() is AtMostOnce) && (old(self).spec_inflight().len() >= old(self).spec_maximum_inflight_messages() || old(self).spec_next_packet_id() == 65535)
                ==> r is Err,
            !(packet.spec_qos() is AtMostOnce) && old(self).spec_inflight().len() < old(self).spec_maximum_inflight_messages() && old(self).spec_next_packet_id() < 65535 ==> r
                is Ok,
    {
        let mut out = packet.duplicate();
        if matches!(out.qos(), QoS::AtMostOnce) {
            return Ok(out);
        }
        if self.inflight_out.len() >= self.maximum_inflight_messages {
            return Err(crate::error::Error::new(
                crate::error::ErrorKind::SendError,
                "the outbound table is full",
            ));
        }
        if self.next_packet_id == 65535 {
            return Err(crate::error::Error::new(
                crate::error::ErrorKind::SendError,
                "the packet identifier space is exhausted",
            ));
        }
        let pid = self.next_packet_id;
        self.next_packet_id = self.next_packet_id + 1;
        out.set_packet_id(pid);
        let _ = out.set_dup(false);
        let entry = InflightMessage { packet: out.duplicate(), awaiting_complete: false };
        self.inflight_out.push(entry);
        proof {
            assert(self.spec_pub_recv() == old(self).spec_pub_recv());
            assert forall|a: int, b: int|
                0 <= a < b < self.spec_inflight().len() implies (
            #[trigger] self.spec_inflight()[a]).packet.spec_packet_id() != (
            #[trigger] self.spec_inflight()[b]).packet.spec_packet_id() by {
                if b < self.spec_inflight().len() - 1 {
                    assert(old(self).spec_inflight()[a].packet.spec_packet_id() != old(self).spec_inflight()[b].packet.spec_packet_id());
                } else {
                    assert(old(self).spec_inflight()[a].packet.spec_packet_id() < pid);
                }
            }
            assert(self.wf());
        }
        Ok(out)
    }

    /// Settle a quality-of-service-one delivery: on PUBACK, drop the entry.
    pub fn on_publish_ack(&mut self, packet_id: PacketId)
        requires
            old(self).wf(),
        ensures
            final(self).wf(),
            final(self).spec_pub_recv() == old(self).spec_pub_recv(),
            final(self).spec_status() == old(self).spec_status(),
            forall|k: int|
                0 <= k < final(self).spec_inflight().len() ==> (
                #[trigger] final(self).spec_inflight()[k]).packet.spec_packet_id() != packet_id,
            forall|k: int|
                0 <= k < old(self).spec_inflight().len() && (
                #[trigger] old(self).spec_inflight()[k]).packet.spec_packet_id() != packet_id
                    ==> final(self).spec_inflight().contains(old(self).spec_inflight()[k]),
    {
        self.remove_inflight(packet_id);
    }

    /// Settle a quality-of-service-two delivery: on PUBCOMP, drop the entry.
    pub fn on_publish_complete(&mut self, packet_id: PacketId)
        requires
            old(self).wf(),
        ensures
            final(self).wf(),
            final(self).spec_pub_recv() == old(self).spec_pub_recv(),
            final(self).spec_status() == old(self).spec_status(),
            forall|k: int|
                0 <= k < final(self).spec_inflight().len() ==> (
                #[trigger] final(self).spec_inflight()[k]).packet.spec_packet_id() != packet_id,
    {
        self.remove_inflight(packet_id);
    }

    /// Drop the outbound entry for `packet_id`, if any.
    fn remove_inflight(&mut self, packet_id: PacketId)
        requires
            old(self).wf(),
        ensures
            final(self).wf(),
            final(self).spec_pub_recv() == old(self).spec_pub_recv(),
            final(self).spec_status() == old(self).spec_status(),
            forall|k: int|
                0 <= k < final(self).spec_inflight().len() ==> (
                #[trigger] final(self).spec_inflight()[k]).packet.spec_packet_id() != packet_id,
            forall|k: int|
                0 <= k < old(self).spec_inflight().len() && (
                #[trigger] old(self).spec_inflight()[k]).packet.spec_packet_id() != packet_id
                    ==> final(self).spec_inflight().contains(old(self).spec_inflight()[k]),
    {
        let mut i: usize = 0;
        let n = self.inflight_out.len();
        while i < n
            invariant
                0 <= i <= n,
                n == self.spec_inflight().len(),
                old(self).wf(),
                *self == *old(self),
                forall|j: int|
                    0 <= j < i ==> (#[trigger] self.spec_inflight()[j]).packet.spec_packet_id()
                        != packet_id,
            decreases n - i,
        {
            if self.inflight_out[i].packet.packet_id() == packet_id {
                proof {
                    lemma_remove_unique_inflight(self.spec_inflight(), i as int);
                }
                let _ = self.inflight_out.remove(i);
                proof {
                    assert(self.spec_inflight() =~= old(self).spec_inflight().remove(i as int));
                    assert(self.spec_pub_recv() == old(self).spec_pub_recv());
                    assert(self.wf());
                }
                return ;
            }
            i += 1;
        }
        proof {
            assert(self.wf());
        }
    }

    /// A quality-of-service-two send got its PUBREC: mark the entry as
    /// awaiting PUBCOMP and answer with the PUBREL for it.
    pub fn on_publish_received(&mut self, packet_id: PacketId) -> (r: PublishReleasePacket)
        requires
            old(self).wf(),
        ensures
            final(self).wf(),
            r.spec_packet_id() == packet_id,
            final(self).spec_pub_recv() == old(self).spec_pub_recv(),
            final(self).spec_status() == old(self).spec_status(),
            final(self).spec_inflight().len() == old(self).spec_inflight().len(),
            forall|k: int|
                0 <= k < final(self).spec_inflight().len() ==> {
                    let o = #[trigger] old(self).spec_inflight()[k];
                    let f = final(self).spec_inflight()[k];
                    &&& f.packet == o.packet
                    &&& (o.packet.spec_packet_id() == packet_id ==> f.awaiting_complete)
                    &&& (o.packet.spec_packet_id() != packet_id ==> f.awaiting_complete
                        == o.awaiting_complete)
                },
    {
        let mut i: usize = 0;
        let n = self.inflight_out.len();
        while i < n
            invariant
                0 <= i <= n,
                n == self.spec_inflight().len(),
                old(self).wf(),
                self.spec_pub_recv() == old(self).spec_pub_recv(),
                self.spec_status() == old(self).spec_status(),
                self.spec_next_packet_id() == old(self).spec_next_packet_id(),
                self.spec_inflight().len() == old(self).spec_inflight().len(),
                self.spec_client_id() == old(self).spec_client_id(),
                self.spec_clean_session() == old(self).spec_clean_session(),
                self.spec_keep_alive() == old(self).spec_keep_alive(),
                self.spec_last_activity() == old(self).spec_last_activity(),
                self.spec_maximum_inflight_messages() == old(self).spec_maximum_inflight_messages(),
                forall|k: int|
                    0 <= k < n ==> (#[trigger] self.spec_inflight()[k]).packet == old(self).spec_inflight()[k].packet,
                forall|k: int|
                    0 <= k < i && (#[trigger] old(self).spec_inflight()[k]).packet.spec_packet_id()
                        == packet_id ==> self.spec_inflight()[k].awaiting_complete,
                forall|k: int|
                    0 <= k < n && !(0 <= k < i && (
                    #[trigger] old(self).spec_inflight()[k]).packet.spec_packet_id() == packet_id)
                        ==> self.spec_inflight()[k].awaiting_complete == old(self).spec_inflight()[k].awaiting_complete,
            decreases n - i,
        {
            if self.inflight_out[i].packet.packet_id() == packet_id {
                let e = self.inflight_out.remove(i);
                let e2 = InflightMessage { packet: e.packet, awaiting_complete: true };
                self.inflight_out.insert(i, e2);
                proof {
                    assert(self.spec_inflight() =~= old(self).spec_inflight().update(
                        i as int,
                        InflightMessage {
                            packet: old(self).spec_inflight()[i as int].packet,
                            awaiting_complete: true,
                        },
                    ));
                }
            }
            i += 1;
        }
        proof {
            assert(self.wf());
        }
        PublishReleasePacket::new(packet_id)
    }

    /// Retire this session into a cache snapshot: its acknowledgement
    /// tables together with the subscriptions its listener knows.
    pub fn to_cached(self, subscriptions: Vec<(String, QoS)>) -> (r: CachedSession)
        ensures
            r.client_id@ == self.spec_client_id(),
            r.inflight_out@ == self.spec_inflight(),
            r.pub_recv@ == self.spec_pub_recv(),
            r.subscriptions@ == subscriptions@,
    {
        CachedSession {
            client_id: self.client_id,
            subscriptions,
            inflight_out: self.inflight_out,
            pub_recv: self.pub_recv_packets,
        }
    }

    /// Restore a cache snapshot into this session, after checking that its
    /// tables are sound: identifiers unique, non-zero and below the
    /// identifier ceiling, no entry at quality of service zero.  An
    /// unsound snapshot is refused and the session is left as it was.
    pub fn load_cached(&mut self, cached: CachedSession) -> (r: bool)
        requires
            old(self).wf(),
        ensures
            final(self).wf(),
            final(self).spec_status() == old(self).spec_status(),
            final(self).spec_client_id() == old(self).spec_client_id(),
            final(self).spec_clean_session() == old(self).spec_clean_session(),
            r == spec_cached_sound(cached),
            r ==> final(self).spec_inflight() == cached.inflight_out@ && final(self).spec_pub_recv() == cached.pub_recv@,
            !r ==> final(self).spec_inflight() == old(self).spec_inflight() && final(self).spec_pub_recv() == old(self).spec_pub_recv(),
    {
        let n = cached.inflight_out.len();
        let mut max_pid: PacketId = 0;
        let mut i: usize = 0;
        while i < n
            invariant
                0 <= i <= n,
                n == cached.inflight_out@.len(),
                old(self).wf(),
                *self == *old(self),
                forall|k: int|
                    0 <= k < i ==> (#[trigger] cached.inflight_out@[k]).packet.spec_packet_id()
                        != 0 && !(cached.inflight_out@[k].packet.spec_qos() is AtMostOnce)
                        && cached.inflight_out@[k].packet.spec_packet_id() <= max_pid,
                forall|a: int, b: int|
                    0 <= a < b < i ==> (#[trigger] cached.inflight_out@[a]).packet.spec_packet_id() != (
                    #[trigger] cached.inflight_out@[b]).packet.spec_packet_id(),
                max_pid < 65535,
            decreases n - i,
        {
            let e = &cached.inflight_out[i];
            let pid = e.packet.packet_id();
            if pid == 0 || matches!(e.packet.qos(), QoS::AtMostOnce) || pid == 65535 {
                return false;
            }
            let mut b: usize = 0;
            while b < i
                invariant
                    0 <= b <= i < n,
                    n == cached.inflight_out@.len(),
                    old(self).wf(),
                    *self == *old(self),
                    pid == cached.inflight_out@[i as int].packet.spec_packet_id(),
                    forall|k: int|
                        0 <= k < b ==> (#[trigger] cached.inflight_out@[k]).packet.spec_packet_id()
                            != pid,
                decreases i - b,
            {
                if cached.inflight_out[b].packet.packet_id() == pid {
                    return false;
                }
                b += 1;
            }
            if pid > max_pid {
                max_pid = pid;
            }
            i += 1;
        }
        let m = cached.pub_recv.len();
        let mut j: usize = 0;
        while j < m
            invariant
                0 <= j <= m,
                m == cached.pub_recv@.len(),
                old(self).wf(),
                *self == *old(self),
                forall|a: int, b: int|
                    0 <= a < b < j ==> cached.pub_recv@[a] != cached.pub_recv@[b],
            decreases m - j,
        {
            let pid = cached.pub_recv[j];
            let mut b: usize = 0;
            while b < j
                invariant
                    0 <= b <= j < m,
                    m == cached.pub_recv@.len(),
                    old(self).wf(),
                    *self == *old(self),
                    pid == cached.pub_recv@[j as int],
                    forall|k: int| 0 <= k < b ==> cached.pub_recv@[k] != pid,
                decreases j - b,
            {
                if cached.pub_recv[b] == pid {
                    return false;
                }
                b += 1;
            }
            j += 1;
        }
        self.inflight_out = cached.inflight_out;
        self.pub_recv_packets = cached.pub_recv;
        self.next_packet_id = max_pid + 1;
        proof {
            assert(self.wf());
        }
        true
    }

    /// Every outbound message still awaiting its first acknowledgement,
    /// marked as a duplicate delivery, as sent again after a reconnect.
    pub fn resend_pending(&self) -> (r: Vec<PublishPacket>)
        requires
            self.wf(),
        ensures
            r@.len() == self.spec_inflight().len(),
            forall|k: int|
                0 <= k < r@.len() ==> {
                    let e = #[trigger] self.spec_inflight()[k];
                    &&& r@[k].spec_dup()
                    &&& r@[k].spec_packet_id() == e.packet.spec_packet_id()
                    &&& r@[k].spec_topic() == e.packet.spec_topic()
                    &&& r@[k].spec_msg() == e.packet.spec_msg()
                    &&& r@[k].spec_qos() == e.packet.spec_qos()
                },
    {
        let mut out: Vec<PublishPacket> = Vec::new();
        let mut i: usize = 0;
        let n = self.inflight_out.len();
        while i < n
            invariant
                0 <= i <= n,
                n == self.spec_inflight().len(),
                self.wf(),
                out@.len() == i,
                forall|k: int|
                    0 <= k < i ==> {
                        let e = #[trigger] self.spec_inflight()[k];
                        &&& out@[k].spec_dup()
                        &&& out@[k].spec_packet_id() == e.packet.spec_packet_id()
                        &&& out@[k].spec_topic() == e.packet.spec_topic()
                        &&& out@[k].spec_msg() == e.packet.spec_msg()
                        &&& out@[k].spec_qos() == e.packet.spec_qos()
                    },
            decreases n - i,
        {
            let mut p = self.inflight_out[i].packet.duplicate();
            let _ = p.set_dup(true);
            out.push(p);
            i += 1;
        }
        out
    }
}

/// Removing one position from a table with unique identifiers keeps the
/// rest, still unique and still below the identifier bound.
proof fn lemma_remove_unique_inflight(s: Seq<InflightMessage>, idx: int)
    requires
        0 <= idx < s.len(),
        forall|i: int, j: int|
            0 <= i < j < s.len() ==> (#[trigger] s[i]).packet.spec_packet_id() != (
            #[trigger] s[j]).packet.spec_packet_id(),
    ensures
        s.remove(idx).len() == s.len() - 1,
        forall|k: int|
            0 <= k < s.remove(idx).len() ==> (#[trigger] s.remove(idx)[k]).packet.spec_packet_id()
                != s[idx].packet.spec_packet_id(),
        forall|i: int, j: int|
            0 <= i < j < s.remove(idx).len() ==> (#[trigger] s.remove(idx)[i]).packet.spec_packet_id() != (
            #[trigger] s.remove(idx)[j]).packet.spec_packet_id(),
        forall|k: int| 0 <= k < s.remove(idx).len() ==> s.contains(#[trigger] s.remove(idx)[k]),
        forall|k: int|
            0 <= k < s.len() && k != idx ==> s.remove(idx).contains(#[trigger] s[k]),
{
    let t = s.remove(idx);
    s.remove_ensures(idx);
    assert forall|k: int| 0 <= k < t.len() implies s.contains(#[trigger] t[k]) by {
        if k < idx {
            assert(t[k] == s[k]);
        } else {
            assert(t[k] == s[k + 1]);
        }
    }
    assert forall|k: int| 0 <= k < s.len() && k != idx implies t.contains(#[trigger] s[k]) by {
        if k < idx {
            assert(t[k] == s[k]);
        } else {
            assert(t[k - 1] == s[k]);
        }
    }
    assert forall|k: int| 0 <= k < t.len() implies (#[trigger] t[k]).packet.spec_packet_id()
        != s[idx].packet.spec_packet_id() by {
        if k < idx {
            assert(t[k] == s[k]);
        } else {
            assert(t[k] == s[k + 1]);
        }
    }
    assert forall|i: int, j: int| 0 <= i < j < t.len() implies (
    #[trigger] t[i]).packet.spec_packet_id() != (#[trigger] t[j]).packet.spec_packet_id() by {
        let si: int = if i < idx {
            i
        } else {
            i + 1
        };
        let sj: int = if j < idx {
            j
        } else {
            j + 1
        };
        assert(t[i] == s[si]);
        assert(t[j] == s[sj]);
    }
}



/// Removing one position from a duplicate-free sequence removes exactly
/// that value and keeps the rest, still duplicate-free.
proof fn lemma_remove_unique(s: Seq<PacketId>, idx: int)
    requires
        0 <= idx < s.len(),
        forall|i: int, j: int| 0 <= i < j < s.len() ==> s[i] != s[j],
    ensures
        s.remove(idx).len() == s.len() - 1,
        !s.remove(idx).contains(s[idx]),
        forall|q: PacketId| q != s[idx] ==> (s.remove(idx).contains(q) == s.contains(q)),
        forall|i: int, j: int|
            0 <= i < j < s.remove(idx).len() ==> s.remove(idx)[i] != s.remove(idx)[j],
{
    let t = s.remove(idx);
    s.remove_ensures(idx);
    assert forall|i: int| 0 <= i < t.len() implies #[trigger] t[i] == (if i < idx {
        s[i]
    } else {
        s[i + 1]
    }) by {}
    if t.contains(s[idx]) {
        let k = choose|k: int| 0 <= k < t.len() && t[k] == s[idx];
        if k < idx {
            assert(s[k] == s[idx]);
        } else {
            assert(s[k + 1] == s[idx]);
        }
        assert(false);
    }
    assert forall|q: PacketId| q != s[idx] implies (t.contains(q) == s.contains(q)) by {
        if s.contains(q) {
            let k = choose|k: int| 0 <= k < s.len() && s[k] == q;
            if k < idx {
                assert(t[k] == q);
                assert(t.contains(q));
            } else {
                assert(k != idx);
                assert(t[k - 1] == q);
                assert(t.contains(q));
            }
        }
        if t.contains(q) {
            let k = choose|k: int| 0 <= k < t.len() && t[k] == q;
            if k < idx {
                assert(s[k] == q);
            } else {
                assert(s[k + 1] == q);
            }
            assert(s.contains(q));
        }
    }
}

} // verus!

//! Session and dispatcher behaviour: quality-of-service exchanges,
//! retained messages, takeover and keep-alive.

use hebo::base::QoS;
use hebo::dispatcher::{CachedSessions, ConnectedClients, Dispatcher, Pipeline, SubscribedTopic,
    topic_match};
use hebo::session::{CachedSession, Session, SessionConfig, Status};
use hebo::topic::Topic;
use hebo::v3::PublishPacket;

fn config() -> SessionConfig {
    SessionConfig::new()
}

#[test]
fn session_config_defaults_and_setters() {
    let mut c = SessionConfig::new();
    assert_eq!(c.keep_alive(), 10);
    assert_eq!(c.connect_timeout(), 10);
    assert_eq!(c.maximum_inflight_messages(), 10);
    assert_eq!(c.maximum_packet_size(), 10);
    assert!(!c.allow_empty_client_id());
    c.set_keep_alive(30);
    c.set_connect_timeout(5);
    c.set_maximum_inflight_messages(4);
    c.set_maximum_packet_size(1024);
    c.set_allow_empty_client_id(true);
    assert_eq!(c.keep_alive(), 30);
    assert_eq!(c.connect_timeout(), 5);
    assert_eq!(c.maximum_inflight_messages(), 4);
    assert_eq!(c.maximum_packet_size(), 1024);
    assert!(c.allow_empty_client_id());
}

#[test]
fn session_handshake_states() {
    let cfg = config();
    let mut s = Session::new("c1", true, 10, &cfg);
    assert!(matches!(s.status(), Status::Connecting));
    s.on_connect_ack(true);
    assert!(matches!(s.status(), Status::Connected));
    s.on_disconnect();
    assert!(matches!(s.status(), Status::Disconnected));

    let mut bad = Session::new("c2", true, 10, &cfg);
    bad.on_connect_ack(false);
    assert!(matches!(bad.status(), Status::Invalid));
}

#[test]
fn qos2_round_trip() {
    // An inbound publish with packet identifier 42 at QoS 2: the session
    // answers PUBREC(42); on PUBREL(42) it answers PUBCOMP(42) and the
    // pending set is empty again.
    let cfg = config();
    let mut s = Session::new("b", true, 10, &cfg);
    s.on_connect_ack(true);
    let rec = s.on_publish_qos2(42);
    assert_eq!(rec.packet_id(), 42);
    // A repeated PUBLISH with the same identifier stays recorded once.
    let rec2 = s.on_publish_qos2(42);
    assert_eq!(rec2.packet_id(), 42);
    let comp = s.on_publish_release(42);
    assert_eq!(comp.packet_id(), 42);
    // Releasing again is harmless: the identifier is gone.
    let comp2 = s.on_publish_release(42);
    assert_eq!(comp2.packet_id(), 42);
}

#[test]
fn qos1_resend_carries_dup() {
    // A QoS 1 delivery stays in the outbound table until its PUBACK, and a
    // resend after reconnect carries the duplicate flag.
    let cfg = config();
    let mut s = Session::new("sub", false, 10, &cfg);
    s.on_connect_ack(true);
    let msg = PublishPacket::new("sport/tennis", QoS::AtLeastOnce, b"hi").unwrap();
    let sent = s.deliver_publish(&msg).unwrap();
    assert!(!sent.dup());
    let pid = sent.packet_id();
    assert!(pid != 0);

    let again = s.resend_pending();
    assert_eq!(again.len(), 1);
    assert!(again[0].dup());
    assert_eq!(again[0].packet_id(), pid);
    assert_eq!(again[0].message(), b"hi");

    s.on_publish_ack(pid);
    assert!(s.resend_pending().is_empty());
}

#[test]
fn qos2_outbound_exchange() {
    let cfg = config();
    let mut s = Session::new("sub", false, 10, &cfg);
    s.on_connect_ack(true);
    let msg = PublishPacket::new("t", QoS::ExactOnce, b"x").unwrap();
    let sent = s.deliver_publish(&msg).unwrap();
    let pid = sent.packet_id();
    let rel = s.on_publish_received(pid);
    assert_eq!(rel.packet_id(), pid);
    s.on_publish_complete(pid);
    assert!(s.resend_pending().is_empty());
}

#[test]
fn deliver_backpressure_when_table_full() {
    let mut cfg = config();
    cfg.set_maximum_inflight_messages(1);
    let mut s = Session::new("sub", true, 10, &cfg);
    s.on_connect_ack(true);
    let msg = PublishPacket::new("t", QoS::AtLeastOnce, b"x").unwrap();
    assert!(s.deliver_publish(&msg).is_ok());
    assert!(s.deliver_publish(&msg).is_err());
    // Fire-and-forget messages pass regardless.
    let m0 = PublishPacket::new("t", QoS::AtMostOnce, b"x").unwrap();
    assert!(s.deliver_publish(&m0).is_ok());
}

#[test]
fn keepalive_expiry() {
    // A client with keep-alive ten seconds that stays silent is dropped at
    // the fifteen-second mark, one and a half intervals.
    let cfg = config();
    let mut s = Session::new("c", true, 10, &cfg);
    s.on_connect_ack(true);
    s.touch(100);
    assert!(!s.keepalive_expired(100 + 14));
    assert!(s.keepalive_expired(100 + 15));
    assert!(s.keepalive_expired(100 + 16));

    let mut quiet = Session::new("c", true, 0, &cfg);
    quiet.touch(100);
    assert!(!quiet.keepalive_expired(1_000_000));
}

#[test]
fn simple_pub_sub() {
    // A subscriber on sport/tennis receives a publish on that topic with
    // the duplicate and retain flags clear.
    let mut d = Dispatcher::new();
    d.subscribe(1, "sport/tennis", QoS::AtMostOnce).unwrap();
    let msg = PublishPacket::new("sport/tennis", QoS::AtMostOnce, b"hi").unwrap();
    let out = d.on_publish(&msg);
    assert_eq!(out.len(), 1);
    assert_eq!(out[0].0, 1);
    assert_eq!(out[0].1.topic(), "sport/tennis");
    assert_eq!(out[0].1.message(), b"hi");
    assert!(!out[0].1.dup());
    assert!(!out[0].1.retain());
}

#[test]
fn delivered_qos_is_the_weaker() {
    let mut d = Dispatcher::new();
    d.subscribe(1, "t", QoS::AtLeastOnce).unwrap();
    d.subscribe(2, "t", QoS::ExactOnce).unwrap();
    let mut msg = PublishPacket::new("t", QoS::ExactOnce, b"x").unwrap();
    msg.set_packet_id(5);
    let out = d.on_publish(&msg);
    assert_eq!(out.len(), 2);
    assert!(matches!(out[0].1.qos(), QoS::AtLeastOnce));
    assert!(matches!(out[1].1.qos(), QoS::ExactOnce));
}

#[test]
fn retained_store_and_delete() {
    // A retained publish is handed to a later subscriber; an empty retained
    // publish deletes it and the next subscriber gets nothing.
    let mut d = Dispatcher::new();
    let mut keep = PublishPacket::new("r", QoS::AtMostOnce, b"keep").unwrap();
    keep.set_retain(true);
    d.on_publish(&keep);

    let first = d.subscribe_with_retained(1, "r", QoS::AtMostOnce).unwrap();
    assert_eq!(first.len(), 1);
    assert_eq!(first[0].topic(), "r");
    assert_eq!(first[0].message(), b"keep");
    assert!(first[0].retain());

    let mut delete = PublishPacket::new("r", QoS::AtMostOnce, b"").unwrap();
    delete.set_retain(true);
    d.on_publish(&delete);

    let second = d.subscribe_with_retained(2, "r", QoS::AtMostOnce).unwrap();
    assert!(second.is_empty());
}

#[test]
fn retained_delivery_downgrades_qos() {
    let mut d = Dispatcher::new();
    let mut keep = PublishPacket::new("r", QoS::ExactOnce, b"keep").unwrap();
    keep.set_packet_id(3);
    keep.set_retain(true);
    d.on_publish(&keep);
    let out = d.subscribe_with_retained(1, "r", QoS::AtLeastOnce).unwrap();
    assert_eq!(out.len(), 1);
    assert!(matches!(out[0].qos(), QoS::AtLeastOnce));
}

#[test]
fn wildcard_sys_exclusion() {
    // A subscriber on the bare wildcard receives nothing for an internal
    // topic; one on the internal namespace does.
    let mut d = Dispatcher::new();
    d.subscribe(1, "#", QoS::AtMostOnce).unwrap();
    let msg = PublishPacket::new("$SYS/uptime", QoS::AtMostOnce, b"42").unwrap();
    let out = d.on_publish(&msg);
    assert!(out.is_empty());

    d.subscribe(1, "$SYS/#", QoS::AtMostOnce).unwrap();
    let out = d.on_publish(&msg);
    assert_eq!(out.len(), 1);
}

#[test]
fn unsubscribe_and_session_removal() {
    let mut d = Dispatcher::new();
    d.subscribe(1, "a", QoS::AtMostOnce).unwrap();
    d.subscribe(1, "b", QoS::AtMostOnce).unwrap();
    d.subscribe(2, "a", QoS::AtMostOnce).unwrap();
    let msg = PublishPacket::new("a", QoS::AtMostOnce, b"x").unwrap();
    assert_eq!(d.on_publish(&msg).len(), 2);
    d.unsubscribe(1, "a");
    assert_eq!(d.on_publish(&msg).len(), 1);
    d.session_removed(2);
    assert!(d.on_publish(&msg).is_empty());
    let b = PublishPacket::new("b", QoS::AtMostOnce, b"x").unwrap();
    assert_eq!(d.on_publish(&b).len(), 1);
}

#[test]
fn takeover_evicts_older_connection() {
    // Two CONNECTs under the same client identifier: the second evicts the
    // first, and a non-clean session's cached state is handed back.
    let mut reg = ConnectedClients::new();
    assert!(reg.on_connect("c1", 1).is_none());
    let evicted = reg.on_connect("c1", 2);
    assert_eq!(evicted, Some(1));
    assert!(reg.on_connect("other", 3).is_none());
    assert_eq!(reg.remove_client("c1"), Some(2));
    assert!(reg.remove_client("c1").is_none());
}

#[test]
fn cached_session_restores_state() {
    let mut cache = CachedSessions::new();
    let snapshot = CachedSession {
        client_id: String::from("c1"),
        subscriptions: vec![(String::from("sport/tennis"), QoS::AtLeastOnce)],
        inflight_out: Vec::new(),
        pub_recv: Vec::new(),
    };
    cache.store(snapshot);
    // A clean-session connect would discard this; a persistent one takes it.
    let restored = cache.take("c1").unwrap();
    assert_eq!(restored.client_id, "c1");
    assert_eq!(restored.subscriptions.len(), 1);
    assert_eq!(restored.subscriptions[0].0, "sport/tennis");
    // The store hands each snapshot out once.
    assert!(cache.take("c1").is_none());
}

#[test]
fn cached_session_replaced_on_store() {
    let mut cache = CachedSessions::new();
    cache.store(CachedSession {
        client_id: String::from("c1"),
        subscriptions: vec![(String::from("a"), QoS::AtMostOnce)],
        inflight_out: Vec::new(),
        pub_recv: Vec::new(),
    });
    cache.store(CachedSession {
        client_id: String::from("c1"),
        subscriptions: vec![(String::from("b"), QoS::AtMostOnce)],
        inflight_out: Vec::new(),
        pub_recv: Vec::new(),
    });
    let restored = cache.take("c1").unwrap();
    assert_eq!(restored.subscriptions[0].0, "b");
}

#[test]
fn pipeline_topic_match() {
    let mut pipe = Pipeline::new(7);
    pipe.topics.push(SubscribedTopic {
        pattern: Topic::parse("dev/#").unwrap(),
        qos: QoS::AtMostOnce,
    });
    assert!(topic_match(&pipe.topics, "dev/cpu/0"));
    assert!(!topic_match(&pipe.topics, "prod/cpu/0"));
    assert_eq!(pipe.connection_id, 7);
}

#[test]
fn metrics_counters_saturate() {
    let mut m = hebo::metrics::Metrics::new();
    m.add_bytes_in(10);
    m.add_bytes_in(u64::MAX);
    assert_eq!(m.bytes_in, u64::MAX);
    m.add_bytes_out(7);
    assert_eq!(m.bytes_out, 7);
    m.set_uptime(1000, 400);
    assert_eq!(m.uptime, 600);
}

#[test]
fn reconnect_restores_inflight_and_resends_with_dup() {
    // A non-clean subscriber with an unacknowledged QoS 1 delivery
    // reconnects: the restored session re-sends it with the duplicate
    // flag until the PUBACK arrives.
    let cfg = config();
    let mut s = Session::new("c1", false, 10, &cfg);
    s.on_connect_ack(true);
    let msg = PublishPacket::new("sport/tennis", QoS::AtLeastOnce, b"hi").unwrap();
    let sent = s.deliver_publish(&msg).unwrap();
    let pid = sent.packet_id();
    s.on_disconnect();
    let snapshot = s.to_cached(vec![(String::from("sport/tennis"), QoS::AtLeastOnce)]);

    let mut s2 = Session::new("c1", false, 10, &cfg);
    s2.on_connect_ack(true);
    assert!(s2.load_cached(snapshot));
    let resent = s2.resend_pending();
    assert_eq!(resent.len(), 1);
    assert!(resent[0].dup());
    assert_eq!(resent[0].packet_id(), pid);
    s2.on_publish_ack(pid);
    assert!(s2.resend_pending().is_empty());
}

#[test]
fn load_cached_refuses_unsound_snapshot() {
    let cfg = config();
    let mut s = Session::new("c1", false, 10, &cfg);
    s.on_connect_ack(true);
    // Two entries under the same packet identifier are refused.
    let mut donor = Session::new("d", false, 10, &cfg);
    donor.on_connect_ack(true);
    let msg = PublishPacket::new("t", QoS::AtLeastOnce, b"x").unwrap();
    let sent = donor.deliver_publish(&msg).unwrap();
    let entry = hebo::session::InflightMessage {
        packet: sent.duplicate(),
        awaiting_complete: false,
    };
    let twin = hebo::session::InflightMessage {
        packet: sent,
        awaiting_complete: false,
    };
    let bad = CachedSession {
        client_id: String::from("c1"),
        subscriptions: Vec::new(),
        inflight_out: vec![entry, twin],
        pub_recv: Vec::new(),
    };
    assert!(!s.load_cached(bad));
    assert!(s.resend_pending().is_empty());
}

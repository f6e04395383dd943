//! Publish fan-out: the flat subscription table, the retained store and
//! the rules that route one PUBLISH to its subscribers.

use vstd::prelude::*;
use crate::base::QoS;
use crate::topic::{spec_filter_matches, str_eq, Topic};
use crate::v3::publish_packet::PublishPacket;

verus! {

/// A parsed filter with the granted quality of service, as one client
/// subscription holds it.
#[derive(Debug, Clone)]
pub struct SubscribedTopic {
    /// The parsed filter.
    pub pattern: Topic,
    /// The granted quality of service.
    pub qos: QoS,
}

/// Whether any of the given subscriptions matches the topic name.
pub fn topic_match(topics: &[SubscribedTopic], topic_str: &str) -> (r: bool)
    requires
        forall|k: int| 0 <= k < topics@.len() ==> (#[trigger] topics@[k]).pattern.wf(),
    ensures
        r == exists|k: int|
            0 <= k < topics@.len() && spec_filter_matches(
                (#[trigger] topics@[k]).pattern.spec_topic(),
                topic_str@,
            ),
{
    let mut i: usize = 0;
    while i < topics.len()
        invariant
            0 <= i <= topics@.len(),
            forall|k: int| 0 <= k < topics@.len() ==> (#[trigger] topics@[k]).pattern.wf(),
            forall|k: int|
                0 <= k < i ==> !spec_filter_matches(
                    (#[trigger] topics@[k]).pattern.spec_topic(),
                    topic_str@,
                ),
        decreases topics@.len() - i,
    {
        if topics[i].pattern.is_match(topic_str) {
            proof {
                assert(spec_filter_matches(topics@[i as int].pattern.spec_topic(), topic_str@));
            }
            return true;
        }
        i += 1;
    }
    false
}

/// One connection's subscriptions, as a listener-local hub holds them.
#[derive(Debug)]
pub struct Pipeline {
    /// The filters this connection subscribed to.
    pub topics: Vec<SubscribedTopic>,
    /// The connection the subscriptions belong to.
    pub connection_id: u64,
}

impl Pipeline {
    /// A connection with no subscriptions yet.
    pub fn new(connection_id: u64) -> (r: Pipeline)
        ensures
            r.connection_id == connection_id,
            r.topics@.len() == 0,
    {
        Pipeline { topics: Vec::new(), connection_id }
    }
}

/// One entry of the flat subscription table.
#[derive(Debug)]
pub struct Subscription {
    /// The subscribing connection.
    pub connection_id: u64,
    /// The parsed filter.
    pub pattern: Topic,
    /// The granted quality of service.
    pub qos: QoS,
}

/// What the table remembers of one entry: connection, filter, granted QoS.
pub open spec fn spec_sub_view(s: Subscription) -> (u64, Seq<char>, QoS) {
    (s.connection_id, s.pattern.spec_topic(), s.qos)
}

/// The latest retained message of one topic: the PUBLISH as it arrived.
#[derive(Debug)]
pub struct RetainedMessage {
    /// The stored message; its payload is never empty, since an empty
    /// retained publish deletes the entry instead.
    pub packet: PublishPacket,
}

/// The subscriptions among `subs` whose filter matches `topic`.
pub open spec fn spec_matching_subs(
    subs: Seq<(u64, Seq<char>, QoS)>,
    topic: Seq<char>,
) -> Seq<(u64, Seq<char>, QoS)> {
    subs.filter(|s: (u64, Seq<char>, QoS)| spec_filter_matches(s.1, topic))
}

/// The subscription table and retained store, the single routing authority.
#[derive(Debug)]
pub struct Dispatcher {
    subscriptions: Vec<Subscription>,
    retained: Vec<RetainedMessage>,
}

impl Dispatcher {
    /// The subscription table.
    pub closed spec fn spec_subscriptions(&self) -> Seq<(u64, Seq<char>, QoS)> {
        self.subscriptions@.map_values(|s: Subscription| spec_sub_view(s))
    }

    /// The retained store: topic, payload, quality of service.
    pub closed spec fn spec_retained(&self) -> Seq<(Seq<char>, Seq<u8>, QoS)> {
        self.retained@.map_values(
            |r: RetainedMessage| (r.packet.spec_topic(), r.packet.spec_msg(), r.packet.spec_qos()),
        )
    }

    /// Filters are parsed and well-formed; retained topics are unique and
    /// their payloads non-empty.
    pub closed spec fn wf(&self) -> bool {
        &&& forall|k: int|
            0 <= k < self.subscriptions@.len() ==> (
            #[trigger] self.subscriptions@[k]).pattern.wf()
        &&& forall|i: int, j: int|
            0 <= i < j < self.spec_retained().len() ==> (#[trigger] self.spec_retained()[i]).0 != (
            #[trigger] self.spec_retained()[j]).0
        &&& forall|k: int| 0 <= k < self.spec_retained().len() ==> (
        #[trigger] self.spec_retained()[k]).1.len() > 0
        &&& forall|k: int| 0 <= k < self.retained@.len() ==> (
        #[trigger] self.retained@[k]).packet.wf()
    }

    /// Whether a retained message is stored for `topic`.
    pub open spec fn spec_has_retained(&self, topic: Seq<char>) -> bool {
        exists|i: int|
            0 <= i < self.spec_retained().len() && (#[trigger] self.spec_retained()[i]).0 == topic
    }

    /// An empty table and store.
    pub fn new() -> (r: Dispatcher)
        ensures
            r.wf(),
            r.spec_subscriptions().len() == 0,
            r.spec_retained().len() == 0,
    {
        proof {
            assert(Seq::<Subscription>::empty().map_values(|s: Subscription| spec_sub_view(s))
                =~= Seq::<(u64, Seq<char>, QoS)>::empty());
        }
        Dispatcher { subscriptions: Vec::new(), retained: Vec::new() }
    }

    /// Add one subscription to the table.
    pub fn subscribe(&mut self, connection_id: u64, topic_filter: &str, qos: QoS) -> (r: Result<
        (),
        crate::topic::TopicError,
    >)
        requires
            old(self).wf(),
        ensures
            final(self).wf(),
            final(self).spec_retained() == old(self).spec_retained(),
            r is Ok <==> (forall|k: int|
                0 <= k < crate::topic::split_levels(topic_filter@).len()
                    ==> crate::topic::spec_level_parseable(
                    #[trigger] crate::topic::split_levels(topic_filter@)[k],
                )),
            r is Ok ==> final(self).spec_subscriptions() == old(self).spec_subscriptions().push(
                (connection_id, topic_filter@, qos),
            ),
            r is Err ==> final(self).spec_subscriptions() == old(self).spec_subscriptions(),
    {
        let pattern = match Topic::parse(topic_filter) {
            Ok(t) => t,
            Err(e) => {
                return Err(e);
            },
        };
        self.subscriptions.push(Subscription { connection_id, pattern, qos });
        proof {
            assert(self.spec_subscriptions() =~= old(self).spec_subscriptions().push(
                (connection_id, topic_filter@, qos),
            ));
            assert(self.spec_retained() =~= old(self).spec_retained());
            assert forall|k: int|
                0 <= k < self.subscriptions@.len() implies (
            #[trigger] self.subscriptions@[k]).pattern.wf() by {
                if k < self.subscriptions@.len() - 1 {
                    assert(self.subscriptions@[k] == old(self).subscriptions@[k]);
                }
            }
            assert(self.wf());
        }
        Ok(())
    }

    /// Remove every subscription of `connection_id` on `topic_filter`.
    pub fn unsubscribe(&mut self, connection_id: u64, topic_filter: &str)
        requires
            old(self).wf(),
        ensures
            final(self).wf(),
            final(self).spec_retained() == old(self).spec_retained(),
            final(self).spec_subscriptions() == old(self).spec_subscriptions().filter(
                |s: (u64, Seq<char>, QoS)| !(s.0 == connection_id && s.1 == topic_filter@),
            ),
    {
        let ghost keepf = |s: Subscription|
            !(s.connection_id == connection_id && s.pattern.spec_topic() == topic_filter@);
        let mut i: usize = 0;
        let ghost mut j: int = 0int;
        proof {
            reveal(Seq::filter);
            assert(old(self).subscriptions@.take(j).filter(keepf) =~= Seq::<Subscription>::empty());
            assert(self.subscriptions@ =~= old(self).subscriptions@.take(j).filter(keepf) + old(self).subscriptions@.skip(j));
        }
        while i < self.subscriptions.len()
            invariant
                old(self).wf(),
                0 <= j <= old(self).subscriptions@.len(),
                i == old(self).subscriptions@.take(j).filter(keepf).len(),
                self.retained@ == old(self).retained@,
                self.subscriptions@ =~= old(self).subscriptions@.take(j).filter(keepf) + old(self).subscriptions@.skip(j),
                forall|k: int|
                    0 <= k < self.subscriptions@.len() ==> (
                    #[trigger] self.subscriptions@[k]).pattern.wf(),
                keepf == (|s: Subscription|
                    !(s.connection_id == connection_id && s.pattern.spec_topic()
                        == topic_filter@)),
            decreases self.subscriptions@.len() - i,
        {
            proof {
                assert(j < old(self).subscriptions@.len());
                assert(old(self).subscriptions@.take(j + 1) =~= old(self).subscriptions@.take(
                    j,
                ).push(old(self).subscriptions@[j]));
                assert(self.subscriptions@[i as int] == old(self).subscriptions@[j]);
                old(self).subscriptions@.take(j).lemma_filter_len(keepf);
            }
            let ghost pre = old(self).subscriptions@;
            let ghost prev = self.subscriptions@;
            proof {
                reveal(Seq::filter);
                assert(pre.take(j + 1).drop_last() =~= pre.take(j));
                assert(pre.take(j + 1).last() == pre[j]);
                assert(pre.skip(j).drop_first() =~= pre.skip(j + 1));
                assert(pre.skip(j)[0] == pre[j]);
            }
            let s = &self.subscriptions[i];
            if s.connection_id == connection_id && str_eq(s.pattern.topic(), topic_filter) {
                proof {
                    reveal(Seq::filter);
                    assert(!keepf(pre[j]));
                    assert(pre.take(j + 1).filter(keepf) == pre.take(j).filter(keepf));
                    prev.remove_ensures(i as int);
                }
                let _ = self.subscriptions.remove(i);
                proof {
                    assert(self.subscriptions@ =~= prev.remove(i as int));
                    assert(self.subscriptions@ =~= pre.take(j + 1).filter(keepf) + pre.skip(
                        j + 1,
                    ));
                    j = j + 1;
                }
            } else {
                i += 1;
                proof {
                    reveal(Seq::filter);
                    assert(keepf(pre[j]));
                    assert(pre.take(j + 1).filter(keepf) == pre.take(j).filter(keepf).push(
                        pre[j],
                    ));
                    assert(self.subscriptions@ =~= pre.take(j + 1).filter(keepf) + pre.skip(
                        j + 1,
                    ));
                    j = j + 1;
                }
            }
        }
        proof {
            reveal(Seq::filter);
            assert(old(self).subscriptions@.skip(j) =~= Seq::<Subscription>::empty());
            assert(old(self).subscriptions@.take(j) =~= old(self).subscriptions@);
            assert(self.subscriptions@ =~= old(self).subscriptions@.filter(keepf));
            lemma_map_filter_commute(
                old(self).subscriptions@,
                |s: (u64, Seq<char>, QoS)| !(s.0 == connection_id && s.1 == topic_filter@),
                keepf,
            );
            assert(self.spec_retained() =~= old(self).spec_retained());
            assert(self.wf());
        }
    }

    /// Remove every subscription of `connection_id`, as on disconnect.
    pub fn session_removed(&mut self, connection_id: u64)
        requires
            old(self).wf(),
        ensures
            final(self).wf(),
            final(self).spec_retained() == old(self).spec_retained(),
            final(self).spec_subscriptions() == old(self).spec_subscriptions().filter(
                |s: (u64, Seq<char>, QoS)| s.0 != connection_id,
            ),
    {
        let ghost keepf = |s: Subscription| s.connection_id != connection_id;
        let mut i: usize = 0;
        let ghost mut j: int = 0int;
        proof {
            reveal(Seq::filter);
            assert(old(self).subscriptions@.take(j).filter(keepf) =~= Seq::<Subscription>::empty());
            assert(self.subscriptions@ =~= old(self).subscriptions@.take(j).filter(keepf) + old(self).subscriptions@.skip(j));
        }
        while i < self.subscriptions.len()
            invariant
                old(self).wf(),
                0 <= j <= old(self).subscriptions@.len(),
                i == old(self).subscriptions@.take(j).filter(keepf).len(),
                self.retained@ == old(self).retained@,
                self.subscriptions@ =~= old(self).subscriptions@.take(j).filter(keepf) + old(self).subscriptions@.skip(j),
                forall|k: int|
                    0 <= k < self.subscriptions@.len() ==> (
                    #[trigger] self.subscriptions@[k]).pattern.wf(),
                keepf == (|s: Subscription| s.connection_id != connection_id),
            decreases self.subscriptions@.len() - i,
        {
            proof {
                assert(j < old(self).subscriptions@.len());
                assert(old(self).subscriptions@.take(j + 1) =~= old(self).subscriptions@.take(
                    j,
                ).push(old(self).subscriptions@[j]));
                assert(self.subscriptions@[i as int] == old(self).subscriptions@[j]);
                old(self).subscriptions@.take(j).lemma_filter_len(keepf);
            }
            let ghost pre = old(self).subscriptions@;
            let ghost prev = self.subscriptions@;
            proof {
                reveal(Seq::filter);
                assert(pre.take(j + 1).drop_last() =~= pre.take(j));
                assert(pre.take(j + 1).last() == pre[j]);
                assert(pre.skip(j).drop_first() =~= pre.skip(j + 1));
                assert(pre.skip(j)[0] == pre[j]);
            }
            let s = &self.subscriptions[i];
            if s.connection_id == connection_id {
                proof {
                    reveal(Seq::filter);
                    assert(!keepf(pre[j]));
                    assert(pre.take(j + 1).filter(keepf) == pre.take(j).filter(keepf));
                    prev.remove_ensures(i as int);
                }
                let _ = self.subscriptions.remove(i);
                proof {
                    assert(self.subscriptions@ =~= prev.remove(i as int));
                    assert(self.subscriptions@ =~= pre.take(j + 1).filter(keepf) + pre.skip(
                        j + 1,
                    ));
                    j = j + 1;
                }
            } else {
                i += 1;
                proof {
                    reveal(Seq::filter);
                    assert(keepf(pre[j]));
                    assert(pre.take(j + 1).filter(keepf) == pre.take(j).filter(keepf).push(
                        pre[j],
                    ));
                    assert(self.subscriptions@ =~= pre.take(j + 1).filter(keepf) + pre.skip(
                        j + 1,
                    ));
                    j = j + 1;
                }
            }
        }
        proof {
            reveal(Seq::filter);
            assert(old(self).subscriptions@.skip(j) =~= Seq::<Subscription>::empty());
            assert(old(self).subscriptions@.take(j) =~= old(self).subscriptions@);
            assert(self.subscriptions@ =~= old(self).subscriptions@.filter(keepf));
            lemma_map_filter_commute(
                old(self).subscriptions@,
                |s: (u64, Seq<char>, QoS)| s.0 != connection_id,
                keepf,
            );
            assert(self.spec_retained() =~= old(self).spec_retained());
            assert(self.wf());
        }
    }
}

/// The retained entries among `retained` whose topic the filter matches.
pub open spec fn spec_matching_retained(
    retained: Seq<(Seq<char>, Seq<u8>, QoS)>,
    filter: Seq<char>,
) -> Seq<(Seq<char>, Seq<u8>, QoS)> {
    retained.filter(|e: (Seq<char>, Seq<u8>, QoS)| spec_filter_matches(filter, e.0))
}

impl Dispatcher {
    /// Drop the retained entry for `topic`, if one is stored.
    fn remove_retained(&mut self, topic: &str)
        requires
            old(self).wf(),
        ensures
            final(self).wf(),
            final(self).spec_subscriptions() == old(self).spec_subscriptions(),
            !final(self).spec_has_retained(topic@),
            forall|e: (Seq<char>, Seq<u8>, QoS)|
                e.0 != topic@ ==> (final(self).spec_retained().contains(e) == old(self).spec_retained().contains(e)),
    {
        let mut i: usize = 0;
        let n = self.retained.len();
        while i < n
            invariant
                0 <= i <= n,
                n == self.retained@.len(),
                old(self).wf(),
                *self == *old(self),
                forall|j: int| 0 <= j < i ==> (#[trigger] self.spec_retained()[j]).0 != topic@,
            decreases n - i,
        {
            if str_eq(self.retained[i].packet.topic(), topic) {
                proof {
                    assert(self.spec_retained()[i as int].0 == topic@);
                    lemma_remove_unique_retained(self.spec_retained(), i as int);
                }
                let _ = self.retained.remove(i);
                proof {
                    assert(self.spec_retained() =~= old(self).spec_retained().remove(i as int));
                    assert forall|k: int|
                        0 <= k < self.retained@.len() implies (
                    #[trigger] self.retained@[k]).packet.wf() by {
                        if k < i {
                            assert(self.retained@[k] == old(self).retained@[k]);
                        } else {
                            assert(self.retained@[k] == old(self).retained@[k + 1]);
                        }
                    }
                    if self.spec_has_retained(topic@) {
                        let k = choose|k: int|
                            0 <= k < self.spec_retained().len() && (
                            #[trigger] self.spec_retained()[k]).0 == topic@;
                    }
                    assert(self.spec_subscriptions() =~= old(self).spec_subscriptions());
                    assert(self.wf());
                }
                return ;
            }
            i += 1;
        }
        proof {
            if self.spec_has_retained(topic@) {
                let k = choose|k: int|
                    0 <= k < self.spec_retained().len() && (#[trigger] self.spec_retained()[k]).0
                        == topic@;
            }
        }
    }

    /// The filters `connection_id` is subscribed to, with their granted
    /// levels, in table order.
    pub fn subscriptions_of(&self, connection_id: u64) -> (r: Vec<(String, QoS)>)
        requires
            self.wf(),
        ensures
            r@.map_values(|e: (String, QoS)| (e.0@, e.1)) == self.spec_subscriptions().filter(
                |s: (u64, Seq<char>, QoS)| s.0 == connection_id,
            ).map_values(|s: (u64, Seq<char>, QoS)| (s.1, s.2)),
    {
        let ghost keep = |s: (u64, Seq<char>, QoS)| s.0 == connection_id;
        let ghost strip = |s: (u64, Seq<char>, QoS)| (s.1, s.2);
        let ghost viewe = |e: (String, QoS)| (e.0@, e.1);
        let ghost sv = self.spec_subscriptions();
        let mut out: Vec<(String, QoS)> = Vec::new();
        let mut i: usize = 0;
        proof {
            reveal(Seq::filter);
            assert(sv.take(0) =~= Seq::<(u64, Seq<char>, QoS)>::empty());
            assert(out@.map_values(viewe) =~= sv.take(0).filter(keep).map_values(strip));
        }
        while i < self.subscriptions.len()
            invariant
                0 <= i <= self.subscriptions@.len(),
                sv == self.spec_subscriptions(),
                keep == (|s: (u64, Seq<char>, QoS)| s.0 == connection_id),
                strip == (|s: (u64, Seq<char>, QoS)| (s.1, s.2)),
                viewe == (|e: (String, QoS)| (e.0@, e.1)),
                out@.map_values(viewe) =~= sv.take(i as int).filter(keep).map_values(strip),
            decreases self.subscriptions@.len() - i,
        {
            proof {
                reveal(Seq::filter);
                assert(sv.take(i + 1).drop_last() =~= sv.take(i as int));
                assert(sv.take(i + 1).last() == sv[i as int]);
                assert(sv[i as int] == spec_sub_view(self.subscriptions@[i as int]));
            }
            let s = &self.subscriptions[i];
            if s.connection_id == connection_id {
                let entry = (s.pattern.topic().to_owned(), s.qos);
                proof {
                    assert(viewe(entry) == strip(sv[i as int]));
                    assert(out@.push(entry).map_values(viewe) =~= out@.map_values(viewe).push(
                        viewe(entry),
                    ));
                }
                out.push(entry);
            }
            i += 1;
        }
        proof {
            assert(sv.take(self.subscriptions@.len() as int) =~= sv);
        }
        out
    }

    /// Route one PUBLISH: update the retained store when the retain flag is
    /// set (an empty payload deletes the entry), then hand back one copy
    /// per matching subscription, the quality of service downgraded to the
    /// weaker of the publisher's and the subscriber's, the duplicate and
    /// retain flags clear.
    pub fn on_publish(&mut self, packet: &PublishPacket) -> (deliveries: Vec<(u64, PublishPacket)>)
        requires
            old(self).wf(),
            packet.wf(),
        ensures
            final(self).wf(),
            final(self).spec_subscriptions() == old(self).spec_subscriptions(),
            !packet.spec_retain() ==> final(self).spec_retained() == old(self).spec_retained(),
            packet.spec_retain() && packet.spec_msg().len() > 0 ==> {
                &&& final(self).spec_retained().contains(
                    (packet.spec_topic(), packet.spec_msg(), packet.spec_qos()),
                )
                &&& forall|e: (Seq<char>, Seq<u8>, QoS)|
                    #![trigger final(self).spec_retained().contains(e)]
                    e.0 == packet.spec_topic() && final(self).spec_retained().contains(e) ==> e
                        == (packet.spec_topic(), packet.spec_msg(), packet.spec_qos())
            },
            packet.spec_retain() && packet.spec_msg().len() == 0 ==> !final(self).spec_has_retained(packet.spec_topic()),
            packet.spec_retain() ==> forall|e: (Seq<char>, Seq<u8>, QoS)|
                e.0 != packet.spec_topic() ==> (final(self).spec_retained().contains(e) == old(self).spec_retained().contains(e)),
            deliveries@.len() == spec_matching_subs(
                old(self).spec_subscriptions(),
                packet.spec_topic(),
            ).len(),
            forall|k: int|
                0 <= k < deliveries@.len() ==> {
                    let m = spec_matching_subs(
                        old(self).spec_subscriptions(),
                        packet.spec_topic(),
                    )[k];
                    &&& (#[trigger] deliveries@[k]).0 == m.0
                    &&& deliveries@[k].1.spec_topic() == packet.spec_topic()
                    &&& deliveries@[k].1.spec_msg() == packet.spec_msg()
                    &&& crate::base::spec_qos_value(deliveries@[k].1.spec_qos())
                        == vstd::math::min(
                        crate::base::spec_qos_value(packet.spec_qos()) as int,
                        crate::base::spec_qos_value(m.2) as int,
                    )
                    &&& !deliveries@[k].1.spec_dup()
                    &&& !deliveries@[k].1.spec_retain()
                    &&& deliveries@[k].1.wf()
                },
    {
        if packet.retain() {
            self.remove_retained(packet.topic());
            if packet.message().len() > 0 {
                let stored = RetainedMessage { packet: packet.duplicate() };
                let ghost mid = *self;
                self.retained.push(stored);
                proof {
                    assert(self.spec_retained() =~= mid.spec_retained().push(
                        (packet.spec_topic(), packet.spec_msg(), packet.spec_qos()),
                    ));
                    assert forall|i: int, j: int|
                        0 <= i < j < self.spec_retained().len() implies (
                    #[trigger] self.spec_retained()[i]).0 != (
                    #[trigger] self.spec_retained()[j]).0 by {
                        if j == self.spec_retained().len() - 1 {
                            if self.spec_retained()[i].0 == packet.spec_topic() {
                                assert(mid.spec_has_retained(packet.spec_topic()));
                            }
                        }
                    }
                    assert forall|k: int|
                        0 <= k < self.retained@.len() implies (
                    #[trigger] self.retained@[k]).packet.wf() by {
                        if k < self.retained@.len() - 1 {
                            assert(self.retained@[k] == mid.retained@[k]);
                        }
                    }
                    assert(self.spec_subscriptions() =~= mid.spec_subscriptions());
                    assert(self.wf());
                    assert(self.spec_retained().contains(
                        (packet.spec_topic(), packet.spec_msg(), packet.spec_qos()),
                    )) by {
                        assert(self.spec_retained().last() == (
                            packet.spec_topic(),
                            packet.spec_msg(),
                            packet.spec_qos(),
                        ));
                    }
                    assert forall|e: (Seq<char>, Seq<u8>, QoS)|
                        e.0 != packet.spec_topic() implies (self.spec_retained().contains(e)
                        == mid.spec_retained().contains(e)) by {
                        if self.spec_retained().contains(e) {
                            let k = choose|k: int|
                                0 <= k < self.spec_retained().len() && self.spec_retained()[k]
                                    == e;
                            assert(mid.spec_retained()[k] == e);
                        }
                        if mid.spec_retained().contains(e) {
                            let k = choose|k: int|
                                0 <= k < mid.spec_retained().len() && mid.spec_retained()[k] == e;
                            assert(self.spec_retained()[k] == e);
                        }
                    }
                    assert forall|e: (Seq<char>, Seq<u8>, QoS)|
                        #![trigger self.spec_retained().contains(e)]
                        e.0 == packet.spec_topic() && self.spec_retained().contains(e) implies e
                        == (packet.spec_topic(), packet.spec_msg(), packet.spec_qos()) by {
                        let k = choose|k: int|
                            0 <= k < self.spec_retained().len() && self.spec_retained()[k] == e;
                        if k < self.spec_retained().len() - 1 {
                            assert(mid.spec_retained()[k] == e);
                            assert(mid.spec_has_retained(packet.spec_topic()));
                        }
                    }
                }
            }
        }
        let ghost sv = self.spec_subscriptions();
        let mut deliveries: Vec<(u64, PublishPacket)> = Vec::new();
        let mut i: usize = 0;
        proof {
            reveal(Seq::filter);
            assert(sv.take(0) =~= Seq::<(u64, Seq<char>, QoS)>::empty());
            assert(spec_matching_subs(sv.take(0), packet.spec_topic()) =~= Seq::<
                (u64, Seq<char>, QoS),
            >::empty());
        }
        while i < self.subscriptions.len()
            invariant
                0 <= i <= self.subscriptions@.len(),
                self.wf(),
                packet.wf(),
                sv == self.spec_subscriptions(),
                deliveries@.len() == spec_matching_subs(sv.take(i as int), packet.spec_topic()).len(),
                forall|k: int|
                    0 <= k < deliveries@.len() ==> {
                        let m = spec_matching_subs(sv.take(i as int), packet.spec_topic())[k];
                        &&& (#[trigger] deliveries@[k]).0 == m.0
                        &&& deliveries@[k].1.spec_topic() == packet.spec_topic()
                        &&& deliveries@[k].1.spec_msg() == packet.spec_msg()
                        &&& crate::base::spec_qos_value(deliveries@[k].1.spec_qos())
                            == vstd::math::min(
                            crate::base::spec_qos_value(packet.spec_qos()) as int,
                            crate::base::spec_qos_value(m.2) as int,
                        )
                        &&& !deliveries@[k].1.spec_dup()
                        &&& !deliveries@[k].1.spec_retain()
                        &&& deliveries@[k].1.wf()
                    },
            decreases self.subscriptions@.len() - i,
        {
            proof {
                reveal(Seq::filter);
                assert(sv.take(i + 1).drop_last() =~= sv.take(i as int));
                assert(sv.take(i + 1).last() == sv[i as int]);
                assert(sv[i as int] == spec_sub_view(self.subscriptions@[i as int]));
            }
            let sub = &self.subscriptions[i];
            if sub.pattern.is_match(packet.topic()) {
                let mut p = packet.duplicate();
                let _ = p.set_dup(false);
                p.set_retain(false);
                let q = p.qos().min(sub.qos);
                p.set_qos(q);
                proof {
                    assert(p.wf());
                    assert(spec_matching_subs(sv.take(i + 1), packet.spec_topic())
                        =~= spec_matching_subs(sv.take(i as int), packet.spec_topic()).push(
                        sv[i as int],
                    ));
                }
                deliveries.push((sub.connection_id, p));
            } else {
                proof {
                    assert(spec_matching_subs(sv.take(i + 1), packet.spec_topic())
                        =~= spec_matching_subs(sv.take(i as int), packet.spec_topic()));
                }
            }
            i += 1;
        }
        proof {
            assert(sv.take(self.subscriptions@.len() as int) =~= sv);
        }
        deliveries
    }

    /// Add one subscription and hand back the retained messages its filter
    /// matches, each marked retained, the quality of service downgraded to
    /// the weaker of the stored one and the granted one.
    pub fn subscribe_with_retained(
        &mut self,
        connection_id: u64,
        topic_filter: &str,
        qos: QoS,
    ) -> (r: Result<Vec<PublishPacket>, crate::topic::TopicError>)
        requires
            old(self).wf(),
        ensures
            final(self).wf(),
            final(self).spec_retained() == old(self).spec_retained(),
            r is Ok <==> (forall|k: int|
                0 <= k < crate::topic::split_levels(topic_filter@).len()
                    ==> crate::topic::spec_level_parseable(
                    #[trigger] crate::topic::split_levels(topic_filter@)[k],
                )),
            r is Ok ==> final(self).spec_subscriptions() == old(self).spec_subscriptions().push(
                (connection_id, topic_filter@, qos),
            ),
            r is Err ==> final(self).spec_subscriptions() == old(self).spec_subscriptions(),
            r matches Ok(out) ==> {
                &&& out@.len() == spec_matching_retained(
                    old(self).spec_retained(),
                    topic_filter@,
                ).len()
                &&& forall|k: int|
                    0 <= k < out@.len() ==> {
                        let m = spec_matching_retained(
                            old(self).spec_retained(),
                            topic_filter@,
                        )[k];
                        &&& (#[trigger] out@[k]).spec_topic() == m.0
                        &&& out@[k].spec_msg() == m.1
                        &&& out@[k].spec_retain()
                        &&& !out@[k].spec_dup()
                        &&& crate::base::spec_qos_value(out@[k].spec_qos()) == vstd::math::min(
                            crate::base::spec_qos_value(m.2) as int,
                            crate::base::spec_qos_value(qos) as int,
                        )
                    }
            },
    {
        let pattern = match Topic::parse(topic_filter) {
            Ok(t) => t,
            Err(e) => {
                return Err(e);
            },
        };
        let ghost rv = self.spec_retained();
        let mut out: Vec<PublishPacket> = Vec::new();
        let mut i: usize = 0;
        proof {
            reveal(Seq::filter);
            assert(rv.take(0) =~= Seq::<(Seq<char>, Seq<u8>, QoS)>::empty());
            assert(spec_matching_retained(rv.take(0), topic_filter@) =~= Seq::<
                (Seq<char>, Seq<u8>, QoS),
            >::empty());
        }
        while i < self.retained.len()
            invariant
                0 <= i <= self.retained@.len(),
                self.wf(),
                pattern.wf(),
                pattern.spec_topic() == topic_filter@,
                rv == self.spec_retained(),
                out@.len() == spec_matching_retained(rv.take(i as int), topic_filter@).len(),
                forall|k: int|
                    0 <= k < out@.len() ==> {
                        let m = spec_matching_retained(rv.take(i as int), topic_filter@)[k];
                        &&& (#[trigger] out@[k]).spec_topic() == m.0
                        &&& out@[k].spec_msg() == m.1
                        &&& out@[k].spec_retain()
                        &&& !out@[k].spec_dup()
                        &&& crate::base::spec_qos_value(out@[k].spec_qos()) == vstd::math::min(
                            crate::base::spec_qos_value(m.2) as int,
                            crate::base::spec_qos_value(qos) as int,
                        )
                    },
            decreases self.retained@.len() - i,
        {
            proof {
                reveal(Seq::filter);
                assert(rv.take(i + 1).drop_last() =~= rv.take(i as int));
                assert(rv.take(i + 1).last() == rv[i as int]);
            }
            let entry = &self.retained[i];
            if pattern.is_match(entry.packet.topic()) {
                let mut p = entry.packet.duplicate();
                let _ = p.set_dup(false);
                p.set_retain(true);
                let q = p.qos().min(qos);
                p.set_qos(q);
                proof {
                    assert(spec_matching_retained(rv.take(i + 1), topic_filter@)
                        =~= spec_matching_retained(rv.take(i as int), topic_filter@).push(
                        rv[i as int],
                    ));
                }
                out.push(p);
            } else {
                proof {
                    assert(spec_matching_retained(rv.take(i + 1), topic_filter@)
                        =~= spec_matching_retained(rv.take(i as int), topic_filter@));
                }
            }
            i += 1;
        }
        proof {
            assert(rv.take(self.retained@.len() as int) =~= rv);
        }
        self.subscriptions.push(Subscription { connection_id, pattern, qos });
        proof {
            assert(self.spec_subscriptions() =~= old(self).spec_subscriptions().push(
                (connection_id, topic_filter@, qos),
            ));
            assert(self.spec_retained() =~= old(self).spec_retained());
            assert forall|k: int|
                0 <= k < self.subscriptions@.len() implies (
            #[trigger] self.subscriptions@[k]).pattern.wf() by {
                if k < self.subscriptions@.len() - 1 {
                    assert(self.subscriptions@[k] == old(self).subscriptions@[k]);
                }
            }
            assert(self.wf());
        }
        Ok(out)
    }
}

/// A topic with a retained entry and a filter that matches it: a new
/// subscriber on that filter receives exactly one retained copy for the
/// topic, the one stored.
pub proof fn lemma_retained_delivered_once(
    store: Seq<(Seq<char>, Seq<u8>, QoS)>,
    f: Seq<char>,
    t: Seq<char>,
    p: Seq<u8>,
    q: QoS,
)
    requires
        forall|i: int, j: int| 0 <= i < j < store.len() ==> (#[trigger] store[i]).0 != (
        #[trigger] store[j]).0,
        store.contains((t, p, q)),
        spec_filter_matches(f, t),
    ensures
        spec_matching_retained(store, f).filter(|e: (Seq<char>, Seq<u8>, QoS)| e.0 == t) =~= seq![
            (t, p, q),
        ],
    decreases store.len(),
{
    reveal(Seq::filter);
    let inner = |e: (Seq<char>, Seq<u8>, QoS)| spec_filter_matches(f, e.0);
    let outer = |e: (Seq<char>, Seq<u8>, QoS)| e.0 == t;
    let k = choose|k: int| 0 <= k < store.len() && store[k] == (t, p, q);
    if k == store.len() - 1 {
        assert forall|i: int| 0 <= i < store.drop_last().len() implies (
        #[trigger] store.drop_last()[i]).0 != t by {
            assert(store[i] == store.drop_last()[i]);
        }
        lemma_no_retained_no_copy(store.drop_last(), f, t);
        assert(store.last() == (t, p, q));
        assert(spec_matching_retained(store, f) == spec_matching_retained(
            store.drop_last(),
            f,
        ).push((t, p, q)));
        assert(spec_matching_retained(store, f).drop_last() =~= spec_matching_retained(
            store.drop_last(),
            f,
        ));
        assert(spec_matching_retained(store, f).last() == (t, p, q));
        assert(spec_matching_retained(store, f).len() > 0);
        assert(spec_matching_retained(store, f).filter(outer) == spec_matching_retained(
            store.drop_last(),
            f,
        ).filter(outer).push((t, p, q)));
        assert(spec_matching_retained(store, f).filter(outer) =~= seq![(t, p, q)]);
    } else {
        assert(store.drop_last().contains((t, p, q))) by {
            assert(store.drop_last()[k] == (t, p, q));
        }
        lemma_retained_delivered_once(store.drop_last(), f, t, p, q);
        let last = store.last();
        assert(last.0 != t) by {
            assert(store[k].0 == t);
        }
        if inner(last) {
            assert(spec_matching_retained(store, f) == spec_matching_retained(
                store.drop_last(),
                f,
            ).push(last));
            assert(spec_matching_retained(store, f).drop_last() =~= spec_matching_retained(
                store.drop_last(),
                f,
            ));
            assert(spec_matching_retained(store, f).last() == last);
            assert(spec_matching_retained(store, f).len() > 0);
            assert(!outer(last));
            assert(spec_matching_retained(store, f).filter(outer) == spec_matching_retained(
                store.drop_last(),
                f,
            ).filter(outer));
        } else {
            assert(spec_matching_retained(store, f) == spec_matching_retained(
                store.drop_last(),
                f,
            ));
        }
        assert(spec_matching_retained(store, f).filter(outer) =~= seq![(t, p, q)]);
    }
}

/// A topic with no retained entry: a new subscriber receives no retained
/// copy for it, whatever its filter.
pub proof fn lemma_no_retained_no_copy(store: Seq<(Seq<char>, Seq<u8>, QoS)>, f: Seq<char>, t: Seq<
    char,
>)
    requires
        forall|i: int| 0 <= i < store.len() ==> (#[trigger] store[i]).0 != t,
    ensures
        spec_matching_retained(store, f).filter(|e: (Seq<char>, Seq<u8>, QoS)| e.0 == t)
            =~= Seq::<(Seq<char>, Seq<u8>, QoS)>::empty(),
    decreases store.len(),
{
    reveal(Seq::filter);
    let inner = |e: (Seq<char>, Seq<u8>, QoS)| spec_filter_matches(f, e.0);
    let outer = |e: (Seq<char>, Seq<u8>, QoS)| e.0 == t;
    if store.len() == 0 {
        assert(spec_matching_retained(store, f).filter(outer) =~= Seq::<
            (Seq<char>, Seq<u8>, QoS),
        >::empty());
    } else {
        assert forall|i: int| 0 <= i < store.drop_last().len() implies (
        #[trigger] store.drop_last()[i]).0 != t by {
            assert(store[i] == store.drop_last()[i]);
        }
        lemma_no_retained_no_copy(store.drop_last(), f, t);
        let last = store.last();
        assert(last.0 != t);
        if inner(last) {
            assert(spec_matching_retained(store, f) == spec_matching_retained(
                store.drop_last(),
                f,
            ).push(last));
            assert(spec_matching_retained(store, f).drop_last() =~= spec_matching_retained(
                store.drop_last(),
                f,
            ));
            assert(spec_matching_retained(store, f).last() == last);
            assert(spec_matching_retained(store, f).len() > 0);
            assert(!outer(last));
            assert(spec_matching_retained(store, f).filter(outer) == spec_matching_retained(
                store.drop_last(),
                f,
            ).filter(outer));
        } else {
            assert(spec_matching_retained(store, f) == spec_matching_retained(
                store.drop_last(),
                f,
            ));
        }
        assert(spec_matching_retained(store, f).filter(outer) =~= Seq::<
            (Seq<char>, Seq<u8>, QoS),
        >::empty());
    }
}

/// Removing one position from a retained store with unique topics keeps
/// the rest, unique and mapped through.
proof fn lemma_remove_unique_retained(s: Seq<(Seq<char>, Seq<u8>, QoS)>, idx: int)
    requires
        0 <= idx < s.len(),
        forall|i: int, j: int| 0 <= i < j < s.len() ==> (#[trigger] s[i]).0 != (#[trigger] s[j]).0,
    ensures
        s.remove(idx).len() == s.len() - 1,
        forall|k: int| 0 <= k < s.remove(idx).len() ==> (#[trigger] s.remove(idx)[k]).0 != s[idx].0,
        forall|i: int, j: int|
            0 <= i < j < s.remove(idx).len() ==> (#[trigger] s.remove(idx)[i]).0 != (
            #[trigger] s.remove(idx)[j]).0,
        forall|k: int| 0 <= k < s.remove(idx).len() ==> s.contains(#[trigger] s.remove(idx)[k]),
        forall|k: int| 0 <= k < s.len() && k != idx ==> s.remove(idx).contains(#[trigger] s[k]),
{
    let t = s.remove(idx);
    s.remove_ensures(idx);
    assert forall|k: int| 0 <= k < t.len() implies s.contains(#[trigger] t[k]) by {
        if k < idx {
            assert(t[k] == s[k]);
        } else {
            assert(t[k] == s[k + 1]);
        }
    }
    assert forall|k: int| 0 <= k < s.len() && k != idx implies t.contains(#[trigger] s[k]) by {
        if k < idx {
            assert(t[k] == s[k]);
        } else {
            assert(t[k - 1] == s[k]);
        }
    }
    assert forall|k: int| 0 <= k < t.len() implies (#[trigger] t[k]).0 != s[idx].0 by {
        if k < idx {
            assert(t[k] == s[k]);
        } else {
            assert(t[k] == s[k + 1]);
        }
    }
    assert forall|i: int, j: int| 0 <= i < j < t.len() implies (#[trigger] t[i]).0 != (
    #[trigger] t[j]).0 by {
        let si: int = if i < idx {
            i
        } else {
            i + 1
        };
        let sj: int = if j < idx {
            j
        } else {
            j + 1
        };
        assert(t[i] == s[si]);
        assert(t[j] == s[sj]);
    }
}

/// Filtering the table and then reading it off gives the same view as
/// reading it off and filtering the view.
proof fn lemma_map_filter_commute(
    s: Seq<Subscription>,
    p: spec_fn((u64, Seq<char>, QoS)) -> bool,
    keepf: spec_fn(Subscription) -> bool,
)
    requires
        forall|x: Subscription| #[trigger] keepf(x) == p(spec_sub_view(x)),
    ensures
        s.filter(keepf).map_values(|x: Subscription| spec_sub_view(x)) == s.map_values(
            |x: Subscription| spec_sub_view(x),
        ).filter(p),
    decreases s.len(),
{
    reveal(Seq::filter);
    let viewf = |x: Subscription| spec_sub_view(x);
    if s.len() == 0 {
        assert(s.filter(keepf).map_values(viewf) =~= s.map_values(viewf).filter(p));
    } else {
        lemma_map_filter_commute(s.drop_last(), p, keepf);
        assert(s.map_values(viewf).drop_last() =~= s.drop_last().map_values(viewf));
        assert(s.map_values(viewf).last() == viewf(s.last()));
        if p(viewf(s.last())) {
            assert(s.filter(keepf) == s.drop_last().filter(keepf).push(s.last()));
            assert(s.filter(keepf).map_values(viewf) =~= s.drop_last().filter(keepf).map_values(
                viewf,
            ).push(viewf(s.last())));
            assert(s.map_values(viewf).filter(p) == s.map_values(viewf).drop_last().filter(
                p,
            ).push(viewf(s.last())));
            assert(s.filter(keepf).map_values(viewf) =~= s.map_values(viewf).filter(p));
        } else {
            assert(s.filter(keepf) == s.drop_last().filter(keepf));
            assert(s.map_values(viewf).filter(p) == s.map_values(viewf).drop_last().filter(p));
            assert(s.filter(keepf).map_values(viewf) =~= s.map_values(viewf).filter(p));
        }
    }
}

} // verus!

//! The store of cached sessions, keyed by client identifier.

use vstd::prelude::*;
use crate::session::CachedSession;
use crate::topic::str_eq;

verus! {

/// Snapshots of disconnected non-clean sessions, one per client identifier.
#[derive(Debug)]
pub struct CachedSessions {
    entries: Vec<CachedSession>,
}

impl CachedSessions {
    /// The stored snapshots.
    pub closed spec fn spec_entries(&self) -> Seq<CachedSession> {
        self.entries@
    }

    /// At most one snapshot per client identifier.
    pub open spec fn wf(&self) -> bool {
        forall|i: int, j: int|
            0 <= i < j < self.spec_entries().len() ==> (
            #[trigger] self.spec_entries()[i]).client_id@ != (
            #[trigger] self.spec_entries()[j]).client_id@
    }

    /// Whether a snapshot for `client_id` is stored.
    pub open spec fn spec_has(&self, client_id: Seq<char>) -> bool {
        exists|i: int|
            0 <= i < self.spec_entries().len() && (#[trigger] self.spec_entries()[i]).client_id@
                == client_id
    }

    /// An empty store.
    pub fn new() -> (r: Self)
        ensures
            r.wf(),
            r.spec_entries().len() == 0,
    {
        CachedSessions { entries: Vec::new() }
    }

    /// Keep a snapshot, replacing any earlier one for the same client.
    pub fn store(&mut self, session: CachedSession)
        requires
            old(self).wf(),
        ensures
            final(self).wf(),
            final(self).spec_has(session.client_id@),
            final(self).spec_entries().last() == session,
            forall|c: Seq<char>|
                c != session.client_id@ ==> (final(self).spec_has(c) == old(self).spec_has(c)),
    {
        self.remove_entry_for(session.client_id.as_str());
        let ghost mid = self.spec_entries();
        let ghost mid_state = *self;
        self.entries.push(session);
        proof {
            assert(self.spec_entries() =~= mid.push(session));
            assert forall|i: int| 0 <= i < mid.len() implies (#[trigger] mid[i]).client_id@
                != session.client_id@ by {
                if mid[i].client_id@ == session.client_id@ {
                    assert(mid_state.spec_has(session.client_id@));
                }
            }
            assert forall|i: int, j: int|
                0 <= i < j < self.spec_entries().len() implies (
            #[trigger] self.spec_entries()[i]).client_id@ != (
            #[trigger] self.spec_entries()[j]).client_id@ by {
                if j == self.spec_entries().len() - 1 {
                    assert(self.spec_entries()[i] == mid[i]);
                } else {
                    assert(self.spec_entries()[i] == mid[i]);
                    assert(self.spec_entries()[j] == mid[j]);
                }
            }
            assert(self.spec_has(session.client_id@)) by {
                assert(self.spec_entries().last().client_id@ == session.client_id@);
            }
            assert forall|c: Seq<char>| c != session.client_id@ implies (self.spec_has(c)
                == old(self).spec_has(c)) by {
                if self.spec_has(c) {
                    let k = choose|k: int|
                        0 <= k < self.spec_entries().len() && (
                        #[trigger] self.spec_entries()[k]).client_id@ == c;
                    assert(k < mid.len());
                    assert(mid[k].client_id@ == c);
                    assert(mid_state.spec_has(c));
                }
                if mid_state.spec_has(c) {
                    let k = choose|k: int|
                        0 <= k < mid.len() && (#[trigger] mid[k]).client_id@ == c;
                    assert(self.spec_entries()[k].client_id@ == c);
                    assert(self.spec_has(c));
                }
            }
        }
    }

    /// Take the snapshot for `client_id` out of the store, if one is there.
    pub fn take(&mut self, client_id: &str) -> (r: Option<CachedSession>)
        requires
            old(self).wf(),
        ensures
            final(self).wf(),
            r is Some <==> old(self).spec_has(client_id@),
            r matches Some(c) ==> c.client_id@ == client_id@,
            !final(self).spec_has(client_id@),
            forall|c: Seq<char>|
                c != client_id@ ==> (final(self).spec_has(c) == old(self).spec_has(c)),
    {
        let mut i: usize = 0;
        let n = self.entries.len();
        while i < n
            invariant
                0 <= i <= n,
                n == self.spec_entries().len(),
                old(self).wf(),
                *self == *old(self),
                forall|j: int| 0 <= j < i ==> (#[trigger] self.spec_entries()[j]).client_id@
                    != client_id@,
            decreases n - i,
        {
            if str_eq(self.entries[i].client_id.as_str(), client_id) {
                proof {
                    assert(old(self).spec_has(client_id@)) by {
                        assert(old(self).spec_entries()[i as int].client_id@ == client_id@);
                    }
                    lemma_remove_unique_cached(self.spec_entries(), i as int);
                }
                let c = self.entries.remove(i);
                proof {
                    assert(self.spec_entries() =~= old(self).spec_entries().remove(i as int));
                    assert forall|cc: Seq<char>| cc != client_id@ implies (self.spec_has(cc)
                        == old(self).spec_has(cc)) by {
                        if self.spec_has(cc) {
                            let k = choose|k: int|
                                0 <= k < self.spec_entries().len() && (
                                #[trigger] self.spec_entries()[k]).client_id@ == cc;
                            assert(old(self).spec_entries().contains(self.spec_entries()[k]));
                            let k2 = choose|k2: int|
                                0 <= k2 < old(self).spec_entries().len() && old(
                                    self,
                                ).spec_entries()[k2] == self.spec_entries()[k];
                            assert(old(self).spec_has(cc));
                        }
                        if old(self).spec_has(cc) {
                            let k = choose|k: int|
                                0 <= k < old(self).spec_entries().len() && (
                                #[trigger] old(self).spec_entries()[k]).client_id@ == cc;
                            assert(k != i);
                            assert(self.spec_entries().contains(old(self).spec_entries()[k]));
                            let k2 = choose|k2: int|
                                0 <= k2 < self.spec_entries().len() && self.spec_entries()[k2]
                                    == old(self).spec_entries()[k];
                            assert(self.spec_has(cc));
                        }
                    }
                    if self.spec_has(client_id@) {
                        let k = choose|k: int|
                            0 <= k < self.spec_entries().len() && (
                            #[trigger] self.spec_entries()[k]).client_id@ == client_id@;
                    }
                }
                return Some(c);
            }
            i += 1;
        }
        proof {
            if self.spec_has(client_id@) {
                let j = choose|j: int|
                    0 <= j < self.spec_entries().len() && (#[trigger] self.spec_entries()[j]).client_id@
                        == client_id@;
            }
        }
        None
    }

    /// Drop any snapshot stored for `client_id`.
    fn remove_entry_for(&mut self, client_id: &str)
        requires
            old(self).wf(),
        ensures
            final(self).wf(),
            !final(self).spec_has(client_id@),
            forall|c: Seq<char>|
                c != client_id@ ==> (final(self).spec_has(c) == old(self).spec_has(c)),
    {
        let _ = self.take(client_id);
    }
}

/// One live connection of a client.
#[derive(Debug)]
pub struct ConnectedClient {
    /// The client identifier.
    pub client_id: String,
    /// The connection currently serving it.
    pub connection_id: u64,
}

/// The broker-wide registry of connected clients: at most one live
/// connection per client identifier, so a second CONNECT under the same
/// identifier evicts the first.
#[derive(Debug)]
pub struct ConnectedClients {
    entries: Vec<ConnectedClient>,
}

impl ConnectedClients {
    /// The registered connections.
    pub closed spec fn spec_entries(&self) -> Seq<(Seq<char>, u64)> {
        self.entries@.map_values(|e: ConnectedClient| (e.client_id@, e.connection_id))
    }

    /// At most one connection per client identifier.
    pub open spec fn wf(&self) -> bool {
        forall|i: int, j: int|
            0 <= i < j < self.spec_entries().len() ==> (#[trigger] self.spec_entries()[i]).0 != (
            #[trigger] self.spec_entries()[j]).0
    }

    /// Whether `client_id` has a live connection.
    pub open spec fn spec_connected(&self, client_id: Seq<char>) -> bool {
        exists|i: int|
            0 <= i < self.spec_entries().len() && (#[trigger] self.spec_entries()[i]).0
                == client_id
    }

    /// An empty registry.
    pub fn new() -> (r: Self)
        ensures
            r.wf(),
            r.spec_entries().len() == 0,
    {
        proof {
            assert(Seq::<ConnectedClient>::empty().map_values(
                |e: ConnectedClient| (e.client_id@, e.connection_id),
            ) =~= Seq::<(Seq<char>, u64)>::empty());
        }
        ConnectedClients { entries: Vec::new() }
    }

    /// Register a CONNECT: any earlier connection under the same client
    /// identifier leaves the registry and its connection is returned, to be
    /// disconnected by the caller.
    pub fn on_connect(&mut self, client_id: &str, connection_id: u64) -> (evicted: Option<u64>)
        requires
            old(self).wf(),
        ensures
            final(self).wf(),
            evicted is Some <==> old(self).spec_connected(client_id@),
            evicted matches Some(c) ==> old(self).spec_entries().contains((client_id@, c)),
            final(self).spec_connected(client_id@),
            final(self).spec_entries().contains((client_id@, connection_id)),
            forall|c: Seq<char>|
                c != client_id@ ==> (final(self).spec_connected(c) == old(self).spec_connected(
                    c,
                )),
    {
        let evicted = self.remove_client(client_id);
        let ghost mid = *self;
        self.entries.push(ConnectedClient { client_id: client_id.to_owned(), connection_id });
        proof {
            assert(self.spec_entries() =~= mid.spec_entries().push((client_id@, connection_id)));
            assert forall|i: int, j: int|
                0 <= i < j < self.spec_entries().len() implies (
            #[trigger] self.spec_entries()[i]).0 != (#[trigger] self.spec_entries()[j]).0 by {
                if j == self.spec_entries().len() - 1 {
                    assert(self.spec_entries()[i] == mid.spec_entries()[i]);
                    if mid.spec_entries()[i].0 == client_id@ {
                        assert(mid.spec_connected(client_id@));
                    }
                } else {
                    assert(self.spec_entries()[i] == mid.spec_entries()[i]);
                    assert(self.spec_entries()[j] == mid.spec_entries()[j]);
                }
            }
            assert(self.spec_connected(client_id@)) by {
                assert(self.spec_entries().last() == (client_id@, connection_id));
            }
            assert(self.spec_entries().contains((client_id@, connection_id))) by {
                assert(self.spec_entries().last() == (client_id@, connection_id));
            }
            assert forall|c: Seq<char>| c != client_id@ implies (self.spec_connected(c)
                == old(self).spec_connected(c)) by {
                if self.spec_connected(c) {
                    let k = choose|k: int|
                        0 <= k < self.spec_entries().len() && (
                        #[trigger] self.spec_entries()[k]).0 == c;
                    assert(k < mid.spec_entries().len());
                    assert(mid.spec_entries()[k].0 == c);
                    assert(mid.spec_connected(c));
                }
                if mid.spec_connected(c) {
                    let k = choose|k: int|
                        0 <= k < mid.spec_entries().len() && (#[trigger] mid.spec_entries()[k]).0
                            == c;
                    assert(self.spec_entries()[k].0 == c);
                    assert(self.spec_connected(c));
                }
            }
        }
        evicted
    }

    /// Remove the live connection of `client_id`, as on disconnect.
    pub fn remove_client(&mut self, client_id: &str) -> (r: Option<u64>)
        requires
            old(self).wf(),
        ensures
            final(self).wf(),
            r is Some <==> old(self).spec_connected(client_id@),
            r matches Some(c) ==> old(self).spec_entries().contains((client_id@, c)),
            !final(self).spec_connected(client_id@),
            forall|c: Seq<char>|
                c != client_id@ ==> (final(self).spec_connected(c) == old(self).spec_connected(
                    c,
                )),
    {
        let mut i: usize = 0;
        let n = self.entries.len();
        while i < n
            invariant
                0 <= i <= n,
                n == self.spec_entries().len(),
                old(self).wf(),
                *self == *old(self),
                forall|j: int| 0 <= j < i ==> (#[trigger] self.spec_entries()[j]).0 != client_id@,
            decreases n - i,
        {
            if str_eq(self.entries[i].client_id.as_str(), client_id) {
                let cid = self.entries[i].connection_id;
                proof {
                    assert(old(self).spec_connected(client_id@)) by {
                        assert(old(self).spec_entries()[i as int].0 == client_id@);
                    }
                    assert(old(self).spec_entries().contains((client_id@, cid))) by {
                        assert(old(self).spec_entries()[i as int] == (client_id@, cid));
                    }
                    lemma_remove_unique_connected(self.spec_entries(), i as int);
                }
                let _ = self.entries.remove(i);
                proof {
                    assert(self.spec_entries() =~= old(self).spec_entries().remove(i as int));
                    assert forall|cc: Seq<char>| cc != client_id@ implies (self.spec_connected(cc)
                        == old(self).spec_connected(cc)) by {
                        if self.spec_connected(cc) {
                            let k = choose|k: int|
                                0 <= k < self.spec_entries().len() && (
                                #[trigger] self.spec_entries()[k]).0 == cc;
                            assert(old(self).spec_entries().contains(self.spec_entries()[k]));
                            let k2 = choose|k2: int|
                                0 <= k2 < old(self).spec_entries().len() && old(
                                    self,
                                ).spec_entries()[k2] == self.spec_entries()[k];
                            assert(old(self).spec_connected(cc));
                        }
                        if old(self).spec_connected(cc) {
                            let k = choose|k: int|
                                0 <= k < old(self).spec_entries().len() && (
                                #[trigger] old(self).spec_entries()[k]).0 == cc;
                            assert(k != i);
                            assert(self.spec_entries().contains(old(self).spec_entries()[k]));
                            let k2 = choose|k2: int|
                                0 <= k2 < self.spec_entries().len() && self.spec_entries()[k2]
                                    == old(self).spec_entries()[k];
                            assert(self.spec_connected(cc));
                        }
                    }
                    if self.spec_connected(client_id@) {
                        let k = choose|k: int|
                            0 <= k < self.spec_entries().len() && (
                            #[trigger] self.spec_entries()[k]).0 == client_id@;
                    }
                }
                return Some(cid);
            }
            i += 1;
        }
        proof {
            if self.spec_connected(client_id@) {
                let j = choose|j: int|
                    0 <= j < self.spec_entries().len() && (#[trigger] self.spec_entries()[j]).0
                        == client_id@;
            }
        }
        None
    }
}

/// Removing one position from a registry with unique identifiers keeps the
/// rest, unique and mapped through.
proof fn lemma_remove_unique_connected(s: Seq<(Seq<char>, u64)>, idx: int)
    requires
        0 <= idx < s.len(),
        forall|i: int, j: int| 0 <= i < j < s.len() ==> (#[trigger] s[i]).0 != (#[trigger] s[j]).0,
    ensures
        s.remove(idx).len() == s.len() - 1,
        forall|k: int| 0 <= k < s.remove(idx).len() ==> (#[trigger] s.remove(idx)[k]).0 != s[idx].0,
        forall|i: int, j: int|
            0 <= i < j < s.remove(idx).len() ==> (#[trigger] s.remove(idx)[i]).0 != (
            #[trigger] s.remove(idx)[j]).0,
        forall|k: int| 0 <= k < s.remove(idx).len() ==> s.contains(#[trigger] s.remove(idx)[k]),
        forall|k: int| 0 <= k < s.len() && k != idx ==> s.remove(idx).contains(#[trigger] s[k]),
{
    let t = s.remove(idx);
    s.remove_ensures(idx);
    assert forall|k: int| 0 <= k < t.len() implies s.contains(#[trigger] t[k]) by {
        if k < idx {
            assert(t[k] == s[k]);
        } else {
            assert(t[k] == s[k + 1]);
        }
    }
    assert forall|k: int| 0 <= k < s.len() && k != idx implies t.contains(#[trigger] s[k]) by {
        if k < idx {
            assert(t[k] == s[k]);
        } else {
            assert(t[k - 1] == s[k]);
        }
    }
    assert forall|k: int| 0 <= k < t.len() implies (#[trigger] t[k]).0 != s[idx].0 by {
        if k < idx {
            assert(t[k] == s[k]);
        } else {
            assert(t[k] == s[k + 1]);
        }
    }
    assert forall|i: int, j: int| 0 <= i < j < t.len() implies (#[trigger] t[i]).0 != (
    #[trigger] t[j]).0 by {
        let si: int = if i < idx {
            i
        } else {
            i + 1
        };
        let sj: int = if j < idx {
            j
        } else {
            j + 1
        };
        assert(t[i] == s[si]);
        assert(t[j] == s[sj]);
    }
}

/// Removing one position from a store with unique identifiers keeps the
/// rest unique, with membership mapped through.
proof fn lemma_remove_unique_cached(s: Seq<CachedSession>, idx: int)
    requires
        0 <= idx < s.len(),
        forall|i: int, j: int|
            0 <= i < j < s.len() ==> (#[trigger] s[i]).client_id@ != (#[trigger] s[j]).client_id@,
    ensures
        s.remove(idx).len() == s.len() - 1,
        forall|k: int|
            0 <= k < s.remove(idx).len() ==> (#[trigger] s.remove(idx)[k]).client_id@
                != s[idx].client_id@,
        forall|i: int, j: int|
            0 <= i < j < s.remove(idx).len() ==> (#[trigger] s.remove(idx)[i]).client_id@ != (
            #[trigger] s.remove(idx)[j]).client_id@,
        forall|k: int| 0 <= k < s.remove(idx).len() ==> s.contains(#[trigger] s.remove(idx)[k]),
        forall|k: int| 0 <= k < s.len() && k != idx ==> s.remove(idx).contains(#[trigger] s[k]),
{
    let t = s.remove(idx);
    s.remove_ensures(idx);
    assert forall|k: int| 0 <= k < t.len() implies s.contains(#[trigger] t[k]) by {
        if k < idx {
            assert(t[k] == s[k]);
        } else {
            assert(t[k] == s[k + 1]);
        }
    }
    assert forall|k: int| 0 <= k < s.len() && k != idx implies t.contains(#[trigger] s[k]) by {
        if k < idx {
            assert(t[k] == s[k]);
        } else {
            assert(t[k - 1] == s[k]);
        }
    }
    assert forall|k: int| 0 <= k < t.len() implies (#[trigger] t[k]).client_id@
        != s[idx].client_id@ by {
        if k < idx {
            assert(t[k] == s[k]);
        } else {
            assert(t[k] == s[k + 1]);
        }
    }
    assert forall|i: int, j: int| 0 <= i < j < t.len() implies (#[trigger] t[i]).client_id@ != (
    #[trigger] t[j]).client_id@ by {
        let si: int = if i < idx {
            i
        } else {
            i + 1
        };
        let sj: int = if j < idx {
            j
        } else {
            j + 1
        };
        assert(t[i] == s[si]);
        assert(t[j] == s[sj]);
    }
}

} // verus!

//! The tunnel registry: the live tunnels keyed by subdomain.
//!
//! The registry enforces that no subdomain and no agent-pool port is held by
//! two live tunnels at once, reuses an existing tunnel idempotently on
//! repeated allocation, and expires tunnels that have been idle beyond a
//! time-to-live with no paired socket.

use vstd::prelude::*;
use crate::pool::{AcceptOutcome, AgentPool, TakeOutcome};
use crate::strutil::str_eq;
use crate::subdomain::is_valid_subdomain;

verus! {

broadcast use vstd::seq_lib::group_seq_properties;

/// One live tunnel: a subdomain bound to a dedicated agent-pool port and its
/// socket pool, with the timestamps idle expiry works from.
pub struct Tunnel {
    pub subdomain: String,
    pub port: u16,
    pub max_conn_count: u8,
    pub pool: AgentPool,
    pub created_at: u64,
    pub last_activity: u64,
}

impl Tunnel {
    /// A tunnel is sound when its label is grammatical and its pool keeps
    /// the pool invariant; while the tunnel is live its pool is open.
    pub open spec fn wf(&self) -> bool {
        &&& is_valid_subdomain(self.subdomain@)
        &&& self.pool.wf()
        &&& self.pool.is_open()
        &&& self.pool.capacity_spec() == self.max_conn_count
    }
}

/// The sentinel a client sends to ask for a random subdomain.
pub open spec fn new_sentinel() -> Seq<char> {
    "?new"@
}

/// The subdomain an allocation request settles on: the requested one, or the
/// freshly drawn label when the request carried the sentinel.
pub open spec fn effective_subdomain(requested: Seq<char>, random_label: Seq<char>) -> Seq<
    char,
> {
    if requested == new_sentinel() {
        random_label
    } else {
        requested
    }
}

/// Soundness of a row of live tunnels: each is well-formed, and no two share
/// a subdomain or an agent-pool port.
pub open spec fn tunnels_ok(s: Seq<Tunnel>) -> bool {
    &&& forall|i: int| 0 <= i < s.len() ==> (#[trigger] s[i]).wf()
    &&& forall|i: int, j: int|
        0 <= i < j < s.len() ==> s[i].subdomain@ != s[j].subdomain@
    &&& forall|i: int, j: int| 0 <= i < j < s.len() ==> s[i].port != s[j].port
}

/// The registry of live tunnels.
pub struct TunnelManager {
    tunnels: Vec<Tunnel>,
}

impl TunnelManager {
    /// The live tunnels, in creation order.
    pub closed spec fn tunnels_seq(&self) -> Seq<Tunnel> {
        self.tunnels@
    }

    /// Whether a live tunnel holds `s`.
    pub open spec fn contains_sub(&self, s: Seq<char>) -> bool {
        exists|i: int|
            0 <= i < self.tunnels_seq().len() && #[trigger] self.tunnels_seq()[i].subdomain@ == s
    }

    /// The index of the live tunnel holding `s`.
    pub open spec fn idx_of(&self, s: Seq<char>) -> int {
        choose|i: int|
            0 <= i < self.tunnels_seq().len() && #[trigger] self.tunnels_seq()[i].subdomain@ == s
    }

    /// Whether a live tunnel holds agent-pool port `p`.
    pub open spec fn contains_port(&self, p: u16) -> bool {
        exists|i: int| 0 <= i < self.tunnels_seq().len() && #[trigger] self.tunnels_seq()[i].port
            == p
    }

    /// The registry as a map from subdomain to agent-pool port.
    pub open spec fn map_view(&self) -> Map<Seq<char>, u16> {
        Map::new(|s: Seq<char>| self.contains_sub(s), |s: Seq<char>| self.tunnels_seq()[self.idx_of(s)].port)
    }

    /// The registry invariant: every tunnel is sound, and no subdomain and no
    /// port is held twice.
    pub open spec fn wf(&self) -> bool {
        tunnels_ok(self.tunnels_seq())
    }

    /// An empty registry.
    pub fn new() -> (m: TunnelManager)
        ensures
            m.wf(),
            m.tunnels_seq() =~= Seq::<Tunnel>::empty(),
    {
        TunnelManager { tunnels: Vec::new() }
    }

    /// The number of live tunnels.
    pub fn count(&self) -> (n: usize)
        ensures
            n == self.tunnels_seq().len(),
    {
        self.tunnels.len()
    }

    /// Whether some live tunnel already holds agent-pool port `p`.
    pub fn port_in_use(&self, p: u16) -> (r: bool)
        ensures
            r == self.contains_port(p),
    {
        let mut i: usize = 0;
        while i < self.tunnels.len()
            invariant
                i <= self.tunnels_seq().len(),
                forall|j: int| 0 <= j < i ==> self.tunnels_seq()[j].port != p,
            decreases self.tunnels.len() - i,
        {
            if self.tunnels[i].port == p {
                proof {
                    assert(self.tunnels_seq()[i as int].port == p);
                }
                return true;
            }
            i += 1;
        }
        false
    }

    fn find(&self, s: &str) -> (r: Option<usize>)
        requires
            self.wf(),
        ensures
            match r {
                Some(i) => {
                    &&& 0 <= i < self.tunnels_seq().len()
                    &&& self.tunnels_seq()[i as int].subdomain@ == s@
                    &&& self.contains_sub(s@)
                    &&& self.idx_of(s@) == i as int
                },
                None => !self.contains_sub(s@),
            },
    {
        let mut i: usize = 0;
        while i < self.tunnels.len()
            invariant
                self.wf(),
                i <= self.tunnels_seq().len(),
                forall|j: int| 0 <= j < i ==> self.tunnels_seq()[j].subdomain@ != s@,
            decreases self.tunnels.len() - i,
        {
            if str_eq(self.tunnels[i].subdomain.as_str(), s) {
                proof {
                    assert(self.tunnels_seq()[i as int].subdomain@ == s@);
                    let k = self.idx_of(s@);
                    assert(0 <= k < self.tunnels_seq().len() && self.tunnels_seq()[k].subdomain@
                        == s@) by {
                        assert(exists|j: int|
                            0 <= j < self.tunnels_seq().len()
                                && #[trigger] self.tunnels_seq()[j].subdomain@ == s@);
                    }
                    if k != i as int {
                        if k < i as int {
                            assert(self.tunnels_seq()[k].subdomain@ != self.tunnels_seq()[
                                i as int].subdomain@);
                        } else {
                            assert(self.tunnels_seq()[i as int].subdomain@ != self.tunnels_seq()[
                                k].subdomain@);
                        }
                    }
                }
                return Some(i);
            }
            i += 1;
        }
        None
    }

    /// Looks a tunnel up without mutating the registry.
    pub fn get(&self, subdomain: &str) -> (r: Option<&Tunnel>)
        requires
            self.wf(),
        ensures
            r is Some <==> self.contains_sub(subdomain@),
            r matches Some(t) ==> *t == self.tunnels_seq()[self.idx_of(subdomain@)],
    {
        match self.find(subdomain) {
            Some(i) => Some(&self.tunnels[i]),
            None => None,
        }
    }

    /// Creates or reuses the tunnel for an allocation request and returns the
    /// assigned subdomain and agent-pool port.
    ///
    /// A request for a subdomain already live refreshes that tunnel's
    /// last-activity stamp and returns its existing port, leaving the mapping
    /// unchanged; any other request creates a fresh tunnel on `fresh_port`.
    /// A request carrying the `?new` sentinel is served with `random_label`.
    pub fn put(
        &mut self,
        subdomain: &str,
        random_label: String,
        fresh_port: u16,
        max_sockets: u8,
        now: u64,
    ) -> (r: (String, u16))
        requires
            old(self).wf(),
            subdomain@ == new_sentinel() || is_valid_subdomain(subdomain@),
            is_valid_subdomain(random_label@),
            !old(self).contains_port(fresh_port),
            1 <= max_sockets,
        ensures
            final(self).wf(),
            r.0@ == effective_subdomain(subdomain@, random_label@),
            old(self).contains_sub(r.0@) ==> {
                let idx = old(self).idx_of(r.0@);
                &&& r.1 == old(self).tunnels_seq()[idx].port
                &&& final(self).tunnels_seq().len() == old(self).tunnels_seq().len()
                &&& forall|i: int|
                    0 <= i < old(self).tunnels_seq().len() && i != idx
                        ==> final(self).tunnels_seq()[i] == old(self).tunnels_seq()[i]
                &&& final(self).tunnels_seq()[idx] == Tunnel {
                    last_activity: now,
                    ..old(self).tunnels_seq()[idx]
                }
                &&& final(self).map_view() == old(self).map_view()
            },
            !old(self).contains_sub(r.0@) ==> {
                &&& r.1 == fresh_port
                &&& final(self).tunnels_seq().len() == old(self).tunnels_seq().len() + 1
                &&& forall|i: int|
                    0 <= i < old(self).tunnels_seq().len() ==> final(self).tunnels_seq()[i] == old(
                        self,
                    ).tunnels_seq()[i]
                &&& final(self).tunnels_seq().last().subdomain@ == r.0@
                &&& final(self).tunnels_seq().last().port == fresh_port
                &&& final(self).tunnels_seq().last().max_conn_count == max_sockets
                &&& final(self).tunnels_seq().last().created_at == now
                &&& final(self).tunnels_seq().last().last_activity == now
                &&& final(self).tunnels_seq().last().pool.wf()
                &&& final(self).tunnels_seq().last().pool.is_open()
                &&& final(self).tunnels_seq().last().pool.capacity_spec() == max_sockets
                &&& final(self).tunnels_seq().last().pool.waiting_ids() =~= Seq::<u64>::empty()
                &&& final(self).tunnels_seq().last().pool.paired_ids() =~= Seq::<u64>::empty()
                &&& final(self).map_view() == old(self).map_view().insert(r.0@, fresh_port)
            },
    {
        let is_sentinel = str_eq(subdomain, "?new");
        let effective: String = if is_sentinel {
            random_label
        } else {
            subdomain.to_owned()
        };
        match self.find(effective.as_str()) {
            Some(i) => {
                self.tunnels[i].last_activity = now;
                let port = self.tunnels[i].port;
                proof {
                    assert(self.tunnels_seq()[old(self).idx_of(effective@)] == Tunnel {
                        last_activity: now,
                        ..old(self).tunnels_seq()[old(self).idx_of(effective@)]
                    });
                    lemma_same_subdomains_same_map(old(self), self);
                }
                (effective, port)
            },
            None => {
                let pool = AgentPool::new(max_sockets);
                let tunnel = Tunnel {
                    subdomain: effective.clone(),
                    port: fresh_port,
                    max_conn_count: max_sockets,
                    pool,
                    created_at: now,
                    last_activity: now,
                };
                self.tunnels.push(tunnel);
                proof {
                    assert forall|s: Seq<char>| #[trigger] old(self).contains_sub(s) implies
                        self.contains_sub(s) && self.idx_of(s) == old(self).idx_of(s) && old(
                        self,
                    ).tunnels_seq()[old(self).idx_of(s)].port == self.tunnels_seq()[self.idx_of(
                        s,
                    )].port by {
                        lemma_member_idx(old(self), self, s);
                    }
                    assert forall|s: Seq<char>| #[trigger] self.contains_sub(s) && s != effective@
                        implies old(self).contains_sub(s) by {
                        let i = choose|i: int|
                            0 <= i < self.tunnels_seq().len()
                                && #[trigger] self.tunnels_seq()[i].subdomain@ == s;
                        assert(i < old(self).tunnels_seq().len());
                        assert(old(self).tunnels_seq()[i].subdomain@ == s);
                    }
                    assert(self.contains_sub(effective@)) by {
                        assert(self.tunnels_seq()[self.tunnels_seq().len() - 1].subdomain@
                            == effective@);
                    }
                    assert(self.tunnels_seq()[self.idx_of(effective@)].port == fresh_port) by {
                        let k = self.idx_of(effective@);
                        assert(0 <= k < self.tunnels_seq().len() && self.tunnels_seq()[
                            k].subdomain@ == effective@);
                        if k != self.tunnels_seq().len() - 1 {
                            assert(old(self).tunnels_seq()[k].subdomain@ == effective@);
                            assert(old(self).contains_sub(effective@));
                        }
                    }
                    assert(self.map_view() =~= old(self).map_view().insert(
                        effective@,
                        fresh_port,
                    ));
                }
                (effective, fresh_port)
            },
        }
    }

    /// Removes the tunnel for `subdomain`, tearing its pool down, and hands
    /// it back so its sockets can be closed; reports a miss unchanged.
    pub fn remove(&mut self, subdomain: &str) -> (r: Option<Tunnel>)
        requires
            old(self).wf(),
        ensures
            final(self).wf(),
            r is Some <==> old(self).contains_sub(subdomain@),
            !old(self).contains_sub(subdomain@) ==> final(self).tunnels_seq() == old(
                self,
            ).tunnels_seq(),
            r matches Some(t) ==> {
                let idx = old(self).idx_of(subdomain@);
                &&& t.subdomain@ == subdomain@
                &&& t.port == old(self).tunnels_seq()[idx].port
                &&& !t.pool.is_open()
                &&& t.pool.paired_ids() == old(self).tunnels_seq()[idx].pool.paired_ids()
                &&& final(self).tunnels_seq() == old(self).tunnels_seq().remove(idx)
                &&& !final(self).contains_sub(subdomain@)
            },
    {
        match self.find(subdomain) {
            Some(i) => {
                let mut tunnel = self.tunnels.remove(i);
                let _drained = tunnel.pool.shutdown();
                proof {
                    assert forall|s: Seq<char>| #[trigger] self.contains_sub(s) implies old(
                        self,
                    ).contains_sub(s) by {
                        let j = choose|j: int|
                            0 <= j < self.tunnels_seq().len()
                                && #[trigger] self.tunnels_seq()[j].subdomain@ == s;
                        if j < i {
                            assert(old(self).tunnels_seq()[j].subdomain@ == s);
                        } else {
                            assert(old(self).tunnels_seq()[j + 1].subdomain@ == s);
                        }
                    }
                    assert(!self.contains_sub(subdomain@)) by {
                        if self.contains_sub(subdomain@) {
                            let j = choose|j: int|
                                0 <= j < self.tunnels_seq().len()
                                    && #[trigger] self.tunnels_seq()[j].subdomain@ == subdomain@;
                            if j < i {
                                assert(old(self).tunnels_seq()[j].subdomain@ == subdomain@);
                                assert(old(self).tunnels_seq()[i as int].subdomain@ == subdomain@);
                            } else {
                                assert(old(self).tunnels_seq()[j + 1].subdomain@ == subdomain@);
                                assert(old(self).tunnels_seq()[i as int].subdomain@ == subdomain@);
                            }
                        }
                    }
                }
                Some(tunnel)
            },
            None => None,
        }
    }

    /// Whether a tunnel is due for expiry at `now`: idle past the
    /// time-to-live with no socket paired.
    pub open spec fn expired(t: Tunnel, now: u64, ttl: u64) -> bool {
        &&& t.last_activity + ttl < now
        &&& t.pool.paired_ids().len() == 0
    }

    /// Offers an accepted agent socket to the pool of the tunnel holding
    /// `subdomain`; reports a miss unchanged. The caller closes the socket
    /// when the pool rejects it for capacity.
    pub fn accept_agent(&mut self, subdomain: &str) -> (r: Option<AcceptOutcome>)
        requires
            old(self).wf(),
        ensures
            final(self).wf(),
            r is Some <==> old(self).contains_sub(subdomain@),
            r is None ==> final(self).tunnels_seq() == old(self).tunnels_seq(),
            r matches Some(outcome) ==> ({
                let idx = old(self).idx_of(subdomain@);
                let pre = old(self).tunnels_seq()[idx];
                let post = final(self).tunnels_seq()[idx];
                &&& final(self).tunnels_seq().len() == old(self).tunnels_seq().len()
                &&& forall|i: int|
                    0 <= i < old(self).tunnels_seq().len() && i != idx ==> final(self).tunnels_seq()[i] == old(self).tunnels_seq()[i]
                &&& post == Tunnel { pool: post.pool, ..pre }
                &&& (pre.pool.next_id_spec() == u64::MAX ==> outcome == AcceptOutcome::Rejected
                    && post.pool == pre.pool)
                &&& (pre.pool.next_id_spec() < u64::MAX && pre.pool.live()
                    < pre.pool.capacity_spec() ==> {
                    &&& outcome == AcceptOutcome::Enqueued(pre.pool.next_id_spec())
                    &&& post.pool.waiting_ids() == pre.pool.waiting_ids().push(
                        pre.pool.next_id_spec(),
                    )
                    &&& post.pool.paired_ids() == pre.pool.paired_ids()
                })
                &&& (pre.pool.next_id_spec() < u64::MAX && pre.pool.live()
                    >= pre.pool.capacity_spec() ==> outcome == AcceptOutcome::Rejected
                    && post.pool.waiting_ids() == pre.pool.waiting_ids()
                    && post.pool.paired_ids() == pre.pool.paired_ids())
            }),
    {
        match self.find(subdomain) {
            Some(i) => {
                if !self.tunnels[i].pool.id_headroom() {
                    return Some(AcceptOutcome::Rejected);
                }
                let outcome = self.tunnels[i].pool.accept();
                proof {
                    lemma_same_subdomains_same_map(old(self), self);
                }
                Some(outcome)
            },
            None => None,
        }
    }

    /// Takes the oldest waiting agent socket of the tunnel holding
    /// `subdomain` for a new pairing; reports a miss unchanged.
    pub fn take_agent(&mut self, subdomain: &str) -> (r: Option<TakeOutcome>)
        requires
            old(self).wf(),
        ensures
            final(self).wf(),
            r is Some <==> old(self).contains_sub(subdomain@),
            r is None ==> final(self).tunnels_seq() == old(self).tunnels_seq(),
            r matches Some(outcome) ==> ({
                let idx = old(self).idx_of(subdomain@);
                let pre = old(self).tunnels_seq()[idx];
                let post = final(self).tunnels_seq()[idx];
                &&& final(self).tunnels_seq().len() == old(self).tunnels_seq().len()
                &&& forall|i: int|
                    0 <= i < old(self).tunnels_seq().len() && i != idx ==> final(self).tunnels_seq()[i] == old(self).tunnels_seq()[i]
                &&& post == Tunnel { pool: post.pool, ..pre }
                &&& (pre.pool.waiting_ids().len() == 0 ==> outcome == TakeOutcome::Empty
                    && post.pool.waiting_ids() == pre.pool.waiting_ids()
                    && post.pool.paired_ids() == pre.pool.paired_ids())
                &&& (pre.pool.waiting_ids().len() > 0 ==> {
                    &&& outcome == TakeOutcome::Taken(pre.pool.waiting_ids()[0])
                    &&& post.pool.waiting_ids() == pre.pool.waiting_ids().drop_first()
                    &&& post.pool.paired_ids() == pre.pool.paired_ids().push(
                        pre.pool.waiting_ids()[0],
                    )
                })
            }),
    {
        match self.find(subdomain) {
            Some(i) => {
                proof {
                    assert(old(self).tunnels_seq()[i as int].wf());
                }
                let outcome = self.tunnels[i].pool.take();
                proof {
                    lemma_same_subdomains_same_map(old(self), self);
                }
                Some(outcome)
            },
            None => None,
        }
    }

    /// Reports that the pairing holding socket `id` of the tunnel holding
    /// `subdomain` has finished; reports a miss unchanged.
    pub fn complete_agent(&mut self, subdomain: &str, id: u64) -> (r: bool)
        requires
            old(self).wf(),
        ensures
            final(self).wf(),
            r ==> old(self).contains_sub(subdomain@),
            !old(self).contains_sub(subdomain@) ==> final(self).tunnels_seq() == old(
                self,
            ).tunnels_seq(),
            old(self).contains_sub(subdomain@) ==> ({
                let idx = old(self).idx_of(subdomain@);
                let pre = old(self).tunnels_seq()[idx];
                let post = final(self).tunnels_seq()[idx];
                &&& r == pre.pool.paired_ids().contains(id)
                &&& final(self).tunnels_seq().len() == old(self).tunnels_seq().len()
                &&& forall|i: int|
                    0 <= i < old(self).tunnels_seq().len() && i != idx ==> final(self).tunnels_seq()[i] == old(self).tunnels_seq()[i]
                &&& post == Tunnel { pool: post.pool, ..pre }
                &&& post.pool.waiting_ids() == pre.pool.waiting_ids()
                &&& (r ==> post.pool.paired_ids() == pre.pool.paired_ids().remove(
                    pre.pool.paired_ids().index_of(id),
                ) && post.pool.closed_ids() == pre.pool.closed_ids().insert(id))
                &&& (!r ==> post.pool.paired_ids() == pre.pool.paired_ids())
            }),
    {
        match self.find(subdomain) {
            Some(i) => {
                proof {
                    assert(old(self).tunnels_seq()[i as int].wf());
                }
                let done = self.tunnels[i].pool.complete(id);
                proof {
                    lemma_same_subdomains_same_map(old(self), self);
                }
                done
            },
            None => false,
        }
    }

    /// The tunnels that survive a reaping pass at `now`, in registry
    /// order: exactly those not due for expiry.
    pub open spec fn surviving(s: Seq<Tunnel>, now: u64, ttl: u64) -> Seq<Tunnel>
        decreases s.len(),
    {
        if s.len() == 0 {
            Seq::empty()
        } else {
            let rest = Self::surviving(s.drop_first(), now, ttl);
            if Self::expired(s[0], now, ttl) {
                rest
            } else {
                seq![s[0]] + rest
            }
        }
    }

    /// Removes every tunnel idle beyond `ttl` with no paired socket, tearing
    /// their pools down, and hands them back so their sockets can be closed.
    pub fn reap_idle(&mut self, now: u64, ttl: u64) -> (reaped: Vec<Tunnel>)
        requires
            old(self).wf(),
        ensures
            final(self).wf(),
            final(self).tunnels_seq() == Self::surviving(old(self).tunnels_seq(), now, ttl),
            forall|i: int|
                0 <= i < reaped@.len() ==> !(#[trigger] reaped@[i].pool.is_open()),
    {
        let mut kept: Vec<Tunnel> = Vec::new();
        let mut reaped: Vec<Tunnel> = Vec::new();
        let ghost all = old(self).tunnels_seq();
        while self.tunnels.len() > 0
            invariant
                Self::surviving(all, now, ttl) =~= kept@ + Self::surviving(
                    self.tunnels@,
                    now,
                    ttl,
                ),
                tunnels_ok(kept@),
                forall|k: int, j: int|
                    0 <= k < kept@.len() && 0 <= j < self.tunnels@.len() ==> kept@[k].subdomain@
                        != self.tunnels@[j].subdomain@ && kept@[k].port != self.tunnels@[j].port,
                tunnels_ok(self.tunnels@),
                forall|i: int|
                    0 <= i < reaped@.len() ==> !(#[trigger] reaped@[i].pool.is_open()),
            decreases self.tunnels@.len(),
        {
            let ghost cur = self.tunnels@;
            let t = self.tunnels.remove(0);
            let stats = t.pool.stats();
            let idle_past_ttl = (t.last_activity as u128) + (ttl as u128) < (now as u128);
            let keep = !(idle_past_ttl && stats.paired == 0);
            proof {
                assert(cur[0] == t);
                assert(cur.drop_first() =~= self.tunnels@);
                assert(Self::surviving(cur, now, ttl) == if Self::expired(t, now, ttl) {
                    Self::surviving(self.tunnels@, now, ttl)
                } else {
                    seq![t] + Self::surviving(self.tunnels@, now, ttl)
                });
                assert(keep == !Self::expired(t, now, ttl));
                assert forall|i: int| 0 <= i < self.tunnels@.len() implies (
                    #[trigger] self.tunnels@[i]).wf() by {
                    assert(self.tunnels@[i] == cur[i + 1]);
                }
            }
            if keep {
                kept.push(t);
                proof {
                    assert(kept@ + Self::surviving(self.tunnels@, now, ttl) =~= Self::surviving(
                        all,
                        now,
                        ttl,
                    ));
                }
            } else {
                let mut torn = t;
                let _drained = torn.pool.shutdown();
                reaped.push(torn);
            }
        }
        core::mem::swap(&mut self.tunnels, &mut kept);
        proof {
            assert(Self::surviving(Seq::<Tunnel>::empty(), now, ttl) =~= Seq::<Tunnel>::empty());
            assert(self.tunnels@ =~= Self::surviving(all, now, ttl));
        }
        reaped
    }
}

proof fn lemma_member_idx(pre: &TunnelManager, post: &TunnelManager, s: Seq<char>)
    requires
        pre.wf(),
        pre.contains_sub(s),
        post.tunnels_seq().len() == pre.tunnels_seq().len() + 1,
        forall|i: int|
            0 <= i < pre.tunnels_seq().len() ==> post.tunnels_seq()[i] == pre.tunnels_seq()[i],
        post.tunnels_seq().last().subdomain@ != s,
    ensures
        post.contains_sub(s),
        post.idx_of(s) == pre.idx_of(s),
        pre.tunnels_seq()[pre.idx_of(s)].port == post.tunnels_seq()[post.idx_of(s)].port,
{
    let i = pre.idx_of(s);
    assert(0 <= i < pre.tunnels_seq().len() && pre.tunnels_seq()[i].subdomain@ == s) by {
        assert(exists|j: int|
            0 <= j < pre.tunnels_seq().len() && #[trigger] pre.tunnels_seq()[j].subdomain@ == s);
    }
    assert(post.tunnels_seq()[i].subdomain@ == s);
    assert(post.contains_sub(s));
    let k = post.idx_of(s);
    assert(0 <= k < post.tunnels_seq().len() && post.tunnels_seq()[k].subdomain@ == s) by {
        assert(exists|j: int|
            0 <= j < post.tunnels_seq().len() && #[trigger] post.tunnels_seq()[j].subdomain@ == s);
    }
    if k != i {
        assert(k < post.tunnels_seq().len() - 1);
        assert(pre.tunnels_seq()[k].subdomain@ == s);
        assert(pre.tunnels_seq()[i].subdomain@ == pre.tunnels_seq()[k].subdomain@);
        if i < k {
            assert(pre.tunnels_seq()[i].subdomain@ != pre.tunnels_seq()[k].subdomain@);
        } else {
            assert(pre.tunnels_seq()[k].subdomain@ != pre.tunnels_seq()[i].subdomain@);
        }
    }
}

proof fn lemma_same_subdomains_same_map(pre: &TunnelManager, post: &TunnelManager)
    requires
        pre.wf(),
        pre.tunnels_seq().len() == post.tunnels_seq().len(),
        forall|i: int|
            0 <= i < pre.tunnels_seq().len() ==> pre.tunnels_seq()[i].subdomain@
                == post.tunnels_seq()[i].subdomain@ && pre.tunnels_seq()[i].port
                == post.tunnels_seq()[i].port,
    ensures
        pre.map_view() == post.map_view(),
{
    assert forall|s: Seq<char>| #[trigger] pre.contains_sub(s) implies post.contains_sub(s) by {
        let i = choose|i: int|
            0 <= i < pre.tunnels_seq().len() && #[trigger] pre.tunnels_seq()[i].subdomain@ == s;
        assert(post.tunnels_seq()[i].subdomain@ == s);
    }
    assert forall|s: Seq<char>| #[trigger] post.contains_sub(s) implies pre.contains_sub(s) by {
        let i = choose|i: int|
            0 <= i < post.tunnels_seq().len() && #[trigger] post.tunnels_seq()[i].subdomain@ == s;
        assert(pre.tunnels_seq()[i].subdomain@ == s);
    }
    assert forall|s: Seq<char>| #[trigger] pre.contains_sub(s) implies
        pre.tunnels_seq()[pre.idx_of(s)].port == post.tunnels_seq()[post.idx_of(s)].port by {
        let i = pre.idx_of(s);
        assert(0 <= i < pre.tunnels_seq().len() && pre.tunnels_seq()[i].subdomain@ == s) by {
            assert(exists|j: int|
                0 <= j < pre.tunnels_seq().len() && #[trigger] pre.tunnels_seq()[j].subdomain@
                    == s);
        }
        let k = post.idx_of(s);
        assert(0 <= k < post.tunnels_seq().len() && post.tunnels_seq()[k].subdomain@ == s) by {
            assert(post.tunnels_seq()[i].subdomain@ == s);
            assert(exists|j: int|
                0 <= j < post.tunnels_seq().len() && #[trigger] post.tunnels_seq()[j].subdomain@
                    == s);
        }
        assert(pre.tunnels_seq()[k].subdomain@ == s);
        if k != i {
            if i < k {
                assert(pre.tunnels_seq()[i].subdomain@ != pre.tunnels_seq()[k].subdomain@);
            } else {
                assert(pre.tunnels_seq()[k].subdomain@ != pre.tunnels_seq()[i].subdomain@);
            }
        }
    }
    assert(pre.map_view() =~= post.map_view());
}

/// The uniqueness law: in a well-formed registry no subdomain and no
/// agent-pool port is held by two live tunnels at once.
pub proof fn lemma_no_duplicate_subdomains(m: &TunnelManager, i: int, j: int)
    requires
        m.wf(),
        0 <= i < j < m.tunnels_seq().len(),
    ensures
        m.tunnels_seq()[i].subdomain@ != m.tunnels_seq()[j].subdomain@,
        m.tunnels_seq()[i].port != m.tunnels_seq()[j].port,
{
}

} // verus!

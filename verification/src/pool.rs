//! The per-tunnel agent socket pool: a bounded FIFO of ready agent sockets.
//!
//! Sockets are tracked by identifier; the process around the library owns the
//! actual connections and mirrors every event here: an accepted agent socket
//! is offered with [`AgentPool::accept`], a user connection takes the oldest
//! waiting socket with [`AgentPool::take`], and a finished pairing reports
//! back with [`AgentPool::complete`]. The pool maintains the capacity bound
//! `waiting + paired <= capacity` and keeps every socket in exactly one of
//! the states waiting, paired or closed.

use vstd::prelude::*;

verus! {

broadcast use vstd::seq_lib::group_seq_properties;

/// A snapshot of the pool for health reporting.
#[derive(Debug, Clone, PartialEq, Eq, Structural)]
pub struct PoolStats {
    pub waiting: usize,
    pub paired: usize,
    pub capacity: u8,
}

/// What became of an agent socket offered to the pool.
#[derive(Debug, PartialEq, Eq, Structural)]
pub enum AcceptOutcome {
    /// The socket was parked in the waiting FIFO under this identifier.
    Enqueued(u64),
    /// The pool is at capacity; the socket must be closed at once.
    Rejected,
}

/// What a request for a ready agent socket yielded.
#[derive(Debug, PartialEq, Eq, Structural)]
pub enum TakeOutcome {
    /// The oldest waiting socket, now paired.
    Taken(u64),
    /// No socket is waiting; the caller may wait and ask again.
    Empty,
    /// The tunnel is being torn down; pending takers must fail.
    TunnelGone,
}

/// The bounded pool of agent sockets belonging to one tunnel.
pub struct AgentPool {
    capacity: u8,
    next_id: u64,
    open: bool,
    waiting: Vec<u64>,
    paired: Vec<u64>,
    accepted: Ghost<Set<u64>>,
    closed: Ghost<Set<u64>>,
}

impl AgentPool {
    /// The capacity the pool was created with.
    pub closed spec fn capacity_spec(&self) -> u8 {
        self.capacity
    }

    /// Identifiers of sockets parked in the waiting FIFO, oldest first.
    pub closed spec fn waiting_ids(&self) -> Seq<u64> {
        self.waiting@
    }

    /// Identifiers of sockets handed to a pairing and not yet completed.
    pub closed spec fn paired_ids(&self) -> Seq<u64> {
        self.paired@
    }

    /// Identifiers of sockets that have been closed.
    pub closed spec fn closed_ids(&self) -> Set<u64> {
        self.closed@
    }

    /// Identifiers of every socket ever enqueued (not rejected for capacity).
    pub closed spec fn accepted_ids(&self) -> Set<u64> {
        self.accepted@
    }

    /// Whether the pool still accepts and hands out sockets.
    pub closed spec fn is_open(&self) -> bool {
        self.open
    }

    /// The identifier the next enqueued socket will get.
    pub closed spec fn next_id_spec(&self) -> u64 {
        self.next_id
    }

    /// Waiting and paired sockets together: the live load on the pool.
    pub open spec fn live(&self) -> int {
        self.waiting_ids().len() + self.paired_ids().len() as int
    }

    /// The pool's invariant: the FIFO holds no socket twice, no socket is in
    /// two states at once, every accepted socket is in exactly one state, and
    /// the live load never exceeds the capacity.
    pub open spec fn wf(&self) -> bool {
        &&& 1 <= self.capacity_spec()
        &&& self.waiting_ids().no_duplicates()
        &&& self.paired_ids().no_duplicates()
        &&& forall|id: u64|
            !(self.waiting_ids().contains(id) && self.paired_ids().contains(id))
        &&& forall|id: u64|
            self.waiting_ids().contains(id) ==> !self.closed_ids().contains(id)
        &&& forall|id: u64|
            self.paired_ids().contains(id) ==> !self.closed_ids().contains(id)
        &&& forall|id: u64|
            self.accepted_ids().contains(id) <==> (self.waiting_ids().contains(id)
                || self.paired_ids().contains(id) || self.closed_ids().contains(id))
        &&& self.live() <= self.capacity_spec()
        &&& forall|id: u64| self.accepted_ids().contains(id) ==> id < self.next_id_spec()
    }

    /// A fresh pool for a new tunnel.
    pub fn new(capacity: u8) -> (p: AgentPool)
        requires
            1 <= capacity,
        ensures
            p.wf(),
            p.capacity_spec() == capacity,
            p.is_open(),
            p.waiting_ids() =~= Seq::<u64>::empty(),
            p.paired_ids() =~= Seq::<u64>::empty(),
            p.closed_ids() =~= Set::<u64>::empty(),
            p.accepted_ids() =~= Set::<u64>::empty(),
    {
        AgentPool {
            capacity,
            next_id: 0,
            open: true,
            waiting: Vec::new(),
            paired: Vec::new(),
            accepted: Ghost(Set::empty()),
            closed: Ghost(Set::empty()),
        }
    }

    /// Whether identifiers can still be assigned. Practically always true;
    /// callers check it before offering a socket.
    pub fn id_headroom(&self) -> (r: bool)
        ensures
            r == (self.next_id_spec() < u64::MAX),
    {
        self.next_id < u64::MAX
    }

    /// Offers a newly accepted agent socket. Below capacity it is parked at
    /// the back of the FIFO; at capacity it is rejected and must be closed.
    pub fn accept(&mut self) -> (r: AcceptOutcome)
        requires
            old(self).wf(),
            old(self).is_open(),
            old(self).next_id_spec() < u64::MAX,
        ensures
            final(self).wf(),
            final(self).capacity_spec() == old(self).capacity_spec(),
            final(self).is_open(),
            final(self).paired_ids() == old(self).paired_ids(),
            final(self).closed_ids() == old(self).closed_ids(),
            old(self).live() < old(self).capacity_spec() ==> {
                &&& r == AcceptOutcome::Enqueued(old(self).next_id_spec())
                &&& final(self).waiting_ids() == old(self).waiting_ids().push(
                    old(self).next_id_spec(),
                )
                &&& final(self).accepted_ids() == old(self).accepted_ids().insert(
                    old(self).next_id_spec(),
                )
                &&& final(self).next_id_spec() == old(self).next_id_spec() + 1
            },
            old(self).live() >= old(self).capacity_spec() ==> {
                &&& r == AcceptOutcome::Rejected
                &&& final(self).waiting_ids() == old(self).waiting_ids()
                &&& final(self).accepted_ids() == old(self).accepted_ids()
                &&& final(self).next_id_spec() == old(self).next_id_spec()
            },
    {
        let live = self.waiting.len() + self.paired.len();
        if live < self.capacity as usize {
            let id = self.next_id;
            self.next_id = self.next_id + 1;
            self.waiting.push(id);
            proof {
                self.accepted@ = self.accepted@.insert(id);
                assert(!old(self).waiting_ids().contains(id));
                assert(!old(self).paired_ids().contains(id));
                assert(!old(self).closed_ids().contains(id));
            }
            AcceptOutcome::Enqueued(id)
        } else {
            AcceptOutcome::Rejected
        }
    }

    /// Hands out the oldest waiting socket and marks it paired; reports an
    /// empty FIFO or a torn-down pool instead.
    pub fn take(&mut self) -> (r: TakeOutcome)
        requires
            old(self).wf(),
        ensures
            final(self).wf(),
            final(self).capacity_spec() == old(self).capacity_spec(),
            final(self).is_open() == old(self).is_open(),
            final(self).closed_ids() == old(self).closed_ids(),
            final(self).accepted_ids() == old(self).accepted_ids(),
            final(self).next_id_spec() == old(self).next_id_spec(),
            !old(self).is_open() ==> {
                &&& r == TakeOutcome::TunnelGone
                &&& final(self).waiting_ids() == old(self).waiting_ids()
                &&& final(self).paired_ids() == old(self).paired_ids()
            },
            old(self).is_open() && old(self).waiting_ids().len() == 0 ==> {
                &&& r == TakeOutcome::Empty
                &&& final(self).waiting_ids() == old(self).waiting_ids()
                &&& final(self).paired_ids() == old(self).paired_ids()
            },
            old(self).is_open() && old(self).waiting_ids().len() > 0 ==> {
                &&& r == TakeOutcome::Taken(old(self).waiting_ids()[0])
                &&& final(self).waiting_ids() == old(self).waiting_ids().drop_first()
                &&& final(self).paired_ids() == old(self).paired_ids().push(
                    old(self).waiting_ids()[0],
                )
            },
    {
        if !self.open {
            return TakeOutcome::TunnelGone;
        }
        if self.waiting.len() == 0 {
            return TakeOutcome::Empty;
        }
        let id = self.waiting.remove(0);
        self.paired.push(id);
        proof {
            assert(old(self).waiting_ids().contains(old(self).waiting_ids()[0]));
            assert(self.waiting@ =~= old(self).waiting_ids().drop_first());
            assert forall|x: u64| self.waiting@.contains(x) implies old(
                self,
            ).waiting_ids().contains(x) by {
                let i = choose|i: int|
                    0 <= i < self.waiting@.len() && self.waiting@[i] == x;
                assert(old(self).waiting_ids()[i + 1] == x);
            }
        }
        TakeOutcome::Taken(id)
    }

    /// Records that the pairing holding `id` has finished and the socket is
    /// closed. Returns whether `id` was indeed paired.
    pub fn complete(&mut self, id: u64) -> (r: bool)
        requires
            old(self).wf(),
        ensures
            final(self).wf(),
            final(self).capacity_spec() == old(self).capacity_spec(),
            final(self).is_open() == old(self).is_open(),
            final(self).waiting_ids() == old(self).waiting_ids(),
            final(self).accepted_ids() == old(self).accepted_ids(),
            final(self).next_id_spec() == old(self).next_id_spec(),
            r == old(self).paired_ids().contains(id),
            r ==> {
                &&& final(self).paired_ids() == old(self).paired_ids().remove(
                    old(self).paired_ids().index_of(id),
                )
                &&& final(self).closed_ids() == old(self).closed_ids().insert(id)
            },
            !r ==> {
                &&& final(self).paired_ids() == old(self).paired_ids()
                &&& final(self).closed_ids() == old(self).closed_ids()
            },
    {
        let mut i: usize = 0;
        while i < self.paired.len()
            invariant
                old(self).wf(),
                i <= self.paired.len(),
                *self == *old(self),
                forall|j: int| 0 <= j < i ==> self.paired@[j] != id,
            decreases self.paired.len() - i,
        {
            if self.paired[i] == id {
                proof {
                    assert(old(self).paired_ids().contains(id)) by {
                        assert(old(self).paired_ids()[i as int] == id);
                    }
                    let k = old(self).paired_ids().index_of(id);
                    assert(0 <= k < old(self).paired_ids().len() && old(self).paired_ids()[k]
                        == id) by {
                        assert(exists|j: int|
                            0 <= j < old(self).paired_ids().len() && old(self).paired_ids()[j]
                                == id);
                    }
                    if k != i as int {
                        assert(old(self).paired_ids()[k] != old(self).paired_ids()[i as int]);
                    }
                }
                self.paired.remove(i);
                proof {
                    self.closed@ = self.closed@.insert(id);
                    assert forall|x: u64| self.paired@.contains(x) implies old(
                        self,
                    ).paired_ids().contains(x) && x != id by {
                        let j = choose|j: int|
                            0 <= j < self.paired@.len() && self.paired@[j] == x;
                        if j < i {
                            assert(old(self).paired_ids()[j] == x);
                        } else {
                            assert(old(self).paired_ids()[j + 1] == x);
                        }
                    }
                }
                return true;
            }
            i += 1;
        }
        proof {
            assert(!old(self).paired_ids().contains(id));
        }
        false
    }

    /// Drops a waiting socket that was observed closed by its peer. Returns
    /// whether `id` was waiting.
    pub fn discard_waiting(&mut self, id: u64) -> (r: bool)
        requires
            old(self).wf(),
        ensures
            final(self).wf(),
            final(self).capacity_spec() == old(self).capacity_spec(),
            final(self).is_open() == old(self).is_open(),
            final(self).paired_ids() == old(self).paired_ids(),
            final(self).accepted_ids() == old(self).accepted_ids(),
            final(self).next_id_spec() == old(self).next_id_spec(),
            r == old(self).waiting_ids().contains(id),
            r ==> {
                &&& final(self).waiting_ids() == old(self).waiting_ids().remove(
                    old(self).waiting_ids().index_of(id),
                )
                &&& final(self).closed_ids() == old(self).closed_ids().insert(id)
            },
            !r ==> {
                &&& final(self).waiting_ids() == old(self).waiting_ids()
                &&& final(self).closed_ids() == old(self).closed_ids()
            },
    {
        let mut i: usize = 0;
        while i < self.waiting.len()
            invariant
                old(self).wf(),
                i <= self.waiting.len(),
                *self == *old(self),
                forall|j: int| 0 <= j < i ==> self.waiting@[j] != id,
            decreases self.waiting.len() - i,
        {
            if self.waiting[i] == id {
                proof {
                    assert(old(self).waiting_ids().contains(id)) by {
                        assert(old(self).waiting_ids()[i as int] == id);
                    }
                    let k = old(self).waiting_ids().index_of(id);
                    assert(0 <= k < old(self).waiting_ids().len() && old(self).waiting_ids()[k]
                        == id) by {
                        assert(exists|j: int|
                            0 <= j < old(self).waiting_ids().len() && old(self).waiting_ids()[j]
                                == id);
                    }
                    if k != i as int {
                        assert(old(self).waiting_ids()[k] != old(self).waiting_ids()[i as int]);
                    }
                }
                self.waiting.remove(i);
                proof {
                    self.closed@ = self.closed@.insert(id);
                    assert forall|x: u64| self.waiting@.contains(x) implies old(
                        self,
                    ).waiting_ids().contains(x) && x != id by {
                        let j = choose|j: int|
                            0 <= j < self.waiting@.len() && self.waiting@[j] == x;
                        if j < i {
                            assert(old(self).waiting_ids()[j] == x);
                        } else {
                            assert(old(self).waiting_ids()[j + 1] == x);
                        }
                    }
                }
                return true;
            }
            i += 1;
        }
        proof {
            assert(!old(self).waiting_ids().contains(id));
        }
        false
    }

    /// Tears the pool down: no more sockets are accepted or handed out, and
    /// every waiting socket is closed. Paired sockets survive until their
    /// pairing completes.
    pub fn shutdown(&mut self) -> (drained: Vec<u64>)
        requires
            old(self).wf(),
        ensures
            final(self).wf(),
            final(self).capacity_spec() == old(self).capacity_spec(),
            !final(self).is_open(),
            drained@ == old(self).waiting_ids(),
            final(self).waiting_ids() =~= Seq::<u64>::empty(),
            final(self).paired_ids() == old(self).paired_ids(),
            final(self).accepted_ids() == old(self).accepted_ids(),
            final(self).closed_ids() == old(self).closed_ids().union(
                old(self).waiting_ids().to_set(),
            ),
    {
        self.open = false;
        let mut drained: Vec<u64> = Vec::new();
        core::mem::swap(&mut drained, &mut self.waiting);
        proof {
            self.closed@ = self.closed@.union(old(self).waiting_ids().to_set());
            assert(self.waiting@.no_duplicates());
            assert(self.paired@.no_duplicates());
            assert(forall|id: u64|
                !(self.waiting@.contains(id) && self.paired@.contains(id)));
            assert(forall|id: u64| self.waiting@.contains(id) ==> !self.closed@.contains(id));
            assert(forall|id: u64| self.paired@.contains(id) ==> !self.closed@.contains(id));
            assert(forall|id: u64|
                self.accepted@.contains(id) <==> (self.waiting@.contains(id)
                    || self.paired@.contains(id) || self.closed@.contains(id)));
            assert(self.live() <= self.capacity_spec());
            assert(forall|id: u64| self.accepted@.contains(id) ==> id < self.next_id);
            assert(self.wf());
        }
        drained
    }

    /// The health snapshot: waiting count, paired count and capacity.
    pub fn stats(&self) -> (s: PoolStats)
        ensures
            s.waiting == self.waiting_ids().len(),
            s.paired == self.paired_ids().len(),
            s.capacity == self.capacity_spec(),
    {
        PoolStats { waiting: self.waiting.len(), paired: self.paired.len(), capacity: self.capacity }
    }

    /// The number of sockets currently serving a pairing.
    pub fn connected_sockets(&self) -> (n: usize)
        ensures
            n == self.paired_ids().len(),
    {
        self.paired.len()
    }
}

/// The capacity law: at every observation point of a well-formed pool, the
/// waiting and paired sockets together never exceed the capacity.
pub proof fn lemma_pool_capacity_bound(p: &AgentPool)
    requires
        p.wf(),
    ensures
        p.waiting_ids().len() + p.paired_ids().len() <= p.capacity_spec(),
{
}

/// The state-exclusivity law: an accepted socket is waiting, paired or
/// closed, and never in two of those states at once.
pub proof fn lemma_socket_state_exclusive(p: &AgentPool, id: u64)
    requires
        p.wf(),
        p.accepted_ids().contains(id),
    ensures
        p.waiting_ids().contains(id) || p.paired_ids().contains(id) || p.closed_ids().contains(
            id,
        ),
        !(p.waiting_ids().contains(id) && p.paired_ids().contains(id)),
        !(p.waiting_ids().contains(id) && p.closed_ids().contains(id)),
        !(p.paired_ids().contains(id) && p.closed_ids().contains(id)),
{
}

} // verus!

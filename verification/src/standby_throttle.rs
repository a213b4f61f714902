//! Throttling of outbound Raft RPCs toward standby (learner) peers.
//!
//! Voter-to-voter replication is untouched: only targets in the standby set
//! are delayed and limited to a number of concurrent RPCs. The permit pools
//! themselves (`P`) are created by the caller; this type decides when a pool
//! is needed, with which capacity, and when it is dropped.

use std::collections::HashMap;
use std::collections::HashSet;
use vstd::prelude::*;
use vstd::std_specs::iter::IteratorSpec;

use crate::config::ClusterConfig;

verus! {

/// The default number of concurrent RPCs toward one standby.
pub const DEFAULT_MAX_INFLIGHT: u32 = 8;

/// Abstract throttle state: the standby ids, the delay before each RPC to a
/// standby, the concurrency limit, and the targets that have a permit pool.
pub struct ThrottleState {
    pub standby_ids: Set<u64>,
    pub delay_ms: u64,
    pub max_inflight: u32,
    pub pools: Set<u64>,
}

/// How an RPC to a standby is held back: the delay before sending and the
/// capacity a new permit pool for the target gets.
#[derive(PartialEq, Eq, Structural, Clone, Copy, Debug)]
pub struct SendPlan {
    pub delay_ms: u64,
    pub capacity: usize,
}

/// Standby peer set and soft replication limits.
pub struct StandbyThrottle<P> {
    standby_ids: HashSet<u64>,
    delay_ms: u64,
    max_inflight: u32,
    pools: HashMap<u64, P>,
}

impl<P> View for StandbyThrottle<P> {
    type V = ThrottleState;

    closed spec fn view(&self) -> ThrottleState {
        ThrottleState {
            standby_ids: self.standby_ids@,
            delay_ms: self.delay_ms,
            max_inflight: self.max_inflight,
            pools: self.pools@.dom(),
        }
    }
}

/// A throttle with no standbys, no delay, the default limit and no pools.
pub open spec fn default_throttle() -> ThrottleState {
    ThrottleState {
        standby_ids: Set::empty(),
        delay_ms: 0,
        max_inflight: DEFAULT_MAX_INFLIGHT,
        pools: Set::empty(),
    }
}

/// The limit a configuration asks for: zero stands for the default.
pub open spec fn configured_max(requested: u32) -> u32 {
    if requested == 0 {
        DEFAULT_MAX_INFLIGHT
    } else {
        requested
    }
}

/// How an RPC to `target` is held back in state `s`.
pub open spec fn plan_of(s: ThrottleState, target: u64) -> Option<SendPlan> {
    if s.standby_ids.contains(target) {
        Some(
            SendPlan {
                delay_ms: s.delay_ms,
                capacity: if s.max_inflight == 0 {
                    1
                } else {
                    s.max_inflight as usize
                },
            },
        )
    } else {
        None
    }
}

/// Every RPC to a standby is held back by the configured delay, the first
/// and every later one alike: having a permit pool does not change the
/// plan. RPCs to other peers are not held back.
pub proof fn law_standby_delay_every_send(s: ThrottleState, target: u64)
    ensures
        s.standby_ids.contains(target) ==> (plan_of(s, target) matches Some(p) && p.delay_ms
            == s.delay_ms && p.capacity >= 1 && p.capacity >= s.max_inflight && (s.max_inflight
            >= 1 ==> p.capacity == s.max_inflight)),
        !s.standby_ids.contains(target) ==> plan_of(s, target) is None,
        plan_of(ThrottleState { pools: s.pools.insert(target), ..s }, target) == plan_of(s, target),
{
}

impl<P> StandbyThrottle<P> {
    /// The permit pool of each target that has one.
    pub closed spec fn pool_map(&self) -> Map<u64, P> {
        self.pools@
    }

    /// No standbys, no delay, the default limit, no pools.
    pub fn new() -> (r: StandbyThrottle<P>)
        ensures
            r@ == default_throttle(),
            r.pool_map() == Map::<u64, P>::empty(),
    {
        StandbyThrottle {
            standby_ids: HashSet::new(),
            delay_ms: 0,
            max_inflight: DEFAULT_MAX_INFLIGHT,
            pools: HashMap::new(),
        }
    }

    /// A throttle seeded from the configuration's standby fields.
    pub fn from_config(config: &ClusterConfig) -> (r: StandbyThrottle<P>)
        ensures
            r@.standby_ids == config.standby_node_ids@.to_set(),
            r@.delay_ms == config.standby_replicate_delay_ms,
            r@.max_inflight == configured_max(config.standby_max_inflight),
            r@.pools == Set::<u64>::empty(),
            r.pool_map() == Map::<u64, P>::empty(),
    {
        let mut t = Self::new();
        t.apply_config(config);
        proof {
            assert(Set::<u64>::empty().union(config.standby_node_ids@.to_set()) =~= config.standby_node_ids@.to_set());
        }
        t
    }

    /// Takes the delay, the limit and the seed standby ids from the
    /// configuration. Standby ids added at run time are kept; every permit
    /// pool is dropped so new pools get the new capacity.
    pub fn apply_config(&mut self, config: &ClusterConfig)
        ensures
            final(self)@.standby_ids == old(self)@.standby_ids.union(
                config.standby_node_ids@.to_set(),
            ),
            final(self)@.delay_ms == config.standby_replicate_delay_ms,
            final(self)@.max_inflight == configured_max(config.standby_max_inflight),
            final(self)@.pools == Set::<u64>::empty(),
            final(self).pool_map() == Map::<u64, P>::empty(),
    {
        self.delay_ms = config.standby_replicate_delay_ms;
        self.max_inflight = if config.standby_max_inflight == 0 {
            DEFAULT_MAX_INFLIGHT
        } else {
            config.standby_max_inflight
        };
        let ids = &config.standby_node_ids;
        let ghost base = self.standby_ids@;
        let mut i: usize = 0;
        while i < ids.len()
            invariant
                i <= ids@.len(),
                self.standby_ids@ == base.union(ids@.subrange(0, i as int).to_set()),
                self.delay_ms == config.standby_replicate_delay_ms,
                self.max_inflight == configured_max(config.standby_max_inflight),
                ids == &config.standby_node_ids,
            decreases ids@.len() - i,
        {
            let id = ids[i];
            self.standby_ids.insert(id);
            proof {
                let s0 = ids@.subrange(0, i as int);
                let s1 = ids@.subrange(0, i as int + 1);
                assert(s1 =~= s0.push(id));
                assert(s1.to_set() =~= s0.to_set().insert(id)) by {
                    assert forall|x: u64| s1.contains(x) <==> s0.contains(x) || x == id by {
                        if s1.contains(x) {
                            let j = choose|j: int| 0 <= j < s1.len() && s1[j] == x;
                            if j < s0.len() {
                                assert(s0[j] == x);
                            }
                        }
                        if s0.contains(x) {
                            let j = choose|j: int| 0 <= j < s0.len() && s0[j] == x;
                            assert(s1[j] == x);
                        }
                        if x == id {
                            assert(s1[s0.len() as int] == x);
                        }
                    }
                }
                assert(self.standby_ids@ =~= base.union(s1.to_set()));
            }
            i = i + 1;
        }
        proof {
            assert(ids@.subrange(0, ids@.len() as int) =~= ids@);
        }
        self.pools.clear();
    }

    /// Marks `id` as a standby.
    pub fn insert(&mut self, id: u64)
        ensures
            final(self)@ == (ThrottleState { standby_ids: old(self)@.standby_ids.insert(id), ..old(self)@ }),
            final(self).pool_map() == old(self).pool_map(),
    {
        self.standby_ids.insert(id);
    }

    /// `id` is no longer a standby; its permit pool is dropped.
    pub fn remove(&mut self, id: u64)
        ensures
            final(self)@.standby_ids == old(self)@.standby_ids.remove(id),
            final(self)@.pools == old(self)@.pools.remove(id),
            final(self)@.delay_ms == old(self)@.delay_ms,
            final(self)@.max_inflight == old(self)@.max_inflight,
            final(self).pool_map() == old(self).pool_map().remove(id),
    {
        self.standby_ids.remove(&id);
        self.pools.remove(&id);
    }

    /// Whether `id` is a standby.
    pub fn contains(&self, id: u64) -> (r: bool)
        ensures
            r == self@.standby_ids.contains(id),
    {
        self.standby_ids.contains(&id)
    }

    /// A copy of the standby ids.
    pub fn standby_ids(&self) -> (r: HashSet<u64>)
        ensures
            r@ == self@.standby_ids,
    {
        let mut out: HashSet<u64> = HashSet::new();
        let ghost all = vstd::std_specs::hash::spec_hash_keys_iter(&self.standby_ids).remaining();
        for k in it: self.standby_ids.iter()
            invariant
                it.seq() == all,
                out@ == it.seq().subrange(0, it.index() as int).unref().to_set(),
        {
            proof {
                let s0 = it.seq().subrange(0, it.index() as int).unref();
                let s1 = it.seq().subrange(0, it.index() as int + 1).unref();
                assert(s1 =~= s0.push(*k));
                assert(s1.to_set() =~= s0.to_set().insert(*k)) by {
                    assert forall|x: u64| s1.contains(x) <==> s0.contains(x) || x == *k by {
                        if s1.contains(x) {
                            let j = choose|j: int| 0 <= j < s1.len() && s1[j] == x;
                            if j < s0.len() {
                                assert(s0[j] == x);
                            }
                        }
                        if s0.contains(x) {
                            let j = choose|j: int| 0 <= j < s0.len() && s0[j] == x;
                            assert(s1[j] == x);
                        }
                        if x == *k {
                            assert(s1[s0.len() as int] == x);
                        }
                    }
                }
            }
            out.insert(*k);
        }
        proof {
            assert(all.subrange(0, all.len() as int) =~= all);
        }
        out
    }

    /// The delay before each RPC to a standby.
    pub fn delay_ms(&self) -> (r: u64)
        ensures
            r == self@.delay_ms,
    {
        self.delay_ms
    }

    /// The concurrency limit toward one standby.
    pub fn max_inflight(&self) -> (r: u32)
        ensures
            r == self@.max_inflight,
    {
        self.max_inflight
    }

    /// How an RPC to `target` is held back: nothing for a voter; for a
    /// standby, the configured delay and a pool capacity of at least one.
    pub fn plan_send(&self, target: u64) -> (r: Option<SendPlan>)
        ensures
            r == plan_of(self@, target),
            self@.standby_ids.contains(target) ==> (r matches Some(p) && p.delay_ms
                == self@.delay_ms && p.capacity >= 1 && p.capacity >= self@.max_inflight && (
            self@.max_inflight >= 1 ==> p.capacity == self@.max_inflight)),
            !self@.standby_ids.contains(target) ==> r is None,
    {
        if !self.standby_ids.contains(&target) {
            return None;
        }
        let cap: usize = if self.max_inflight == 0 {
            1
        } else {
            self.max_inflight as usize
        };
        Some(SendPlan { delay_ms: self.delay_ms, capacity: cap })
    }

    /// Makes sure `target` has a permit pool: an existing pool is kept (and
    /// `fresh` dropped); otherwise `fresh` becomes the pool.
    pub fn ensure_pool(&mut self, target: u64, fresh: P)
        ensures
            final(self)@ == (ThrottleState { pools: old(self)@.pools.insert(target), ..old(self)@ }),
            final(self).pool_map() == if old(self).pool_map().contains_key(target) {
                old(self).pool_map()
            } else {
                old(self).pool_map().insert(target, fresh)
            },
    {
        if !self.pools.contains_key(&target) {
            self.pools.insert(target, fresh);
        }
        proof {
            assert(self.pools@.dom() =~= old(self).pools@.dom().insert(target));
        }
    }

    /// The permit pool of `target`, if it has one.
    pub fn pool(&self, target: u64) -> (r: Option<&P>)
        ensures
            r is Some <==> self@.pools.contains(target),
            r matches Some(p) ==> *p == self.pool_map()[target],
    {
        self.pools.get(&target)
    }
}

/// Voters are never throttled: an RPC is held back exactly when its target
/// is a standby, and a standby's pool always admits at least one RPC.
pub proof fn law_only_standbys_throttled(s: ThrottleState, target: u64)
    ensures
        plan_of(s, target) is Some <==> s.standby_ids.contains(target),
        plan_of(s, target) matches Some(p) ==> p.capacity >= 1,
{
}

/// Removing a standby lifts its throttle.
pub proof fn law_removed_standby_unthrottled(s: ThrottleState, id: u64)
    ensures
        plan_of(ThrottleState { standby_ids: s.standby_ids.remove(id), pools: s.pools.remove(id), ..s }, id)
            is None,
{
}

/// A configuration never shrinks the standby set: ids present before a
/// reconfiguration are still standbys after it.
pub proof fn law_config_keeps_runtime_ids(before: Set<u64>, seed: Seq<u64>, id: u64)
    requires
        before.contains(id),
    ensures
        before.union(seed.to_set()).contains(id),
{
}

} // verus!

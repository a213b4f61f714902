//! Group orchestration decisions: which members are ready, who initializes
//! a group's membership, how engine results become API results, and when
//! leader-change callbacks fire.

use std::collections::HashMap;
use std::collections::HashSet;
use vstd::prelude::*;
use vstd::std_specs::iter::IteratorSpec;

use crate::config::peer_addr_text;
use crate::config::PeerAddr;
use crate::error::MultiRaftError;
use crate::error::ProposeOk;
use crate::error::multiraft_error_text;
use crate::text::debug_u64_list;
use crate::text::decimal;

verus! {

/// Abstract coordination state: per group, the nodes that have created their
/// local replica; and the groups whose initialization has been claimed.
pub struct GlueState {
    pub ready: Map<u64, Set<u64>>,
    pub claimed: Set<u64>,
}

/// The nodes ready in `group`.
pub open spec fn ready_in(s: GlueState, group: u64) -> Set<u64> {
    if s.ready.contains_key(group) {
        s.ready[group]
    } else {
        Set::empty()
    }
}

/// Every member is ready.
pub open spec fn all_members_ready(ready: Set<u64>, members: Seq<u64>) -> bool {
    forall|i: int| 0 <= i < members.len() ==> ready.contains(#[trigger] members[i])
}

/// Marking `node` ready in `group`.
pub open spec fn glue_mark(s: GlueState, group: u64, node: u64) -> GlueState {
    GlueState { ready: s.ready.insert(group, ready_in(s, group).insert(node)), claimed: s.claimed }
}

/// Claiming the initialization of `group`: granted only the first time.
pub open spec fn glue_claim(s: GlueState, group: u64) -> (GlueState, bool) {
    (GlueState { ready: s.ready, claimed: s.claimed.insert(group) }, !s.claimed.contains(group))
}

/// Coordinates group creation so a group's membership is initialized once,
/// after all of its members have created their local replica.
pub struct ClusterGlue {
    ready: HashMap<u64, HashSet<u64>>,
    claimed: HashSet<u64>,
}

impl View for ClusterGlue {
    type V = GlueState;

    closed spec fn view(&self) -> GlueState {
        GlueState { ready: self.ready@.map_values(|s: HashSet<u64>| s@), claimed: self.claimed@ }
    }
}

impl ClusterGlue {
    /// Nothing ready, nothing claimed.
    pub fn new() -> (r: ClusterGlue)
        ensures
            r@.ready == Map::<u64, Set<u64>>::empty(),
            r@.claimed == Set::<u64>::empty(),
    {
        let r = ClusterGlue { ready: HashMap::new(), claimed: HashSet::new() };
        proof {
            assert(r@.ready =~= Map::<u64, Set<u64>>::empty());
        }
        r
    }

    /// Records that `node` has created its replica of `group`, and tells
    /// whether every one of `members` has.
    pub fn mark_ready(&mut self, group: u64, node: u64, members: &[u64]) -> (r: bool)
        ensures
            final(self)@ == glue_mark(old(self)@, group, node),
            r == all_members_ready(ready_in(glue_mark(old(self)@, group, node), group), members@),
            r <==> forall|i: int|
                0 <= i < members@.len() ==> final(self)@.ready.contains_key(group)
                    && final(self)@.ready[group].contains(#[trigger] members@[i]),
    {
        let ghost pre = self@;
        let mut set = match self.ready.remove(&group) {
            Some(s) => s,
            None => HashSet::new(),
        };
        assert(set@ == ready_in(pre, group));
        set.insert(node);
        let mut all = true;
        let mut i: usize = 0;
        while i < members.len()
            invariant
                i <= members@.len(),
                all == (forall|k: int| 0 <= k < i ==> set@.contains(#[trigger] members@[k])),
            decreases members@.len() - i,
        {
            if !set.contains(&members[i]) {
                all = false;
            }
            i = i + 1;
        }
        self.ready.insert(group, set);
        proof {
            assert(self@.ready =~= glue_mark(pre, group, node).ready);
        }
        all
    }

    /// Claims the initialization of `group`; granted (`true`) only to the
    /// first caller.
    pub fn try_claim_init(&mut self, group: u64) -> (r: bool)
        ensures
            (final(self)@, r) == glue_claim(old(self)@, group),
    {
        self.claimed.insert(group)
    }

    /// The whole decision after a node has created its replica of `group`:
    /// mark it ready, and initialize membership only when all members are
    /// ready and no one has claimed the initialization yet.
    pub fn ready_to_initialize(&mut self, group: u64, node: u64, members: &[u64]) -> (r: bool)
        ensures
            ({
                let m = glue_mark(old(self)@, group, node);
                let all = all_members_ready(ready_in(m, group), members@);
                &&& r == (all && glue_claim(m, group).1)
                &&& final(self)@ == if all {
                    glue_claim(m, group).0
                } else {
                    m
                }
            }),
            r ==> forall|i: int|
                0 <= i < members@.len() ==> final(self)@.ready.contains_key(group)
                    && final(self)@.ready[group].contains(#[trigger] members@[i]),
            r ==> !old(self)@.claimed.contains(group) && final(self)@.claimed.contains(group),
            (exists|i: int|
                0 <= i < members@.len() && members@[i] != node && !(old(self)@.ready.contains_key(
                    group,
                ) && old(self)@.ready[group].contains(#[trigger] members@[i]))) ==> !r,
    {
        let ghost pre = self@;
        let all = self.mark_ready(group, node, members);
        proof {
            law_all_ready_means_every_member_marked(pre, group, node, members@);
        }
        all && self.try_claim_init(group)
    }
}

/// Initialization happens at most once per group: once a claim has been
/// granted, every later claim of the same group is refused, however the
/// readiness evolves in between.
pub proof fn law_single_initializer(s: GlueState, group: u64, node: u64)
    ensures
        !glue_claim(glue_mark(glue_claim(s, group).0, group, node), group).1,
        !glue_claim(glue_claim(s, group).0, group).1,
{
}

/// After `node` reports its replica of `group`, every member is ready
/// exactly when each listed member is `node` itself or had already been
/// marked ready in that group; one unmarked member is enough for a refusal.
pub proof fn law_all_ready_means_every_member_marked(s: GlueState, group: u64, node: u64, members: Seq<u64>)
    ensures
        all_members_ready(ready_in(glue_mark(s, group, node), group), members) <==> forall|i: int|
            0 <= i < members.len() ==> #[trigger] members[i] == node || (s.ready.contains_key(group)
                && s.ready[group].contains(members[i])),
        all_members_ready(ready_in(glue_mark(s, group, node), group), members) <==> forall|i: int|
            0 <= i < members.len() ==> glue_mark(s, group, node).ready.contains_key(group)
                && glue_mark(s, group, node).ready[group].contains(#[trigger] members[i]),
{
}

/// Initialization is decided only once all members are marked: on a fresh
/// glue, the first node to report never initializes a group that lists
/// another member, and a grant always spends the group's one claim.
pub proof fn law_initialize_needs_every_member(s: GlueState, group: u64, node: u64, members: Seq<u64>)
    requires
        exists|i: int|
            0 <= i < members.len() && members[i] != node && !(s.ready.contains_key(group)
                && s.ready[group].contains(#[trigger] members[i])),
    ensures
        !all_members_ready(ready_in(glue_mark(s, group, node), group), members),
{
    law_all_ready_means_every_member_marked(s, group, node, members);
}

/// Readiness only grows: marking a node never unmarks another.
pub proof fn law_ready_monotone(s: GlueState, group: u64, node: u64, other_group: u64, other: u64)
    requires
        ready_in(s, other_group).contains(other),
    ensures
        ready_in(glue_mark(s, group, node), other_group).contains(other),
        ready_in(glue_mark(s, group, node), group).contains(node),
{
}

/// The error for a group without members.
pub open spec fn no_members_error() -> Seq<char> {
    "create_group requires at least one member"@
}

/// The error for a member list that leaves out the local node.
pub open spec fn not_member_error(node: u64, members: Seq<u64>) -> Seq<char> {
    "local node "@ + decimal(node as nat) + " is not in members "@ + debug_u64_list(members)
}

/// Validates the member list of a group to create on node `node`: it must be
/// non-empty and contain `node`.
pub fn check_members(node: u64, members: &[u64]) -> (r: Result<(), MultiRaftError>)
    ensures
        members@.len() == 0 ==> (r matches Err(e) && multiraft_error_text(e) == no_members_error()
            && (e is Other)),
        members@.len() > 0 && !members@.contains(node) ==> (r matches Err(e) && multiraft_error_text(
            e,
        ) == not_member_error(node, members@) && (e is Other)),
        members@.len() > 0 && members@.contains(node) ==> r is Ok,
{
    if members.len() == 0 {
        return Err(MultiRaftError::Other(String::from_str("create_group requires at least one member")));
    }
    let mut found = false;
    let mut i: usize = 0;
    while i < members.len()
        invariant
            i <= members@.len(),
            found == (exists|k: int| 0 <= k < i && members@[k] == node),
        decreases members@.len() - i,
    {
        if members[i] == node {
            found = true;
        }
        i = i + 1;
    }
    if !found {
        let mut m = String::from_str("local node ");
        crate::text::push_decimal(&mut m, node);
        m.append(" is not in members ");
        let list = crate::text::u64_list_debug(members);
        m.append(list.as_str());
        return Err(MultiRaftError::Other(m));
    }
    Ok(())
}

/// `<context>: <detail>` as an [`MultiRaftError::Other`].
pub fn other_error(context: &str, detail: &str) -> (r: MultiRaftError)
    ensures
        multiraft_error_text(r) == context@ + ": "@ + detail@,
        r is Other,
{
    let mut m = String::from_str(context);
    m.append(": ");
    m.append(detail);
    MultiRaftError::Other(m)
}

/// What the Raft engine answered to an initialization request.
pub enum InitOutcome {
    Done,
    /// The group was already initialized (another member did it).
    NotAllowed,
    /// Any other failure, with its text.
    Failed(String),
}

/// Initialization succeeds when done or already done elsewhere; anything
/// else is reported as `initialize group: <e>`.
pub fn initialize_result(outcome: InitOutcome) -> (r: Result<(), MultiRaftError>)
    ensures
        (outcome is Done || outcome is NotAllowed) ==> r is Ok,
        outcome matches InitOutcome::Failed(m) ==> (r matches Err(e) && multiraft_error_text(e)
            == "initialize group: "@ + m@),
{
    proof {
        reveal_strlit("initialize group");
        reveal_strlit(": ");
        reveal_strlit("initialize group: ");
    }
    match &outcome {
        InitOutcome::Done => Ok(()),
        InitOutcome::NotAllowed => Ok(()),
        InitOutcome::Failed(m) => Err(other_error("initialize group", m.as_str())),
    }
}

/// What the Raft engine answered to a client write.
pub enum WriteOutcome {
    /// Committed and applied at this log position.
    Committed { index: u64, term: u64 },
    /// This node is not the leader; the engine may know who is.
    ForwardToLeader { leader: Option<u64> },
    /// Any other failure, with its text.
    Failed(String),
}

/// A proposal's result: the committed position, `NotLeader` with the
/// engine's hint, or `client_write: <e>`.
pub fn propose_result(outcome: WriteOutcome) -> (r: Result<ProposeOk, MultiRaftError>)
    ensures
        match outcome {
            WriteOutcome::Committed { index, term } => (r matches Ok(p) && p.index == index && p.term
                == term),
            WriteOutcome::ForwardToLeader { leader } => (r matches Err(
                MultiRaftError::NotLeader { hint },
            ) && hint == leader),
            WriteOutcome::Failed(m) => (r matches Err(e) && (e is Other) && multiraft_error_text(e)
                == "client_write: "@ + m@),
        },
{
    proof {
        reveal_strlit("client_write");
        reveal_strlit(": ");
        reveal_strlit("client_write: ");
    }
    match &outcome {
        WriteOutcome::Committed { index, term } => Ok(ProposeOk { index: *index, term: *term }),
        WriteOutcome::ForwardToLeader { leader } => Err(MultiRaftError::NotLeader { hint: *leader }),
        WriteOutcome::Failed(m) => Err(other_error("client_write", m.as_str())),
    }
}

/// The address a member is known by: the first configured peer entry with
/// its id, as text, or empty when it has none.
pub open spec fn member_addr(peers: Seq<(u64, PeerAddr)>, id: u64) -> Seq<char>
    decreases peers.len(),
{
    if peers.len() == 0 {
        Seq::empty()
    } else if peers[0].0 == id {
        peer_addr_text(peers[0].1)
    } else {
        member_addr(peers.drop_first(), id)
    }
}

/// The text address of member `id`.
pub fn member_address(peers: &Vec<(u64, PeerAddr)>, id: u64) -> (r: String)
    ensures
        r@ == member_addr(peers@, id),
{
    let mut i: usize = 0;
    proof {
        assert(peers@.subrange(0, peers@.len() as int) =~= peers@);
    }
    while i < peers.len()
        invariant
            i <= peers@.len(),
            member_addr(peers@, id) == member_addr(peers@.subrange(i as int, peers@.len() as int), id),
        decreases peers@.len() - i,
    {
        proof {
            let rest = peers@.subrange(i as int, peers@.len() as int);
            assert(rest[0] == peers@[i as int]);
            assert(rest.drop_first() =~= peers@.subrange(i as int + 1, peers@.len() as int));
        }
        if peers[i].0 == id {
            return peers[i].1.to_text();
        }
        i = i + 1;
    }
    String::new()
}

/// The ids of a membership list.
pub open spec fn ids_of(v: Seq<(u64, String)>) -> Seq<u64> {
    v.map_values(|e: (u64, String)| e.0)
}

/// Whether `v` lists ids strictly increasing.
pub open spec fn strictly_sorted_ids(v: Seq<(u64, Seq<char>)>) -> bool {
    forall|i: int, j: int| 0 <= i < j < v.len() ==> v[i].0 < v[j].0
}

/// The membership handed to the engine: each distinct member once, in id
/// order, with its address.
pub fn membership_nodes(members: &[u64], peers: &Vec<(u64, PeerAddr)>) -> (r: Vec<(u64, String)>)
    ensures
        strictly_sorted_ids(r@.map_values(|e: (u64, String)| (e.0, e.1@))),
        forall|i: int| 0 <= i < r@.len() ==> members@.contains(#[trigger] r@[i].0),
        forall|k: int| 0 <= k < members@.len() ==> ids_of(r@).contains(#[trigger] members@[k]),
        forall|i: int| 0 <= i < r@.len() ==> #[trigger] r@[i].1@ == member_addr(peers@, r@[i].0),
{
    let mut out: Vec<(u64, String)> = Vec::new();
    let mut k: usize = 0;
    while k < members.len()
        invariant
            k <= members@.len(),
            strictly_sorted_ids(out@.map_values(|e: (u64, String)| (e.0, e.1@))),
            forall|i: int| 0 <= i < out@.len() ==> members@.subrange(0, k as int).contains(#[trigger] out@[i].0),
            forall|j: int| 0 <= j < k ==> ids_of(out@).contains(#[trigger] members@[j]),
            forall|i: int| 0 <= i < out@.len() ==> #[trigger] out@[i].1@ == member_addr(peers@, out@[i].0),
        decreases members@.len() - k,
    {
        let id = members[k];
        let mut pos: usize = 0;
        while pos < out.len() && out[pos].0 < id
            invariant
                pos <= out@.len(),
                forall|i: int| 0 <= i < pos ==> #[trigger] out@[i].0 < id,
            decreases out@.len() - pos,
        {
            pos = pos + 1;
        }
        let ghost old_out = out@;
        if pos < out.len() && out[pos].0 == id {
            // already present: the later entry for the same id is the same
        } else {
            let addr = member_address(peers, id);
            out.insert(pos, (id, addr));
            proof {
                let v = out@.map_values(|e: (u64, String)| (e.0, e.1@));
                assert forall|a: int, b: int| 0 <= a < b < v.len() implies v[a].0 < v[b].0 by {
                    let ov = old_out.map_values(|e: (u64, String)| (e.0, e.1@));
                    if b < pos {
                        assert(v[a] == ov[a] && v[b] == ov[b]);
                    } else if b == pos {
                        assert(v[a] == ov[a]);
                        assert(old_out[a].0 < id);
                    } else if a == pos {
                        assert(v[b] == ov[b - 1]);
                        if pos < old_out.len() {
                            assert(old_out[pos as int].0 >= id);
                            if b - 1 > pos {
                                assert(ov[pos as int].0 < ov[b - 1].0);
                            }
                        }
                    } else if a < pos {
                        assert(v[a] == ov[a] && v[b] == ov[b - 1]);
                    } else {
                        assert(v[a] == ov[a - 1] && v[b] == ov[b - 1]);
                    }
                }
            }
        }
        proof {
            assert forall|i: int| 0 <= i < out@.len() implies members@.subrange(0, k as int + 1).contains(
                #[trigger] out@[i].0,
            ) by {
                if out@[i].0 == id {
                    assert(members@.subrange(0, k as int + 1)[k as int] == id);
                } else {
                    let j = if old_out.len() < out@.len() && i > pos { i - 1 } else { i };
                    assert(out@[i] == old_out[j]);
                    let w = choose|w: int| 0 <= w < k && members@.subrange(0, k as int)[w] == old_out[j].0;
                    assert(members@.subrange(0, k as int + 1)[w] == old_out[j].0);
                }
            }
            assert forall|j: int| 0 <= j < k + 1 implies ids_of(out@).contains(#[trigger] members@[j]) by {
                if j == k {
                    assert(out@[pos as int].0 == id);
                    assert(ids_of(out@)[pos as int] == id);
                } else {
                    assert(ids_of(old_out).contains(members@[j]));
                    let i0 = choose|i: int| 0 <= i < old_out.len() && ids_of(old_out)[i] == members@[j];
                    if old_out.len() < out@.len() && i0 >= pos {
                        assert(out@[i0 + 1] == old_out[i0]);
                        assert(ids_of(out@)[i0 + 1] == members@[j]);
                    } else {
                        assert(out@[i0] == old_out[i0]);
                        assert(ids_of(out@)[i0] == members@[j]);
                    }
                }
            }
        }
        k = k + 1;
    }
    proof {
        assert(members@.subrange(0, members@.len() as int) =~= members@);
    }
    out
}

/// Remembers the last leader seen for a group and says when callbacks must
/// fire: on the first observation and on every change.
pub struct LeaderWatch {
    last: Option<Option<u64>>,
}

impl LeaderWatch {
    /// Nothing observed yet.
    pub fn new() -> (r: LeaderWatch)
        ensures
            r.last_seen() is None,
    {
        LeaderWatch { last: None }
    }

    /// The last leader observation, if any.
    pub closed spec fn last_seen(&self) -> Option<Option<u64>> {
        self.last
    }

    /// Records the current leader; `true` when callbacks must fire.
    pub fn observe(&mut self, current: Option<u64>) -> (fire: bool)
        ensures
            (final(self).last_seen(), fire) == watch_step(old(self).last_seen(), current),
    {
        let changed = match self.last {
            None => true,
            Some(prev) => prev != current,
        };
        if changed {
            self.last = Some(current);
        }
        changed
    }
}

/// One leader observation: the new memory and whether callbacks fire.
pub open spec fn watch_step(last: Option<Option<u64>>, current: Option<u64>) -> (Option<Option<u64>>, bool) {
    (Some(current), last != Some(current))
}

/// Callbacks fire once per change: the first observation always fires, and
/// observing the same leader again right after does not.
pub proof fn law_leader_callbacks_fire_on_change(last: Option<Option<u64>>, current: Option<u64>)
    ensures
        watch_step(None, current).1,
        !watch_step(watch_step(last, current).0, current).1,
{
}

/// The leader the cluster agrees on, from one observation per node of
/// `(known leader, is itself leader)`: the first known leader, provided some
/// node reports being leader.
pub open spec fn agreed_leader(obs: Seq<(Option<u64>, bool)>) -> Option<u64> {
    if (exists|i: int| 0 <= i < obs.len() && obs[i].1) {
        first_known_leader(obs)
    } else {
        None
    }
}

/// The first leader any node knows of.
pub open spec fn first_known_leader(obs: Seq<(Option<u64>, bool)>) -> Option<u64>
    decreases obs.len(),
{
    if obs.len() == 0 {
        None
    } else if obs[0].0 is Some {
        obs[0].0
    } else {
        first_known_leader(obs.drop_first())
    }
}

/// The first leader known in a list of observations is the one at the first
/// position that knows any, and there is none when no position knows one.
proof fn lemma_first_known_leader(obs: Seq<(Option<u64>, bool)>)
    ensures
        (forall|j: int| 0 <= j < obs.len() ==> (#[trigger] obs[j]).0 is None) ==> first_known_leader(
            obs,
        ) is None,
        forall|k: int|
            0 <= k < obs.len() && (#[trigger] obs[k]).0 is Some && (forall|j: int|
                0 <= j < k ==> (#[trigger] obs[j]).0 is None) ==> first_known_leader(obs) == obs[k].0,
    decreases obs.len(),
{
    if obs.len() > 0 {
        let rest = obs.drop_first();
        lemma_first_known_leader(rest);
        assert forall|k: int|
            0 <= k < obs.len() && (#[trigger] obs[k]).0 is Some && (forall|j: int|
                0 <= j < k ==> (#[trigger] obs[j]).0 is None) implies first_known_leader(obs)
            == obs[k].0 by {
            if k > 0 {
                assert(obs[0].0 is None);
                assert(rest[k - 1] == obs[k]);
                assert forall|j: int| 0 <= j < k - 1 implies (#[trigger] rest[j]).0 is None by {
                    assert(rest[j] == obs[j + 1]);
                }
            }
        }
        if forall|j: int| 0 <= j < obs.len() ==> (#[trigger] obs[j]).0 is None {
            assert(obs[0].0 is None);
            assert forall|j: int| 0 <= j < rest.len() implies (#[trigger] rest[j]).0 is None by {
                assert(rest[j] == obs[j + 1]);
            }
        }
    }
}

/// The leader a group agrees on: when some node reports leading and some
/// node knows a leader, it is the leader known at the first position that
/// knows one, wherever the leading node stands; with no node leading, or
/// no leader known anywhere, there is none.
pub proof fn law_agreed_leader(obs: Seq<(Option<u64>, bool)>)
    ensures
        (forall|i: int| 0 <= i < obs.len() ==> !(#[trigger] obs[i]).1) ==> agreed_leader(obs) is None,
        (forall|i: int| 0 <= i < obs.len() ==> (#[trigger] obs[i]).0 is None) ==> agreed_leader(
            obs,
        ) is None,
        forall|i: int, k: int|
            0 <= i < obs.len() && (#[trigger] obs[i]).1 && 0 <= k < obs.len() && (
            #[trigger] obs[k]).0 is Some && (forall|j: int| 0 <= j < k ==> (#[trigger] obs[j]).0 is None)
                ==> agreed_leader(obs) == obs[k].0,
{
    lemma_first_known_leader(obs);
}

/// Picks the leader from per-node observations.
pub fn pick_leader(obs: &[(Option<u64>, bool)]) -> (r: Option<u64>)
    ensures
        r == agreed_leader(obs@),
        (forall|i: int| 0 <= i < obs@.len() ==> !(#[trigger] obs@[i]).1) ==> r is None,
        forall|i: int, k: int|
            0 <= i < obs@.len() && (#[trigger] obs@[i]).1 && 0 <= k < obs@.len() && (
            #[trigger] obs@[k]).0 is Some && (forall|j: int| 0 <= j < k ==> (#[trigger] obs@[j]).0 is None)
                ==> r == obs@[k].0,
{
    proof {
        law_agreed_leader(obs@);
    }
    let mut any = false;
    let mut i: usize = 0;
    while i < obs.len()
        invariant
            i <= obs@.len(),
            any == (exists|k: int| 0 <= k < i && obs@[k].1),
        decreases obs@.len() - i,
    {
        if obs[i].1 {
            any = true;
        }
        i = i + 1;
    }
    if !any {
        return None;
    }
    let mut j: usize = 0;
    proof {
        assert(obs@.subrange(0, obs@.len() as int) =~= obs@);
    }
    while j < obs.len()
        invariant
            j <= obs@.len(),
            first_known_leader(obs@) == first_known_leader(obs@.subrange(j as int, obs@.len() as int)),
            exists|k: int| 0 <= k < obs@.len() && obs@[k].1,
        decreases obs@.len() - j,
    {
        proof {
            let rest = obs@.subrange(j as int, obs@.len() as int);
            assert(rest[0] == obs@[j as int]);
            assert(rest.drop_first() =~= obs@.subrange(j as int + 1, obs@.len() as int));
        }
        if obs[j].0.is_some() {
            proof {
                law_agreed_leader(obs@);
            }
            return obs[j].0;
        }
        j = j + 1;
    }
    None
}

/// The groups hosted on a node, each with its application context `G` (the
/// Raft handle and state-machine store).
pub struct GroupTable<G> {
    groups: HashMap<u64, G>,
}

impl<G> View for GroupTable<G> {
    type V = Map<u64, G>;

    closed spec fn view(&self) -> Map<u64, G> {
        self.groups@
    }
}

impl<G> GroupTable<G> {
    /// No groups.
    pub fn new() -> (r: GroupTable<G>)
        ensures
            r@ == Map::<u64, G>::empty(),
    {
        GroupTable { groups: HashMap::new() }
    }

    /// Whether `group` is hosted here (otherwise creating it spawns it).
    pub fn contains(&self, group: u64) -> (r: bool)
        ensures
            r == self@.contains_key(group),
    {
        self.groups.contains_key(&group)
    }

    /// Hosts `group` with `app`, replacing any previous context.
    pub fn insert(&mut self, group: u64, app: G)
        ensures
            final(self)@ == old(self)@.insert(group, app),
    {
        self.groups.insert(group, app);
    }

    /// The context of `group`, or `UnknownGroup`.
    pub fn get(&self, group: u64) -> (r: Result<&G, MultiRaftError>)
        ensures
            match r {
                Ok(g) => self@.contains_key(group) && *g == self@[group],
                Err(e) => !self@.contains_key(group) && e == MultiRaftError::UnknownGroup(group),
            },
    {
        match self.groups.get(&group) {
            Some(g) => Ok(g),
            None => Err(MultiRaftError::UnknownGroup(group)),
        }
    }

    /// The ids of the groups hosted here, each once.
    pub fn ids(&self) -> (r: Vec<u64>)
        ensures
            r@.to_set() == self@.dom(),
            r@.no_duplicates(),
    {
        let mut out: Vec<u64> = Vec::new();
        let ghost all = vstd::std_specs::hash::spec_keys_iter(&self.groups).remaining();
        for k in it: self.groups.keys()
            invariant
                it.seq() == all,
                out@ == it.seq().subrange(0, it.index() as int).unref(),
        {
            proof {
                assert(it.seq().subrange(0, it.index() as int + 1).unref() =~= out@.push(*k));
            }
            out.push(*k);
        }
        proof {
            assert(all.subrange(0, all.len() as int) =~= all);
            assert(out@ =~= all.unref());
        }
        out
    }

    /// Drops every group (after they were shut down).
    pub fn clear(&mut self)
        ensures
            final(self)@ == Map::<u64, G>::empty(),
    {
        self.groups.clear();
    }
}

} // verus!

//! The decisions of the demo cluster: port layout, argument checks, unique
//! idempotency keys, and how an admin request walks the local nodes
//! (leaders first, then every node) before it answers, and which node the
//! background propose loop asks.

use vstd::prelude::*;

use crate::config::PeerAddr;
use crate::error::multiraft_error_text;
use crate::error::MultiRaftError;
use crate::error::ProposeOk;
use crate::text::decimal;

verus! {

/// The Raft port of node `pid`: `base + pid - 1`, with the saturating `u16`
/// arithmetic of the demo (the id is taken modulo 2^16 first).
pub open spec fn demo_peer_port(base_port: u16, pid: u64) -> u16 {
    base_port.saturating_add((pid as u16).saturating_sub(1))
}

/// The admin HTTP port of node `node_id`: `base + 100 + node_id - 1`,
/// saturating likewise.
pub open spec fn demo_admin_port(base_port: u16, node_id: u64) -> u16 {
    base_port.saturating_add(100).saturating_add((node_id as u16).saturating_sub(1))
}

/// The loopback address with `port`.
pub open spec fn loopback(port: u16) -> PeerAddr {
    PeerAddr { ip0: 127, ip1: 0, ip2: 0, ip3: 1, port }
}

/// The peers of a demo cluster of `nodes` nodes: ids `1..=nodes`, node `pid`
/// on the loopback at its Raft port.
pub fn peer_addrs(base_port: u16, nodes: u64) -> (r: Vec<(u64, PeerAddr)>)
    ensures
        r@.len() == nodes,
        forall|i: int| 0 <= i < nodes ==> #[trigger] r@[i] == ((i + 1) as u64, loopback(demo_peer_port(base_port, (i + 1) as u64))),
{
    let mut r: Vec<(u64, PeerAddr)> = Vec::new();
    let mut pid: u64 = 0;
    while pid < nodes
        invariant
            pid <= nodes,
            r@.len() == pid,
            forall|i: int| 0 <= i < pid ==> #[trigger] r@[i] == ((i + 1) as u64, loopback(demo_peer_port(base_port, (i + 1) as u64))),
        decreases nodes - pid,
    {
        pid = pid + 1;
        let port = base_port.saturating_add((pid as u16).saturating_sub(1));
        r.push((pid, PeerAddr::localhost(port)));
    }
    r
}

/// The admin HTTP address of node `node_id` in multi-process mode.
pub fn admin_addr_for_node(base_port: u16, node_id: u64) -> (r: PeerAddr)
    ensures
        r == loopback(demo_admin_port(base_port, node_id)),
{
    let port = base_port.saturating_add(100).saturating_add((node_id as u16).saturating_sub(1));
    PeerAddr::localhost(port)
}

/// Checks the node and group counts: both must be at least one.
pub fn validate_counts(nodes: u64, groups: u64) -> (r: Result<(), String>)
    ensures
        nodes < 1 ==> (r matches Err(m) && m@ == "--nodes must be >= 1"@),
        nodes >= 1 && groups < 1 ==> (r matches Err(m) && m@ == "--groups must be >= 1"@),
        nodes >= 1 && groups >= 1 ==> r is Ok,
{
    if nodes < 1 {
        return Err(String::from_str("--nodes must be >= 1"));
    }
    if groups < 1 {
        return Err(String::from_str("--groups must be >= 1"));
    }
    Ok(())
}

/// The node id of a multi-process node: given, and within `1..=nodes`.
pub fn check_node_id(node_id: Option<u64>, nodes: u64) -> (r: Result<u64, String>)
    ensures
        match node_id {
            None => r matches Err(m) && m@ == "--node-id is required for --mode node"@,
            Some(id) => if 1 <= id <= nodes {
                r == Ok::<u64, String>(id)
            } else {
                r matches Err(m) && m@ == "--node-id must be in 1..="@ + decimal(nodes as nat)
            },
        },
{
    match node_id {
        None => Err(String::from_str("--node-id is required for --mode node")),
        Some(id) => {
            if id < 1 || id > nodes {
                let mut m = String::from_str("--node-id must be in 1..=");
                crate::text::push_decimal(&mut m, nodes);
                Err(m)
            } else {
                Ok(id)
            }
        },
    }
}

/// The default increment of an admin `inc` request.
pub fn default_delta() -> (r: i64)
    ensures
        r == 1,
{
    1
}

/// The high half of the keys a node generates: its id shifted up 32 bits.
pub open spec fn node_id_base(node_id: u64) -> u64 {
    node_id << 32u64
}

/// A generated idempotency key: the node's high half and the low 32 bits of
/// its local counter.
pub open spec fn idem_key(base: u64, local: u64) -> u64 {
    base | (local & 0xffff_ffffu64)
}

/// Source of idempotency keys for proposals that bring none: a node base
/// (zero when one process holds every node) and a local counter from one.
pub struct IdemSource {
    base: u64,
    counter: u64,
}

impl IdemSource {
    /// Keys for node `node_id` of a multi-process cluster.
    pub fn for_node(node_id: u64) -> (r: IdemSource)
        ensures
            r.base() == node_id_base(node_id),
            r.counter() == 1,
    {
        IdemSource { base: node_id << 32u64, counter: 1 }
    }

    /// Keys for a single process holding every node.
    pub fn shared() -> (r: IdemSource)
        ensures
            r.base() == 0,
            r.counter() == 1,
    {
        IdemSource { base: 0, counter: 1 }
    }

    /// The high half of the keys.
    pub closed spec fn base(&self) -> u64 {
        self.base
    }

    /// The counter of the next key.
    pub closed spec fn counter(&self) -> u64 {
        self.counter
    }

    /// The next key; the counter moves on by one (wrapping).
    pub fn next_idem(&mut self) -> (r: u64)
        ensures
            r == idem_key(old(self).base(), old(self).counter()),
            final(self).base() == old(self).base(),
            final(self).counter() == old(self).counter().wrapping_add(1),
    {
        let local = self.counter;
        self.counter = self.counter.wrapping_add(1);
        self.base | (local & 0xffff_ffffu64)
    }
}

/// Keys are unique across nodes and calls: two nodes with ids below 2^32
/// never produce the same key from counters below 2^32 unless both the node
/// and the counter agree.
pub proof fn law_idem_keys_unique(a: u64, b: u64, x: u64, y: u64)
    requires
        a < 0x1_0000_0000u64,
        b < 0x1_0000_0000u64,
        x < 0x1_0000_0000u64,
        y < 0x1_0000_0000u64,
        a != b || x != y,
    ensures
        idem_key(node_id_base(a), x) != idem_key(node_id_base(b), y),
{
    assert(((a << 32u64) | (x & 0xffff_ffffu64)) != ((b << 32u64) | (y & 0xffff_ffffu64))) by (bit_vector)
        requires
            a < 0x1_0000_0000u64,
            b < 0x1_0000_0000u64,
            x < 0x1_0000_0000u64,
            y < 0x1_0000_0000u64,
            a != b || x != y,
    ;
}

/// Whether `id` is one of the demo's groups.
pub fn known_group(group_ids: &[u64], id: u64) -> (r: bool)
    ensures
        r == group_ids@.contains(id),
{
    let mut i: usize = 0;
    while i < group_ids.len()
        invariant
            i <= group_ids@.len(),
            forall|j: int| 0 <= j < i ==> group_ids@[j] != id,
        decreases group_ids@.len() - i,
    {
        if group_ids[i] == id {
            assert(group_ids@[i as int] == id);
            return true;
        }
        i = i + 1;
    }
    false
}

/// The first leader any local node reports.
pub open spec fn first_leader_of(leaders: Seq<Option<u64>>) -> Option<u64>
    decreases leaders.len(),
{
    if leaders.len() == 0 {
        None
    } else if leaders[0] is Some {
        leaders[0]
    } else {
        first_leader_of(leaders.drop_first())
    }
}

/// The first leader any local node reports, in node order.
pub fn first_leader(leaders: &[Option<u64>]) -> (r: Option<u64>)
    ensures
        r == first_leader_of(leaders@),
{
    let mut i: usize = 0;
    proof {
        assert(leaders@.subrange(0, leaders@.len() as int) =~= leaders@);
    }
    while i < leaders.len()
        invariant
            i <= leaders@.len(),
            first_leader_of(leaders@) == first_leader_of(leaders@.subrange(i as int, leaders@.len() as int)),
        decreases leaders@.len() - i,
    {
        let ghost rest = leaders@.subrange(i as int, leaders@.len() as int);
        proof {
            assert(rest.drop_first() =~= leaders@.subrange(i as int + 1, leaders@.len() as int));
        }
        if leaders[i].is_some() {
            return leaders[i];
        }
        i = i + 1;
    }
    None
}

/// The position of node `id` among the local nodes, the first if several.
pub fn find_node(ids: &[u64], id: u64) -> (r: Option<usize>)
    ensures
        match r {
            Some(i) => i < ids@.len() && ids@[i as int] == id && forall|j: int| 0 <= j < i ==> ids@[j] != id,
            None => !ids@.contains(id),
        },
{
    let mut i: usize = 0;
    while i < ids.len()
        invariant
            i <= ids@.len(),
            forall|j: int| 0 <= j < i ==> ids@[j] != id,
        decreases ids@.len() - i,
    {
        if ids[i] == id {
            return Some(i);
        }
        i = i + 1;
    }
    None
}

/// The largest of the values that local nodes could read.
pub open spec fn best_of(values: Seq<Option<i64>>) -> Option<i64>
    decreases values.len(),
{
    if values.len() == 0 {
        None
    } else {
        let rest = best_of(values.drop_last());
        match values.last() {
            None => rest,
            Some(v) => match rest {
                None => Some(v),
                Some(b) => Some(if b >= v { b } else { v }),
            },
        }
    }
}

/// How a read of a group's value was served.
pub enum ValueReply {
    /// A linearizable read (ReadIndex) through a local node.
    Linearizable(i64),
    /// No linearizable read succeeded: the largest local state machine
    /// value, which may be stale.
    Local(i64),
    /// Neither is available.
    Unavailable,
}

/// The answer to a value read: the first linearizable read, else the
/// largest local value, else unavailable.
pub fn value_reply(linearizable: Option<i64>, local: &[Option<i64>]) -> (r: ValueReply)
    ensures
        match linearizable {
            Some(v) => r == ValueReply::Linearizable(v),
            None => match best_of(local@) {
                Some(v) => r == ValueReply::Local(v),
                None => r == ValueReply::Unavailable,
            },
        },
{
    if let Some(v) = linearizable {
        return ValueReply::Linearizable(v);
    }
    let mut best: Option<i64> = None;
    let mut i: usize = 0;
    while i < local.len()
        invariant
            i <= local@.len(),
            best == best_of(local@.subrange(0, i as int)),
        decreases local@.len() - i,
    {
        proof {
            assert(local@.subrange(0, i as int + 1).drop_last() =~= local@.subrange(0, i as int));
        }
        match local[i] {
            Some(v) => {
                best = match best {
                    None => Some(v),
                    Some(b) => Some(if b >= v { b } else { v }),
                };
            },
            None => {},
        }
        i = i + 1;
    }
    proof {
        assert(local@.subrange(0, local@.len() as int) =~= local@);
    }
    match best {
        Some(v) => ValueReply::Local(v),
        None => ValueReply::Unavailable,
    }
}

/// The answer to an admin increment.
pub enum IncReply {
    /// Committed at this index and term.
    Committed(ProposeOk),
    /// A node refused for a reason other than leadership (HTTP 409).
    Conflict(String),
    /// No local node could take the write (HTTP 503).
    Unavailable(String),
}

/// An admin increment in progress: first the local nodes that believe they
/// lead are asked, then every local node. A refusal for leadership moves
/// on; any other refusal ends the request.
pub struct IncRound {
    leader_pass: bool,
    last_err: Option<MultiRaftError>,
}

impl IncRound {
    /// A round in its leader pass.
    pub fn new() -> (r: IncRound)
        ensures
            r.in_leader_pass(),
            r.last_refusal() is None,
    {
        IncRound { leader_pass: true, last_err: None }
    }

    /// Whether the round still asks only local leaders.
    pub closed spec fn in_leader_pass(&self) -> bool {
        self.leader_pass
    }

    /// The last refusal for leadership seen in the pass over all nodes.
    pub closed spec fn last_refusal(&self) -> Option<MultiRaftError> {
        self.last_err
    }

    /// Whether a node is to be asked now.
    pub fn should_ask(&self, is_leader: bool) -> (r: bool)
        ensures
            r == (!self.in_leader_pass() || is_leader),
    {
        !self.leader_pass || is_leader
    }

    /// Moves on to the pass over every local node.
    pub fn end_leader_pass(&mut self)
        ensures
            !final(self).in_leader_pass(),
            final(self).last_refusal() == old(self).last_refusal(),
    {
        self.leader_pass = false;
    }

    /// Takes a node's answer: a commit or a refusal other than for
    /// leadership ends the round; a refusal for leadership is remembered in
    /// the second pass and the round goes on.
    pub fn on_outcome(&mut self, outcome: Result<ProposeOk, MultiRaftError>) -> (r: Option<IncReply>)
        ensures
            final(self).in_leader_pass() == old(self).in_leader_pass(),
            match outcome {
                Ok(ok) => r == Some(IncReply::Committed(ok)) && final(self).last_refusal() == old(self).last_refusal(),
                Err(e) => match e {
                    MultiRaftError::NotLeader { .. } => {
                        &&& r is None
                        &&& final(self).last_refusal() == if old(self).in_leader_pass() {
                            old(self).last_refusal()
                        } else {
                            Some(e)
                        }
                    },
                    _ => r matches Some(IncReply::Conflict(m)) && m@ == multiraft_error_text(e)
                        && final(self).last_refusal() == old(self).last_refusal(),
                },
            },
    {
        match outcome {
            Ok(ok) => Some(IncReply::Committed(ok)),
            Err(e) => {
                match e {
                    MultiRaftError::NotLeader { .. } => {
                        if !self.leader_pass {
                            self.last_err = Some(e);
                        }
                        None
                    },
                    _ => {
                        let m = e.message();
                        Some(IncReply::Conflict(m))
                    },
                }
            },
        }
    }

    /// The answer when every node was asked without a final answer: the last
    /// refusal for leadership, or `no local leader`.
    pub fn finish(&self) -> (r: IncReply)
        ensures
            match self.last_refusal() {
                Some(e) => r matches IncReply::Unavailable(m) && m@ == multiraft_error_text(e),
                None => r matches IncReply::Unavailable(m) && m@ == "no local leader"@,
            },
    {
        match &self.last_err {
            Some(e) => IncReply::Unavailable(e.message()),
            None => IncReply::Unavailable(String::from_str("no local leader")),
        }
    }
}

/// Pause between two rounds of the background propose loop, in milliseconds.
pub const PROPOSE_INTERVAL_MS: u64 = 200;

/// The increment each background proposal carries.
pub const PROPOSE_DELTA: i64 = 1;

/// The local node a background round asks for a group: the first that
/// believes it leads the group, or none. Only that node is asked, once.
pub fn propose_target(is_leader: &[bool]) -> (r: Option<usize>)
    ensures
        match r {
            Some(i) => i < is_leader@.len() && is_leader@[i as int] && forall|j: int|
                0 <= j < i ==> !is_leader@[j],
            None => forall|j: int| 0 <= j < is_leader@.len() ==> !is_leader@[j],
        },
{
    let mut i: usize = 0;
    while i < is_leader.len()
        invariant
            i <= is_leader@.len(),
            forall|j: int| 0 <= j < i ==> !is_leader@[j],
        decreases is_leader@.len() - i,
    {
        if is_leader[i] {
            return Some(i);
        }
        i = i + 1;
    }
    None
}

/// What a background proposal came to.
pub enum ProposeStep {
    /// Committed at this index and term.
    Proposed(ProposeOk),
    /// The node no longer leads; the group waits for the next round.
    NotLeader,
    /// Refused for another reason, with the error's text.
    Failed(String),
}

/// Classifies the answer to a background proposal.
pub fn propose_step(outcome: Result<ProposeOk, MultiRaftError>) -> (r: ProposeStep)
    ensures
        match outcome {
            Ok(ok) => r == ProposeStep::Proposed(ok),
            Err(e) => match e {
                MultiRaftError::NotLeader { .. } => r is NotLeader,
                _ => r matches ProposeStep::Failed(m) && m@ == multiraft_error_text(e),
            },
        },
{
    match outcome {
        Ok(ok) => ProposeStep::Proposed(ok),
        Err(e) => match e {
            MultiRaftError::NotLeader { .. } => ProposeStep::NotLeader,
            _ => ProposeStep::Failed(e.message()),
        },
    }
}

/// How many times a node tries to create its groups before giving up.
pub const CREATE_ATTEMPTS: u64 = 20;

/// Pause after a failed attempt to create the groups, in milliseconds.
pub const CREATE_RETRY_MS: u64 = 200;

/// What to do next while creating a node's groups.
pub enum CreateStep {
    /// Create the group at this position of the list.
    Create(usize),
    /// An attempt failed: pause, then start over from the first group.
    Retry,
    /// Every group was created.
    Done,
    /// The last attempt failed: pause, then give up.
    GiveUp,
}

/// Creation of a node's groups, one after the other in list order, with
/// whole attempts retried from the first group after a failure.
pub struct GroupCreation {
    attempt: u64,
    next: usize,
}

impl GroupCreation {
    /// The first attempt, at the first group.
    pub fn new() -> (r: GroupCreation)
        ensures
            r.attempt() == 1,
            r.next() == 0,
    {
        GroupCreation { attempt: 1, next: 0 }
    }

    /// The attempt in progress, counted from one.
    pub closed spec fn attempt(&self) -> u64 {
        self.attempt
    }

    /// The position of the next group to create in this attempt.
    pub closed spec fn next(&self) -> usize {
        self.next
    }

    /// The next group of this attempt, or `Done` once all `total` are made.
    pub fn step(&self, total: usize) -> (r: CreateStep)
        ensures
            self.next() < total ==> r == CreateStep::Create(self.next()),
            self.next() >= total ==> r is Done,
    {
        if self.next < total {
            CreateStep::Create(self.next)
        } else {
            CreateStep::Done
        }
    }

    /// Takes the outcome of creating the group at `next()`: on success the
    /// attempt moves to the next group; on failure a new attempt starts at
    /// the first group, unless this was the last attempt.
    pub fn on_outcome(&mut self, ok: bool, total: usize) -> (r: CreateStep)
        requires
            old(self).next() < total,
            1 <= old(self).attempt() <= CREATE_ATTEMPTS,
        ensures
            ok ==> final(self).attempt() == old(self).attempt() && final(self).next() == old(self).next()
                + 1 && (final(self).next() < total ==> r == CreateStep::Create(final(self).next()))
                && (final(self).next() >= total ==> r is Done),
            !ok && old(self).attempt() < CREATE_ATTEMPTS ==> r is Retry && final(self).attempt()
                == old(self).attempt() + 1 && final(self).next() == 0,
            !ok && old(self).attempt() >= CREATE_ATTEMPTS ==> r is GiveUp && final(self).attempt()
                == old(self).attempt() && final(self).next() == old(self).next(),
            1 <= final(self).attempt() <= CREATE_ATTEMPTS,
    {
        if ok {
            self.next = self.next + 1;
            self.step(total)
        } else if self.attempt < CREATE_ATTEMPTS {
            self.attempt = self.attempt + 1;
            self.next = 0;
            CreateStep::Retry
        } else {
            CreateStep::GiveUp
        }
    }
}

/// The data directory of logical node `id` under `root`: `root/node-<id>`.
pub fn node_data_dir(root: &str, id: u64) -> (r: String)
    ensures
        r@ == crate::config::path_join(root@, "node-"@ + decimal(id as nat)),
{
    let mut leaf = String::from_str("node-");
    crate::text::push_decimal(&mut leaf, id);
    crate::config::join_path(root, leaf.as_str())
}

} // verus!

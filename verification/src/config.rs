//! Static cluster membership, Raft timing and standby replication knobs.

use vstd::prelude::*;

use crate::text::decimal;

verus! {

/// An IPv4 socket address of a peer: the four octets and the port.
#[derive(PartialEq, Eq, Structural, Clone, Copy, Debug)]
pub struct PeerAddr {
    pub ip0: u8,
    pub ip1: u8,
    pub ip2: u8,
    pub ip3: u8,
    pub port: u16,
}

/// The text of an address: `a.b.c.d:port`.
pub open spec fn peer_addr_text(a: PeerAddr) -> Seq<char> {
    decimal(a.ip0 as nat) + "."@ + decimal(a.ip1 as nat) + "."@ + decimal(a.ip2 as nat) + "."@
        + decimal(a.ip3 as nat) + ":"@ + decimal(a.port as nat)
}

impl PeerAddr {
    /// The loopback address `127.0.0.1` with `port`.
    pub fn localhost(port: u16) -> (r: PeerAddr)
        ensures
            r.ip0 == 127 && r.ip1 == 0 && r.ip2 == 0 && r.ip3 == 1,
            r.port == port,
    {
        PeerAddr { ip0: 127, ip1: 0, ip2: 0, ip3: 1, port }
    }

    /// The address as `SocketAddr` displays it.
    pub fn to_text(&self) -> (s: String)
        ensures
            s@ == peer_addr_text(*self),
    {
        let mut s = String::new();
        crate::text::push_decimal(&mut s, self.ip0 as u64);
        s.append(".");
        crate::text::push_decimal(&mut s, self.ip1 as u64);
        s.append(".");
        crate::text::push_decimal(&mut s, self.ip2 as u64);
        s.append(".");
        crate::text::push_decimal(&mut s, self.ip3 as u64);
        s.append(":");
        crate::text::push_decimal(&mut s, self.port as u64);
        s
    }
}

/// Cluster membership and timing for one node.
///
/// An empty `data_dir` keeps the Raft log in memory; otherwise each group
/// keeps its log under `{data_dir}/group-{id}/`.
pub struct ClusterConfig {
    pub node_id: u64,
    pub peers: Vec<(u64, PeerAddr)>,
    pub data_dir: String,
    pub heartbeat_interval_ms: u64,
    pub election_timeout_min_ms: u64,
    pub election_timeout_max_ms: u64,
    /// Nodes that replicate as standbys (learners) from the start.
    pub standby_node_ids: Vec<u64>,
    /// Delay before each RPC sent to a standby.
    pub standby_replicate_delay_ms: u64,
    /// Concurrent RPCs allowed toward one standby; zero means the default (8).
    pub standby_max_inflight: u32,
}

/// The test port of node `id`.
pub open spec fn test_port(id: u64) -> nat {
    (19000 + id) as nat
}

/// The test peer entry of node `id`: the node on the loopback at its test
/// port.
pub open spec fn test_peer(id: u64) -> (u64, PeerAddr) {
    (id, PeerAddr { ip0: 127, ip1: 0, ip2: 0, ip3: 1, port: test_port(id) as u16 })
}

impl ClusterConfig {
    /// Defaults for local and in-process tests: an in-memory log, a 100 ms
    /// heartbeat, elections between 300 and 600 ms, no standbys, and each
    /// peer at `127.0.0.1:(19000 + id)`.
    pub fn for_test(node_id: u64, peer_ids: &[u64]) -> (r: ClusterConfig)
        requires
            forall|i: int| 0 <= i < peer_ids@.len() ==> #[trigger] test_port(peer_ids@[i]) <= u16::MAX,
        ensures
            r.node_id == node_id,
            r.peers@.len() == peer_ids@.len(),
            forall|i: int| 0 <= i < peer_ids@.len() ==> #[trigger] r.peers@[i] == test_peer(peer_ids@[i]),
            r.data_dir@ == Seq::<char>::empty(),
            r.heartbeat_interval_ms == 100,
            r.election_timeout_min_ms == 300,
            r.election_timeout_max_ms == 600,
            r.standby_node_ids@ == Seq::<u64>::empty(),
            r.standby_replicate_delay_ms == 0,
            r.standby_max_inflight == 0,
    {
        let mut peers: Vec<(u64, PeerAddr)> = Vec::new();
        let mut i: usize = 0;
        while i < peer_ids.len()
            invariant
                i <= peer_ids@.len(),
                peers@.len() == i,
                forall|k: int| 0 <= k < peer_ids@.len() ==> #[trigger] test_port(peer_ids@[k]) <= u16::MAX,
                forall|k: int| 0 <= k < i ==> #[trigger] peers@[k] == test_peer(peer_ids@[k]),
            decreases peer_ids@.len() - i,
        {
            let id = peer_ids[i];
            assert(test_port(peer_ids@[i as int]) <= u16::MAX);
            let port: u16 = (19000 + id) as u16;
            peers.push((id, PeerAddr::localhost(port)));
            i = i + 1;
        }
        ClusterConfig {
            node_id,
            peers,
            data_dir: String::new(),
            heartbeat_interval_ms: 100,
            election_timeout_min_ms: 300,
            election_timeout_max_ms: 600,
            standby_node_ids: Vec::new(),
            standby_replicate_delay_ms: 0,
            standby_max_inflight: 0,
        }
    }
}

/// `Path::join` with a relative leaf: the leaf alone under an empty root,
/// otherwise the root and the leaf with one `/` between them.
pub open spec fn path_join(root: Seq<char>, leaf: Seq<char>) -> Seq<char> {
    if root.len() == 0 {
        leaf
    } else if root.last() == '/' {
        root + leaf
    } else {
        root + "/"@ + leaf
    }
}

/// Joins a relative `leaf` onto `root` as `Path::join` does.
pub fn join_path(root: &str, leaf: &str) -> (r: String)
    ensures
        r@ == path_join(root@, leaf@),
{
    let n = root.unicode_len();
    let mut r = String::from_str(root);
    if n == 0 {
        return String::from_str(leaf);
    }
    if root.get_char(n - 1) != '/' {
        r.append("/");
    }
    r.append(leaf);
    proof {
        reveal_strlit("/");
    }
    r
}

/// The directory of the file-backed log of `group`: `data_dir/group-<id>`,
/// or none (an in-memory log) when `data_dir` is empty.
pub fn group_log_dir(data_dir: &str, group: u64) -> (r: Option<String>)
    ensures
        data_dir@.len() == 0 ==> r is None,
        data_dir@.len() != 0 ==> (r matches Some(d) && d@ == path_join(data_dir@, "group-"@ + decimal(group as nat))),
{
    if data_dir.unicode_len() == 0 {
        return None;
    }
    let mut leaf = String::from_str("group-");
    crate::text::push_decimal(&mut leaf, group);
    Some(join_path(data_dir, leaf.as_str()))
}

/// Why the Raft engine would refuse timings: the election window must be
/// non-empty and start above the heartbeat interval.
pub open spec fn engine_timing_error(heartbeat: u64, min: u64, max: u64) -> Option<Seq<char>> {
    if min >= max {
        Some("election timeout: min("@ + decimal(min as nat) + ") must be < max("@ + decimal(
            max as nat,
        ) + ")"@)
    } else if min <= heartbeat {
        Some("election_timeout_min("@ + decimal(min as nat) + ") must be > heartbeat_interval("@
            + decimal(heartbeat as nat) + ")"@)
    } else {
        None
    }
}

/// Checks the engine settings of one group with `openraft::Config::validate`:
/// the given heartbeat and election timeouts, no log entries kept past a
/// snapshot, the other settings at their defaults.
///
/// Claims of the outside call: with the default limit of 300 entries per
/// payload, it refuses exactly an empty election window and an election
/// timeout not above the heartbeat, in that order, with the error's text.
#[verifier::external_body]
fn openraft_validate(heartbeat: u64, min: u64, max: u64) -> (r: Result<(), String>)
    ensures
        match engine_timing_error(heartbeat, min, max) {
            None => r is Ok,
            Some(t) => r matches Err(m) && m@ == t,
        },
{
    let config = openraft::Config {
        heartbeat_interval: heartbeat,
        election_timeout_min: min,
        election_timeout_max: max,
        max_in_snapshot_log_to_keep: 0,
        ..Default::default()
    };
    match config.validate() {
        Ok(_) => Ok(()),
        Err(e) => Err(e.to_string()),
    }
}

impl ClusterConfig {
    /// Whether the engine accepts this configuration's timings; the refusal
    /// carries the engine's text.
    pub fn check_engine_timing(&self) -> (r: Result<(), String>)
        ensures
            match engine_timing_error(
                self.heartbeat_interval_ms,
                self.election_timeout_min_ms,
                self.election_timeout_max_ms,
            ) {
                None => r is Ok,
                Some(t) => r matches Err(m) && m@ == t,
            },
    {
        openraft_validate(
            self.heartbeat_interval_ms,
            self.election_timeout_min_ms,
            self.election_timeout_max_ms,
        )
    }
}

} // verus!

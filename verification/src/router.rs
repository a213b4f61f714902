//! Peer routing shared by all groups of a node: one connection per peer
//! node, reused by every group (links grow with nodes, not with groups),
//! and the dispatch of inbound Raft RPCs to the group they name.

use std::collections::HashMap;
use vstd::prelude::*;

use crate::cluster::GroupTable;
use crate::config::peer_addr_text;
use crate::config::ClusterConfig;
use crate::config::PeerAddr;
use crate::conn_metrics::ConnMetrics;
use crate::standby_throttle::configured_max;
use crate::standby_throttle::default_throttle;
use crate::standby_throttle::StandbyThrottle;
use crate::standby_throttle::ThrottleState;
use crate::text::decimal;

verus! {

/// The Raft RPCs a node serves.
#[derive(PartialEq, Eq, Structural, Clone, Copy, Debug)]
pub enum RaftRpc {
    Append,
    Snapshot,
    Vote,
    TransferLeader,
}

/// The RPC a request path names.
pub open spec fn rpc_of_path(path: Seq<char>) -> Option<RaftRpc> {
    if path == "/raft/append"@ {
        Some(RaftRpc::Append)
    } else if path == "/raft/snapshot"@ {
        Some(RaftRpc::Snapshot)
    } else if path == "/raft/vote"@ {
        Some(RaftRpc::Vote)
    } else if path == "/raft/transfer_leader"@ {
        Some(RaftRpc::TransferLeader)
    } else {
        None
    }
}

/// The request path of an RPC.
pub fn rpc_path(rpc: RaftRpc) -> (r: &'static str)
    ensures
        rpc_of_path(r@) == Some(rpc),
{
    let r = match rpc {
        RaftRpc::Append => "/raft/append",
        RaftRpc::Snapshot => "/raft/snapshot",
        RaftRpc::Vote => "/raft/vote",
        RaftRpc::TransferLeader => "/raft/transfer_leader",
    };
    proof {
        reveal_strlit("/raft/append");
        reveal_strlit("/raft/snapshot");
        reveal_strlit("/raft/vote");
        reveal_strlit("/raft/transfer_leader");
        assert("/raft/append"@.len() == 12);
        assert("/raft/snapshot"@.len() == 14);
        assert("/raft/vote"@.len() == 10);
        assert("/raft/transfer_leader"@.len() == 21);
    }
    r
}

/// Decides what serves an inbound request: `None` (answered with a fatal
/// "stopped" error) when the group is not on this node or the path is
/// unknown, otherwise the RPC to run against the group.
pub fn dispatch(group_present: bool, path: &str) -> (r: Option<RaftRpc>)
    ensures
        r == if group_present {
            rpc_of_path(path@)
        } else {
            None
        },
{
    if !group_present {
        return None;
    }
    let p = String::from_str(path);
    if p == String::from_str("/raft/append") {
        Some(RaftRpc::Append)
    } else if p == String::from_str("/raft/snapshot") {
        Some(RaftRpc::Snapshot)
    } else if p == String::from_str("/raft/vote") {
        Some(RaftRpc::Vote)
    } else if p == String::from_str("/raft/transfer_leader") {
        Some(RaftRpc::TransferLeader)
    } else {
        None
    }
}

/// An error of the in-process router, with its text.
#[derive(Debug)]
pub struct RouterError(pub String);

impl RouterError {
    /// The error's text.
    pub fn message(&self) -> (s: String)
        ensures
            s@ == self.0@,
    {
        self.0.clone()
    }
}

/// `node <id> not connected`.
pub open spec fn not_connected_text(node: u64) -> Seq<char> {
    "node "@ + decimal(node as nat) + " not connected"@
}

/// The refusal to route to a node without a connection.
pub fn not_connected_error(node: u64) -> (r: RouterError)
    ensures
        r.0@ == not_connected_text(node),
{
    let mut m = String::from_str("node ");
    crate::text::push_decimal(&mut m, node);
    m.append(" not connected");
    RouterError(m)
}

/// The in-process network of a single-node cluster: it has no peers, so
/// every RPC fails as unreachable.
#[derive(Clone, Copy, Debug)]
pub struct StubNetwork;

/// Makes [`StubNetwork`] clients.
#[derive(Clone, Copy, Debug)]
pub struct StubNetworkFactory;

impl StubNetworkFactory {
    /// The client for any target.
    pub fn new_client(&self, target: u64) -> (r: StubNetwork) {
        StubNetwork
    }
}

impl StubNetwork {
    /// Why every RPC of the stub fails.
    pub fn unreachable_reason(&self) -> (r: String)
        ensures
            r@ == "stub network: no peers (single-node test)"@,
    {
        String::from_str("stub network: no peers (single-node test)")
    }
}

/// Abstract routing table: the connection of each registered node and the
/// peers ever linked.
pub struct RouterState<T> {
    pub nodes: Map<u64, T>,
    pub links: Set<u64>,
}

/// In-process router: one connection (`T`) per node, shared by all groups
/// on that node, plus the standby throttle of the fabric.
pub struct Router<T, P> {
    nodes: HashMap<u64, T>,
    metrics: ConnMetrics,
    throttle: StandbyThrottle<P>,
}

impl<T, P> View for Router<T, P> {
    type V = RouterState<T>;

    closed spec fn view(&self) -> RouterState<T> {
        RouterState { nodes: self.nodes@, links: self.metrics@ }
    }
}

impl<T, P> Router<T, P> {
    /// No nodes, no links, a default throttle.
    pub fn new() -> (r: Router<T, P>)
        ensures
            r@.nodes == Map::<u64, T>::empty(),
            r@.links == Set::<u64>::empty(),
            r.spec_throttle()@ == default_throttle(),
    {
        Router { nodes: HashMap::new(), metrics: ConnMetrics::new(), throttle: StandbyThrottle::new() }
    }

    /// The standby throttle shared by all groups on this fabric.
    pub closed spec fn spec_throttle(&self) -> StandbyThrottle<P> {
        self.throttle
    }

    /// The standby throttle shared by all groups on this fabric.
    pub fn throttle(&self) -> (r: &StandbyThrottle<P>)
        ensures
            *r == self.spec_throttle(),
    {
        &self.throttle
    }

    /// The throttle, for reconfiguration; the routing table is untouched.
    pub fn throttle_mut(&mut self) -> (r: &mut StandbyThrottle<P>)
        ensures
            *r == old(self).spec_throttle(),
            final(self)@ == old(self)@,
            final(self).spec_throttle() == *final(r),
    {
        &mut self.throttle
    }

    /// Registers the connection of `node`; all its groups share it. The
    /// node counts as a link from its first registration on.
    pub fn register_node(&mut self, node: u64, conn: T)
        ensures
            final(self)@.nodes == old(self)@.nodes.insert(node, conn),
            final(self)@.links == old(self)@.links.insert(node),
            final(self)@.links.finite(),
            final(self)@.links.len() == old(self)@.links.len() + if old(self)@.links.contains(node) {
                0int
            } else {
                1int
            },
    {
        self.nodes.insert(node, conn);
        self.metrics.record_peer(node);
    }

    /// Unregisters `node`, handing back its connection; the link count is
    /// unchanged.
    pub fn unregister_node(&mut self, node: u64) -> (r: Option<T>)
        ensures
            final(self)@.nodes == old(self)@.nodes.remove(node),
            final(self)@.links == old(self)@.links,
            r == (if old(self)@.nodes.contains_key(node) {
                Some(old(self)@.nodes[node])
            } else {
                None
            }),
    {
        self.nodes.remove(&node)
    }

    /// Distinct nodes ever linked (grows with nodes, not groups).
    pub fn unique_peer_links(&self) -> (r: usize)
        ensures
            r == self@.links.len(),
            self@.links.finite(),
    {
        self.metrics.unique_peer_links()
    }

    /// Whether `node` has a connection.
    pub fn has_node(&self, node: u64) -> (r: bool)
        ensures
            r == self@.nodes.contains_key(node),
    {
        self.nodes.contains_key(&node)
    }

    /// The connection to route a request for `node` through, or the
    /// refusal `node <id> not connected`.
    pub fn route(&self, node: u64) -> (r: Result<&T, RouterError>)
        ensures
            match r {
                Ok(c) => self@.nodes.contains_key(node) && *c == self@.nodes[node],
                Err(e) => !self@.nodes.contains_key(node) && e.0@ == not_connected_text(node),
            },
    {
        match self.nodes.get(&node) {
            Some(c) => Ok(c),
            None => Err(not_connected_error(node)),
        }
    }
}

/// The peer map built from a list: a later entry for the same id wins.
pub open spec fn peer_map(peers: Seq<(u64, PeerAddr)>) -> Map<u64, PeerAddr>
    decreases peers.len(),
{
    if peers.len() == 0 {
        Map::empty()
    } else {
        peer_map(peers.drop_last()).insert(peers.last().0, peers.last().1)
    }
}

/// Abstract outbound router: own id, peer addresses, cached channels and
/// links.
pub struct GrpcRouterState<C> {
    pub self_id: u64,
    pub peers: Map<u64, PeerAddr>,
    pub channels: Map<u64, C>,
    pub links: Set<u64>,
}

/// How to get a channel to a peer.
pub enum ChannelPlan {
    /// A channel is cached: use it.
    Cached,
    /// Connect to this address through this endpoint URL.
    Connect(PeerAddr, String),
    /// The peer is not configured; the RPC fails with this text.
    Unknown(String),
    /// The peer is this node, which is skipped outbound; the RPC fails with
    /// this text.
    OwnNode(String),
}

/// Links only ever go to configured peers other than this node, and the
/// configured peers are finitely many.
pub open spec fn links_within_peers<C>(s: GrpcRouterState<C>) -> bool {
    &&& s.peers.dom().finite()
    &&& s.links.subset_of(s.peers.dom().remove(s.self_id))
}

/// The configured peers of a list are finitely many.
pub proof fn lemma_peer_map_finite(peers: Seq<(u64, PeerAddr)>)
    ensures
        peer_map(peers).dom().finite(),
    decreases peers.len(),
{
    if peers.len() > 0 {
        lemma_peer_map_finite(peers.drop_last());
    }
}

/// Outbound router across processes: one cached channel (`C`) per peer node.
pub struct GrpcRouter<C, P> {
    self_id: u64,
    peers: HashMap<u64, PeerAddr>,
    channels: HashMap<u64, C>,
    metrics: ConnMetrics,
    throttle: StandbyThrottle<P>,
}

impl<C, P> View for GrpcRouter<C, P> {
    type V = GrpcRouterState<C>;

    closed spec fn view(&self) -> GrpcRouterState<C> {
        GrpcRouterState {
            self_id: self.self_id,
            peers: self.peers@,
            channels: self.channels@,
            links: self.metrics@,
        }
    }
}

impl<C, P> GrpcRouter<C, P> {
    /// A router for `self_id` over `peers` with a default throttle.
    pub fn new(peers: Vec<(u64, PeerAddr)>, self_id: u64) -> (r: GrpcRouter<C, P>)
        ensures
            r@.self_id == self_id,
            r@.peers == peer_map(peers@),
            r@.channels == Map::<u64, C>::empty(),
            r@.links == Set::<u64>::empty(),
            links_within_peers(r@),
            r.spec_throttle()@ == default_throttle(),
    {
        Self::with_throttle(peers, self_id, StandbyThrottle::new())
    }

    /// A router with a preconfigured standby throttle.
    pub fn with_throttle(peers: Vec<(u64, PeerAddr)>, self_id: u64, throttle: StandbyThrottle<P>) -> (r:
        GrpcRouter<C, P>)
        ensures
            r@.self_id == self_id,
            r@.peers == peer_map(peers@),
            r@.channels == Map::<u64, C>::empty(),
            r@.links == Set::<u64>::empty(),
            links_within_peers(r@),
            r.spec_throttle() == throttle,
    {
        let mut map: HashMap<u64, PeerAddr> = HashMap::new();
        let mut i: usize = 0;
        while i < peers.len()
            invariant
                i <= peers@.len(),
                map@ == peer_map(peers@.subrange(0, i as int)),
            decreases peers@.len() - i,
        {
            proof {
                let nx = peers@.subrange(0, i as int + 1);
                assert(nx.drop_last() =~= peers@.subrange(0, i as int));
                assert(nx.last() == peers@[i as int]);
            }
            map.insert(peers[i].0, peers[i].1);
            i = i + 1;
        }
        proof {
            assert(peers@.subrange(0, peers@.len() as int) =~= peers@);
            lemma_peer_map_finite(peers@);
        }
        GrpcRouter { self_id, peers: map, channels: HashMap::new(), metrics: ConnMetrics::new(), throttle }
    }

    /// A router seeded from the cluster configuration (peers, own id and
    /// standby throttle).
    pub fn from_config(config: &ClusterConfig) -> (r: GrpcRouter<C, P>)
        ensures
            r@.self_id == config.node_id,
            r@.peers == peer_map(config.peers@),
            r@.channels == Map::<u64, C>::empty(),
            r@.links == Set::<u64>::empty(),
            links_within_peers(r@),
            r.spec_throttle()@ == (ThrottleState {
                standby_ids: config.standby_node_ids@.to_set(),
                delay_ms: config.standby_replicate_delay_ms,
                max_inflight: configured_max(config.standby_max_inflight),
                pools: Set::empty(),
            }),
    {
        let throttle = StandbyThrottle::from_config(config);
        let mut peers: Vec<(u64, PeerAddr)> = Vec::new();
        let mut i: usize = 0;
        while i < config.peers.len()
            invariant
                i <= config.peers@.len(),
                peers@ == config.peers@.subrange(0, i as int),
            decreases config.peers@.len() - i,
        {
            peers.push(config.peers[i]);
            proof {
                assert(peers@ =~= config.peers@.subrange(0, i as int + 1));
            }
            i = i + 1;
        }
        proof {
            assert(config.peers@.subrange(0, config.peers@.len() as int) =~= config.peers@);
        }
        Self::with_throttle(peers, config.node_id, throttle)
    }

    /// This node's id.
    pub fn self_id(&self) -> (r: u64)
        ensures
            r == self@.self_id,
    {
        self.self_id
    }

    /// The standby throttle for outbound RPCs.
    pub closed spec fn spec_throttle(&self) -> StandbyThrottle<P> {
        self.throttle
    }

    /// The standby throttle for outbound RPCs.
    pub fn throttle(&self) -> (r: &StandbyThrottle<P>)
        ensures
            *r == self.spec_throttle(),
    {
        &self.throttle
    }

    /// The throttle, for reconfiguration and permit pools; the routing
    /// state is untouched.
    pub fn throttle_mut(&mut self) -> (r: &mut StandbyThrottle<P>)
        ensures
            *r == old(self).spec_throttle(),
            final(self)@ == old(self)@,
            final(self).spec_throttle() == *final(r),
    {
        &mut self.throttle
    }

    /// Distinct peers a channel was created for.
    pub fn unique_peer_links(&self) -> (r: usize)
        ensures
            r == self@.links.len(),
            self@.links.finite(),
    {
        self.metrics.unique_peer_links()
    }

    /// The cached channel to `peer`, if one was created.
    pub fn cached_channel(&self, peer: u64) -> (r: Option<&C>)
        ensures
            match r {
                Some(c) => self@.channels.contains_key(peer) && *c == self@.channels[peer],
                None => !self@.channels.contains_key(peer),
            },
    {
        self.channels.get(&peer)
    }

    /// What getting a channel to `peer` takes: nothing for this node itself
    /// when it is configured, since it is skipped outbound (`peer <id> is
    /// this node`); else the cached channel, connecting to the peer's
    /// endpoint, or, for an id that is not configured (this node's own
    /// included), the refusal `peer <id> not in cluster config`.
    pub fn channel_plan(&self, peer: u64) -> (r: ChannelPlan)
        ensures
            peer == self@.self_id && self@.peers.contains_key(peer) ==> (r matches ChannelPlan::OwnNode(
                e,
            ) && e@ == "peer "@ + decimal(peer as nat) + " is this node"@),
            peer != self@.self_id && self@.channels.contains_key(peer) ==> r == ChannelPlan::Cached,
            peer != self@.self_id && !self@.channels.contains_key(peer) && self@.peers.contains_key(
                peer,
            ) ==> (r matches ChannelPlan::Connect(a, url) && a == self@.peers[peer] && url@
                == "http://"@ + peer_addr_text(a)),
            !self@.channels.contains_key(peer) && !self@.peers.contains_key(peer) ==> (r matches ChannelPlan::Unknown(
                e,
            ) && e@ == "peer "@ + decimal(peer as nat) + " not in cluster config"@),
    {
        if peer == self.self_id && self.peers.contains_key(&peer) {
            let mut m = String::from_str("peer ");
            crate::text::push_decimal(&mut m, peer);
            m.append(" is this node");
            return ChannelPlan::OwnNode(m);
        }
        if self.channels.contains_key(&peer) {
            return ChannelPlan::Cached;
        }
        match self.peers.get(&peer) {
            Some(a) => {
                let url = endpoint_url(a);
                ChannelPlan::Connect(*a, url)
            },
            None => {
                let mut m = String::from_str("peer ");
                crate::text::push_decimal(&mut m, peer);
                m.append(" not in cluster config");
                ChannelPlan::Unknown(m)
            },
        }
    }

    /// Keeps a freshly connected channel to a configured peer other than this
    /// node, unless another one was cached meanwhile (then the cached one
    /// stays and `false` is returned). A peer counts as a link when its first
    /// channel is cached; this node and unconfigured peers are never cached.
    pub fn install_channel(&mut self, peer: u64, channel: C) -> (r: bool)
        ensures
            r == (peer != old(self)@.self_id && old(self)@.peers.contains_key(peer)
                && !old(self)@.channels.contains_key(peer)),
            r ==> final(self)@ == (GrpcRouterState {
                channels: old(self)@.channels.insert(peer, channel),
                links: old(self)@.links.insert(peer),
                ..old(self)@
            }),
            !r ==> final(self)@ == old(self)@,
            r ==> final(self)@.links.finite() && final(self)@.links.len() == old(self)@.links.len()
                + if old(self)@.links.contains(peer) {
                0int
            } else {
                1int
            },
            links_within_peers(old(self)@) ==> links_within_peers(final(self)@),
    {
        if peer == self.self_id || !self.peers.contains_key(&peer) || self.channels.contains_key(
            &peer,
        ) {
            return false;
        }
        self.channels.insert(peer, channel);
        self.metrics.record_peer(peer);
        true
    }
}

/// `http://<addr>`: the endpoint of a peer.
pub fn endpoint_url(addr: &PeerAddr) -> (r: String)
    ensures
        r@ == "http://"@ + peer_addr_text(*addr),
{
    let mut r = String::from_str("http://");
    let a = addr.to_text();
    r.append(a.as_str());
    r
}

/// `connect <addr>: <detail>`: a failed connection to a peer.
pub fn connect_error(addr: &PeerAddr, detail: &str) -> (r: String)
    ensures
        r@ == "connect "@ + peer_addr_text(*addr) + ": "@ + detail@,
{
    let mut r = String::from_str("connect ");
    let a = addr.to_text();
    r.append(a.as_str());
    r.append(": ");
    r.append(detail);
    r
}

/// `rpc to <node>: <detail>`: a failed RPC to a peer.
pub fn rpc_error(node: u64, detail: &str) -> (r: String)
    ensures
        r@ == "rpc to "@ + decimal(node as nat) + ": "@ + detail@,
{
    let mut r = String::from_str("rpc to ");
    crate::text::push_decimal(&mut r, node);
    r.append(": ");
    r.append(detail);
    r
}

/// Interval between retries of an unreachable peer, in milliseconds.
pub const BACKOFF_MS: u64 = 500;

/// The inbound RPC server of a node: it serves every group hosted here and
/// routes each request with [`dispatch`].
#[derive(Clone, Copy, Debug)]
pub struct GrpcServer;

/// Channels are shared: once a peer has a cached channel, installing
/// another keeps the first and adds no link.
pub proof fn law_one_channel_per_peer<C>(s: GrpcRouterState<C>, peer: u64, a: C)
    ensures
        ({
            let after_first = GrpcRouterState {
                channels: s.channels.insert(peer, a),
                links: s.links.insert(peer),
                ..s
            };
            &&& after_first.channels.contains_key(peer)
            &&& after_first.channels[peer] == a
            &&& after_first.links.insert(peer) == after_first.links
        }),
{
    assert(s.links.insert(peer).insert(peer) =~= s.links.insert(peer));
}

/// Links are counted per node, never per group, and never to this node: a
/// router has at most one link per configured peer other than itself.
pub proof fn law_links_bounded_by_other_peers<C>(s: GrpcRouterState<C>)
    requires
        links_within_peers(s),
    ensures
        s.links.len() <= s.peers.dom().remove(s.self_id).len(),
        !s.links.contains(s.self_id),
{
    vstd::set_lib::lemma_len_subset(s.links, s.peers.dom().remove(s.self_id));
}

/// A node of the in-process fabric: many groups behind one inbound
/// connection, each with its application context `G`.
pub struct Node<G> {
    node_id: u64,
    groups: GroupTable<G>,
}

impl<G> Node<G> {
    /// A node with no groups yet.
    pub fn new(node_id: u64) -> (r: Node<G>)
        ensures
            r.id() == node_id,
            r.groups_view() == Map::<u64, G>::empty(),
    {
        Node { node_id, groups: GroupTable::new() }
    }

    /// The node's id.
    pub closed spec fn id(&self) -> u64 {
        self.node_id
    }

    /// The groups hosted here.
    pub closed spec fn groups_view(&self) -> Map<u64, G> {
        self.groups@
    }

    /// The node's id.
    pub fn node_id(&self) -> (r: u64)
        ensures
            r == self.id(),
    {
        self.node_id
    }

    /// The ids of the groups hosted here, each once.
    pub fn group_ids(&self) -> (r: Vec<u64>)
        ensures
            r@.to_set() == self.groups_view().dom(),
            r@.no_duplicates(),
    {
        self.groups.ids()
    }

    /// Hosts `group_id` with its context.
    pub fn add_group(&mut self, group_id: u64, app: G)
        ensures
            final(self).id() == old(self).id(),
            final(self).groups_view() == old(self).groups_view().insert(group_id, app),
    {
        self.groups.insert(group_id, app);
    }

    /// Stops hosting every group, as a shutdown does: afterwards no group is
    /// known here, so lookups and inbound routing find none.
    pub fn stop(&mut self)
        ensures
            final(self).id() == old(self).id(),
            final(self).groups_view() == Map::<u64, G>::empty(),
            forall|g: u64| !final(self).groups_view().contains_key(g),
    {
        self.groups = GroupTable::new();
    }

    /// The context of `group_id`, if hosted here.
    pub fn get_raft(&self, group_id: u64) -> (r: Option<&G>)
        ensures
            match r {
                Some(g) => self.groups_view().contains_key(group_id) && *g == self.groups_view()[group_id],
                None => !self.groups_view().contains_key(group_id),
            },
    {
        match self.groups.get(group_id) {
            Ok(g) => Some(g),
            Err(_) => None,
        }
    }

    /// Routes an inbound message: the group it names and the RPC its path
    /// names, or `None` (answered with a fatal "stopped" error) when either
    /// is unknown.
    pub fn route_inbound(&self, group_id: u64, path: &str) -> (r: Option<(&G, RaftRpc)>)
        ensures
            match r {
                Some((g, rpc)) => self.groups_view().contains_key(group_id) && *g == self.groups_view()[group_id]
                    && rpc_of_path(path@) == Some(rpc),
                None => !self.groups_view().contains_key(group_id) || rpc_of_path(path@) is None,
            },
    {
        let g = match self.groups.get(group_id) {
            Ok(g) => g,
            Err(_) => {
                return None;
            },
        };
        match dispatch(true, path) {
            Some(rpc) => Some((g, rpc)),
            None => None,
        }
    }
}

} // verus!

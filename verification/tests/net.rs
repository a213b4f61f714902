use multiraft::cluster::GroupTable;
use multiraft::config::PeerAddr;
use sha2::Digest;
use multiraft::demo::admin_addr_for_node;
use multiraft::demo::check_node_id;
use multiraft::demo::default_delta;
use multiraft::demo::find_node;
use multiraft::demo::first_leader;
use multiraft::demo::known_group;
use multiraft::demo::node_data_dir;
use multiraft::demo::peer_addrs;
use multiraft::demo::CreateStep;
use multiraft::demo::GroupCreation;
use multiraft::demo::CREATE_ATTEMPTS;
use multiraft::demo::CREATE_RETRY_MS;
use multiraft::demo::propose_step;
use multiraft::demo::propose_target;
use multiraft::demo::ProposeStep;
use multiraft::demo::PROPOSE_DELTA;
use multiraft::demo::PROPOSE_INTERVAL_MS;
use multiraft::demo::validate_counts;
use multiraft::demo::value_reply;
use multiraft::demo::IdemSource;
use multiraft::demo::IncReply;
use multiraft::demo::IncRound;
use multiraft::demo::ValueReply;
use multiraft::error::MultiRaftError;
use multiraft::error::ProposeOk;
use multiraft::log_frames::decode_frames;
use multiraft::log_frames::encode_frames;
use multiraft::log_frames::log_source;
use multiraft::log_frames::needs_migration;
use multiraft::log_frames::FrameError;
use multiraft::log_frames::LogSource;
use multiraft::raft_log::IndexBound;
use multiraft::raft_log::LogId;
use multiraft::raft_log::LogRecord;
use multiraft::raft_log::RaftLog;
use multiraft::raft_log::Vote;
use multiraft::raft_log::range_malformed;
use multiraft::router::dispatch;
use multiraft::router::endpoint_url;
use multiraft::router::rpc_path;
use multiraft::router::ChannelPlan;
use multiraft::router::GrpcRouter;
use multiraft::router::Node;
use multiraft::router::RaftRpc;
use multiraft::router::Router;
use multiraft::snapshot_fetch::content_range_total;
use multiraft::snapshot_fetch::finish_fetch;
use multiraft::snapshot_fetch::header_u64;
use multiraft::snapshot_fetch::range_header;
use multiraft::snapshot_fetch::snapshot_headers;
use multiraft::snapshot_fetch::temp_path_for_url;
use multiraft::snapshot_fetch::verify_sha;
use multiraft::snapshot_fetch::RangeFetch;
use multiraft::snapshot_fetch::RangeReply;

#[test]
fn temp_path_stable_for_same_url() {
    let dir = "/tmp";
    let a = temp_path_for_url(dir, "http://x/s", "abc");
    let b = temp_path_for_url(dir, "http://x/s", "abc");
    assert_eq!(a, b);
}

#[test]
fn temp_path_is_sha_prefix_of_url_and_digest() {
    let mut h = sha2::Sha256::new();
    h.update(b"http://x/s");
    h.update(b"abc");
    let hex: String = h.finalize().iter().map(|b| format!("{b:02x}")).collect();
    let expected = format!("/tmp/multiraft-snap-{}.partial", &hex[..16]);
    assert_eq!(temp_path_for_url("/tmp", "http://x/s", "abc"), expected);
    assert_ne!(temp_path_for_url("/tmp", "http://x/t", "abc"), expected);
}

#[test]
fn sha_verification() {
    let want = "ba7816bf8f01cfea414140de5dae2223b00361a396177a9cb410ff61f20015ad";
    assert!(verify_sha(b"abc", want).is_ok());
    match verify_sha(b"abd", want) {
        Err(m) => assert!(m.starts_with(&format!("snapshot sha256 mismatch: expected {want}, got "))),
        Ok(()) => panic!("mismatch must fail"),
    }
}

#[test]
fn header_parsing() {
    assert_eq!(header_u64(Some("42")), Some(42));
    assert_eq!(header_u64(Some("x")), None);
    assert_eq!(header_u64(None), None);
    assert_eq!(content_range_total(Some("bytes 0-0/1234")), Some(1234));
    assert_eq!(content_range_total(Some("bytes */1234")), Some(1234));
    assert_eq!(content_range_total(Some("bytes 0-9/*")), None);
    assert_eq!(content_range_total(Some("bytes 0-9")), None);
    assert_eq!(range_header(0, 15), "bytes=0-15");
    match snapshot_headers(Some(1), None, Some("ab".to_string()), None) {
        Err(m) => assert_eq!(m, "missing X-Snapshot-Term header"),
        Ok(_) => panic!("term is required"),
    }
    match snapshot_headers(Some(1), Some(2), Some("ab".to_string()), Some("1-2".to_string())) {
        Ok(h) => assert_eq!((h.last_index, h.last_term, h.sha256_hex.as_str()), (1, 2, "ab")),
        Err(_) => panic!("all headers present"),
    }
}

#[test]
fn ranged_download_tiles_the_snapshot() {
    let (mut f, discarded) = RangeFetch::start(16, 40, Some(100));
    assert!(discarded);
    assert_eq!(f.offset(), 0);
    let mut ranges = Vec::new();
    while !f.done() {
        let (s, e) = f.next_range();
        ranges.push((s, e));
        assert_eq!(f.reply_kind(206), RangeReply::Partial);
        assert!(f.accept_body(e - s + 1));
    }
    assert_eq!(ranges, vec![(0, 15), (16, 31), (32, 39)]);
    assert!(!f.accept_body(0));
    let (g, discarded) = RangeFetch::start(0, 10, Some(4));
    assert!(!discarded);
    assert_eq!(g.offset(), 4);
    assert_eq!(g.next_range(), (4, 4));
    assert_eq!(g.reply_kind(200), RangeReply::Refused);
    let (h, _) = RangeFetch::start(8, 10, None);
    assert_eq!(h.reply_kind(200), RangeReply::Whole);
}

#[test]
fn frames_roundtrip_and_errors() {
    let payloads = vec![vec![1u8, 2, 3], vec![], vec![9u8; 300]];
    let bytes = match encode_frames(&payloads) {
        Ok(b) => b,
        Err(_) => panic!("encode"),
    };
    assert_eq!(&bytes[0..7], &[3, 0, 0, 0, 1, 2, 3]);
    assert_eq!(&bytes[7..11], &[0, 0, 0, 0]);
    assert_eq!(&bytes[11..15], &[44, 1, 0, 0]);
    match decode_frames(&bytes) {
        Ok(v) => assert_eq!(v, payloads),
        Err(_) => panic!("decode"),
    }
    match decode_frames(&[5, 0, 0, 0, 1]) {
        Err(e) => assert_eq!(e.describe("log.bin"), "log.bin: truncated frame at 4"),
        Ok(_) => panic!("truncated"),
    }
    match decode_frames(&[1, 0, 0, 0, 7, 1, 2]) {
        Err(e) => {
            assert!(matches!(e, FrameError::Trailing { count: 2 }));
            assert_eq!(e.describe("d/log.bin"), "d/log.bin: trailing 2 bytes");
        },
        Ok(_) => panic!("trailing"),
    }
    assert_eq!(FrameError::TooLarge.describe("x"), "entry too large");
}

#[test]
fn log_sources() {
    assert_eq!(log_source(true, true, true), LogSource::Binary);
    assert_eq!(log_source(false, true, true), LogSource::Ndjson);
    assert_eq!(log_source(false, false, true), LogSource::LegacyJson);
    assert_eq!(log_source(false, false, false), LogSource::Empty);
    assert!(!needs_migration(LogSource::Binary, 3));
    assert!(needs_migration(LogSource::Ndjson, 3));
    assert!(!needs_migration(LogSource::LegacyJson, 0));
}

fn rec(term: u64, index: u64, byte: u8) -> LogRecord {
    LogRecord { log_id: LogId { term, node_id: 1, index }, payload: vec![byte] }
}

fn indexes(v: &[LogRecord]) -> Vec<(u64, u64, u8)> {
    v.iter().map(|r| (r.log_id.index, r.log_id.term, r.payload[0])).collect()
}

#[test]
fn raft_log_append_truncate_purge() {
    let mut log = RaftLog::new();
    assert_eq!(log.log_state(), (None, None));
    log.append(vec![rec(1, 1, 10), rec(1, 2, 20), rec(1, 3, 30)]);
    // an entry at an existing index replaces it
    log.append(vec![rec(2, 2, 21)]);
    let all = log.entries_in(IndexBound::Unbounded, IndexBound::Unbounded);
    assert_eq!(indexes(&all), vec![(1, 1, 10), (2, 2, 21), (3, 1, 30)]);
    let mid = log.entries_in(IndexBound::Included(2), IndexBound::Excluded(3));
    assert_eq!(indexes(&mid), vec![(2, 2, 21)]);
    log.truncate_after(Some(LogId { term: 2, node_id: 1, index: 2 }));
    assert_eq!(log.log_state().1, Some(LogId { term: 2, node_id: 1, index: 2 }));
    log.purge(LogId { term: 1, node_id: 1, index: 1 });
    assert_eq!(log.last_purged(), Some(LogId { term: 1, node_id: 1, index: 1 }));
    assert_eq!(indexes(&log.entries_in(IndexBound::Unbounded, IndexBound::Unbounded)), vec![(2, 2, 21)]);
    log.purge(LogId { term: 2, node_id: 1, index: 2 });
    assert_eq!(log.log_state(), (Some(LogId { term: 2, node_id: 1, index: 2 }), Some(LogId { term: 2, node_id: 1, index: 2 })));
    log.save_committed(Some(LogId { term: 2, node_id: 1, index: 2 }));
    log.save_vote(Vote { term: 2, node_id: 1, committed: true });
    assert_eq!(log.committed(), Some(LogId { term: 2, node_id: 1, index: 2 }));
    assert_eq!(log.vote(), Some(Vote { term: 2, node_id: 1, committed: true }));
    log.truncate_after(None);
    assert!(log.entries_in(IndexBound::Unbounded, IndexBound::Unbounded).is_empty());
}

#[test]
fn rpc_paths_and_dispatch() {
    for rpc in [RaftRpc::Append, RaftRpc::Snapshot, RaftRpc::Vote, RaftRpc::TransferLeader] {
        assert_eq!(dispatch(true, rpc_path(rpc)), Some(rpc));
        assert_eq!(dispatch(false, rpc_path(rpc)), None);
    }
    assert_eq!(rpc_path(RaftRpc::Append), "/raft/append");
    assert_eq!(rpc_path(RaftRpc::TransferLeader), "/raft/transfer_leader");
    assert_eq!(dispatch(true, "/raft/unknown"), None);
}

#[test]
fn in_process_router_shares_one_link_per_node() {
    let mut r: Router<&str, u32> = Router::new();
    for _group in 0..10 {
        r.register_node(2, "conn-2");
        r.register_node(3, "conn-3");
    }
    assert_eq!(r.unique_peer_links(), 2);
    assert!(r.has_node(2));
    match r.route(4) {
        Err(e) => assert_eq!(e.message(), "node 4 not connected"),
        Ok(_) => panic!("node 4 is not registered"),
    }
    assert_eq!(r.unregister_node(2), Some("conn-2"));
    assert!(!r.has_node(2));
    assert_eq!(r.unique_peer_links(), 2);
    match r.route(3) {
        Ok(c) => assert_eq!(*c, "conn-3"),
        Err(_) => panic!("node 3 is registered"),
    }
}

#[test]
fn grpc_router_caches_channels() {
    let peers = vec![(1, PeerAddr::localhost(21000)), (2, PeerAddr::localhost(21001))];
    let mut r: GrpcRouter<&str, u32> = GrpcRouter::new(peers, 1);
    assert_eq!(r.self_id(), 1);
    match r.channel_plan(2) {
        ChannelPlan::Connect(a, url) => {
            assert_eq!(a, PeerAddr::localhost(21001));
            assert_eq!(url, "http://127.0.0.1:21001");
        },
        _ => panic!("peer 2 must be connected"),
    }
    match r.channel_plan(9) {
        ChannelPlan::Unknown(m) => assert_eq!(m, "peer 9 not in cluster config"),
        _ => panic!("peer 9 is unknown"),
    }
    match r.channel_plan(1) {
        ChannelPlan::OwnNode(m) => assert_eq!(m, "peer 1 is this node"),
        _ => panic!("self is skipped outbound"),
    }
    let unconfigured_self: GrpcRouter<&str, u32> = GrpcRouter::new(vec![(2, PeerAddr::localhost(21001))], 1);
    match unconfigured_self.channel_plan(1) {
        ChannelPlan::Unknown(m) => assert_eq!(m, "peer 1 not in cluster config"),
        _ => panic!("an unconfigured own id is unknown"),
    }
    assert!(!r.install_channel(1, "ch-self"));
    assert!(!r.install_channel(9, "ch-unknown"));
    assert_eq!(r.cached_channel(1), None);
    assert_eq!(r.unique_peer_links(), 0);
    assert!(r.install_channel(2, "ch-a"));
    assert!(!r.install_channel(2, "ch-b"));
    assert_eq!(r.cached_channel(2), Some(&"ch-a"));
    assert!(matches!(r.channel_plan(2), ChannelPlan::Cached));
    assert_eq!(r.unique_peer_links(), 1);
    assert_eq!(endpoint_url(&PeerAddr::localhost(80)), "http://127.0.0.1:80");
}

#[test]
fn demo_port_layout() {
    let peers = peer_addrs(21000, 3);
    assert_eq!(peers.len(), 3);
    assert_eq!(peers[0], (1, PeerAddr::localhost(21000)));
    assert_eq!(peers[2], (3, PeerAddr::localhost(21002)));
    assert_eq!(admin_addr_for_node(21000, 1), PeerAddr::localhost(21100));
    assert_eq!(admin_addr_for_node(21000, 3), PeerAddr::localhost(21102));
    // saturating at the top of the port range
    assert_eq!(admin_addr_for_node(65530, 2), PeerAddr::localhost(65535));
    assert_eq!(peer_addrs(65535, 2)[1], (2, PeerAddr::localhost(65535)));
    assert!(peer_addrs(21000, 0).is_empty());
}

#[test]
fn demo_argument_checks() {
    assert_eq!(validate_counts(0, 1), Err("--nodes must be >= 1".to_string()));
    assert_eq!(validate_counts(1, 0), Err("--groups must be >= 1".to_string()));
    assert_eq!(validate_counts(3, 10), Ok(()));
    assert_eq!(check_node_id(None, 3), Err("--node-id is required for --mode node".to_string()));
    assert_eq!(check_node_id(Some(4), 3), Err("--node-id must be in 1..=3".to_string()));
    assert_eq!(check_node_id(Some(0), 3), Err("--node-id must be in 1..=3".to_string()));
    assert_eq!(check_node_id(Some(2), 3), Ok(2));
    assert_eq!(default_delta(), 1);
    assert_eq!(node_data_dir(".demo-data", 2), ".demo-data/node-2");
}

#[test]
fn idempotency_keys_are_unique_per_node() {
    let mut a = IdemSource::for_node(1);
    let mut b = IdemSource::for_node(2);
    let ka1 = a.next_idem();
    let ka2 = a.next_idem();
    let kb1 = b.next_idem();
    assert_eq!(ka1, (1 << 32) | 1);
    assert_eq!(ka2, (1 << 32) | 2);
    assert_eq!(kb1, (2 << 32) | 1);
    let mut shared = IdemSource::shared();
    assert_eq!(shared.next_idem(), 1);
}

#[test]
fn admin_lookups() {
    assert!(known_group(&[0, 1, 2], 2));
    assert!(!known_group(&[0, 1, 2], 3));
    assert_eq!(first_leader(&[None, Some(3), Some(1)]), Some(3));
    assert_eq!(first_leader(&[None, None]), None);
    assert_eq!(find_node(&[1, 2, 3], 2), Some(1));
    assert_eq!(find_node(&[1, 2, 3], 7), None);
}

#[test]
fn value_reads_prefer_linearizable() {
    assert!(matches!(value_reply(Some(5), &[Some(9)]), ValueReply::Linearizable(5)));
    assert!(matches!(value_reply(None, &[Some(4), None, Some(9), Some(-1)]), ValueReply::Local(9)));
    assert!(matches!(value_reply(None, &[None]), ValueReply::Unavailable));
}

#[test]
fn increments_walk_leaders_then_all_nodes() {
    let mut round = IncRound::new();
    assert!(round.should_ask(true));
    assert!(!round.should_ask(false));
    assert!(round.on_outcome(Err(MultiRaftError::NotLeader { hint: Some(2) })).is_none());
    round.end_leader_pass();
    assert!(round.should_ask(false));
    assert!(round.on_outcome(Err(MultiRaftError::NotLeader { hint: Some(3) })).is_none());
    match round.finish() {
        IncReply::Unavailable(m) => assert_eq!(m, "not leader; hint=Some(3)"),
        _ => panic!("no node took the write"),
    }
    let mut quiet = IncRound::new();
    quiet.end_leader_pass();
    match quiet.finish() {
        IncReply::Unavailable(m) => assert_eq!(m, "no local leader"),
        _ => panic!("no node took the write"),
    }
    let mut ok = IncRound::new();
    match ok.on_outcome(Ok(ProposeOk { index: 7, term: 2 })) {
        Some(IncReply::Committed(p)) => assert_eq!(p, ProposeOk { index: 7, term: 2 }),
        _ => panic!("commit ends the round"),
    }
    let mut conflict = IncRound::new();
    match conflict.on_outcome(Err(MultiRaftError::UnknownGroup(5))) {
        Some(IncReply::Conflict(m)) => assert_eq!(m, "unknown group 5"),
        _ => panic!("other errors end the round"),
    }
}

#[test]
fn group_tables_and_inbound_routing() {
    let mut t: GroupTable<&str> = GroupTable::new();
    assert!(!t.contains(1));
    t.insert(1, "g1");
    t.insert(3, "g3");
    assert!(t.contains(3));
    match t.get(2) {
        Err(e) => assert_eq!(e.message(), "unknown group 2"),
        Ok(_) => panic!("group 2 is not hosted"),
    }
    let mut ids = t.ids();
    ids.sort();
    assert_eq!(ids, vec![1, 3]);
    t.clear();
    assert!(!t.contains(1));

    let mut node: Node<&str> = Node::new(7);
    assert_eq!(node.node_id(), 7);
    node.add_group(0, "app-0");
    assert_eq!(node.get_raft(0), Some(&"app-0"));
    assert_eq!(node.get_raft(1), None);
    match node.route_inbound(0, "/raft/vote") {
        Some((app, rpc)) => {
            assert_eq!(*app, "app-0");
            assert_eq!(rpc, RaftRpc::Vote);
        },
        None => panic!("group 0 serves votes"),
    }
    assert!(node.route_inbound(0, "/raft/nope").is_none());
    assert!(node.route_inbound(1, "/raft/vote").is_none());
    assert_eq!(node.group_ids(), vec![0]);
}

#[test]
fn finished_downloads_are_checked() {
    let sha = "ba7816bf8f01cfea414140de5dae2223b00361a396177a9cb410ff61f20015ad".to_string();
    let ok = snapshot_headers(Some(4), Some(2), Some(sha.clone()), None).unwrap_or_else(|_| panic!("headers"));
    match finish_fetch(ok, b"abc".to_vec()) {
        Ok(f) => {
            assert_eq!((f.last_index, f.last_term), (4, 2));
            assert_eq!(f.sha256_hex, sha);
            assert_eq!(f.data, b"abc".to_vec());
            assert_eq!(f.snapshot_id, None);
        },
        Err(m) => panic!("digest matches: {m}"),
    }
    let bad = snapshot_headers(Some(4), Some(2), Some(sha.clone()), None).unwrap_or_else(|_| panic!("headers"));
    match finish_fetch(bad, b"abd".to_vec()) {
        Err(m) => assert!(m.starts_with("snapshot sha256 mismatch: expected ba78")),
        Ok(_) => panic!("digest differs"),
    }
}

#[test]
fn malformed_ranges() {
    assert!(range_malformed(IndexBound::Included(5), IndexBound::Included(4)));
    assert!(range_malformed(IndexBound::Excluded(4), IndexBound::Excluded(4)));
    assert!(!range_malformed(IndexBound::Included(4), IndexBound::Excluded(4)));
    assert!(!range_malformed(IndexBound::Unbounded, IndexBound::Included(0)));
}

#[test]
fn propose_loop_asks_first_local_leader_only() {
    assert_eq!(propose_target(&[false, true, true]), Some(1));
    assert_eq!(propose_target(&[true, false]), Some(0));
    assert_eq!(propose_target(&[false, false, false]), None);
    assert_eq!(propose_target(&[]), None);
    assert_eq!(PROPOSE_INTERVAL_MS, 200);
    assert_eq!(PROPOSE_DELTA, 1);
}

#[test]
fn propose_loop_classifies_outcomes() {
    match propose_step(Ok(ProposeOk { index: 3, term: 1 })) {
        ProposeStep::Proposed(p) => assert_eq!(p, ProposeOk { index: 3, term: 1 }),
        _ => panic!("a commit is a proposal"),
    }
    assert!(matches!(propose_step(Err(MultiRaftError::NotLeader { hint: Some(2) })), ProposeStep::NotLeader));
    match propose_step(Err(MultiRaftError::UnknownGroup(7))) {
        ProposeStep::Failed(m) => assert_eq!(m, "unknown group 7"),
        _ => panic!("an unknown group is a failure"),
    }
}

#[test]
fn stopped_node_knows_no_group() {
    let mut node: Node<&str> = Node::new(4);
    node.add_group(1, "g1");
    node.add_group(2, "g2");
    assert_eq!(node.get_raft(1), Some(&"g1"));
    node.stop();
    assert_eq!(node.node_id(), 4);
    assert_eq!(node.get_raft(1), None);
    assert_eq!(node.get_raft(2), None);
    assert!(node.route_inbound(1, "/raft/append").is_none());
    assert!(node.group_ids().is_empty());
}

#[test]
fn group_creation_retries_whole_attempts() {
    assert_eq!(CREATE_ATTEMPTS, 20);
    assert_eq!(CREATE_RETRY_MS, 200);
    let mut c = GroupCreation::new();
    assert!(matches!(c.step(3), CreateStep::Create(0)));
    assert!(matches!(c.on_outcome(true, 3), CreateStep::Create(1)));
    assert!(matches!(c.on_outcome(false, 3), CreateStep::Retry));
    assert!(matches!(c.step(3), CreateStep::Create(0)));
    assert!(matches!(c.on_outcome(true, 3), CreateStep::Create(1)));
    assert!(matches!(c.on_outcome(true, 3), CreateStep::Create(2)));
    assert!(matches!(c.on_outcome(true, 3), CreateStep::Done));
    let mut failing = GroupCreation::new();
    for _ in 1..CREATE_ATTEMPTS {
        assert!(matches!(failing.on_outcome(false, 2), CreateStep::Retry));
    }
    assert!(matches!(failing.on_outcome(false, 2), CreateStep::GiveUp));
    assert!(matches!(GroupCreation::new().step(0), CreateStep::Done));
}

#[test]
fn links_rise_by_one_only_for_new_nodes() {
    let mut r: Router<&str, u32> = Router::new();
    r.register_node(2, "a");
    assert_eq!(r.unique_peer_links(), 1);
    r.register_node(2, "b");
    assert_eq!(r.unique_peer_links(), 1);
    let _ = r.unregister_node(2);
    r.register_node(2, "c");
    assert_eq!(r.unique_peer_links(), 1);
    r.register_node(3, "d");
    assert_eq!(r.unique_peer_links(), 2);
}

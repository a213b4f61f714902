use multiraft::cluster::check_members;
use multiraft::cluster::initialize_result;
use multiraft::cluster::membership_nodes;
use multiraft::cluster::pick_leader;
use multiraft::cluster::propose_result;
use multiraft::cluster::ClusterGlue;
use multiraft::cluster::InitOutcome;
use multiraft::cluster::LeaderWatch;
use multiraft::cluster::WriteOutcome;
use multiraft::config::group_log_dir;
use multiraft::config::join_path;
use multiraft::config::ClusterConfig;
use multiraft::config::PeerAddr;
use multiraft::conn_metrics::ConnMetrics;
use multiraft::error::MultiRaftError;
use multiraft::error::ProposeOk;
use multiraft::snapshot::is_standby_snapshot_trigger;
use multiraft::snapshot::snapshot_id;
use multiraft::snapshot::standby_snapshot_trigger;
use multiraft::snapshot::SnapshotAdvertisement;
use multiraft::standby_throttle::SendPlan;
use multiraft::standby_throttle::StandbyThrottle;
use multiraft::text::hex_lower;
use multiraft::text::i64_to_decimal;
use multiraft::text::opt_u64_debug;
use multiraft::text::parse_u64;
use multiraft::text::u64_list_debug;
use multiraft::text::u64_to_decimal;

#[test]
fn decimal_rendering() {
    assert_eq!(u64_to_decimal(0), "0");
    assert_eq!(u64_to_decimal(1234567890), "1234567890");
    assert_eq!(u64_to_decimal(u64::MAX), u64::MAX.to_string());
    assert_eq!(i64_to_decimal(-42), "-42");
    assert_eq!(i64_to_decimal(i64::MIN), i64::MIN.to_string());
    assert_eq!(opt_u64_debug(Some(3)), format!("{:?}", Some(3u64)));
    assert_eq!(opt_u64_debug(None), "None");
    assert_eq!(u64_list_debug(&[1, 2, 3]), format!("{:?}", vec![1u64, 2, 3]));
    assert_eq!(u64_list_debug(&[]), "[]");
    assert_eq!(hex_lower(&[0x00, 0xab, 0x7f]), "00ab7f");
}

#[test]
fn parse_u64_matches_std() {
    for s in ["0", "42", "+7", "18446744073709551615", "18446744073709551616", "", "-1", "1a", "+", " 1"] {
        assert_eq!(parse_u64(s), s.parse::<u64>().ok(), "input {s:?}");
    }
}

#[test]
fn for_test_config_uses_port_19000_plus_id() {
    let c = ClusterConfig::for_test(2, &[1, 2, 3]);
    assert_eq!(c.node_id, 2);
    assert_eq!(c.peers.len(), 3);
    assert_eq!(c.peers[0], (1, PeerAddr::localhost(19001)));
    assert_eq!(c.peers[2].1.to_text(), "127.0.0.1:19003");
    assert_eq!(c.data_dir, "");
    assert_eq!(c.heartbeat_interval_ms, 100);
    assert_eq!(c.election_timeout_min_ms, 300);
    assert_eq!(c.election_timeout_max_ms, 600);
}

#[test]
fn paths_join_like_std() {
    assert_eq!(join_path("/data", "group-3"), "/data/group-3");
    assert_eq!(join_path("/data/", "group-3"), "/data/group-3");
    assert_eq!(join_path("", "group-3"), "group-3");
    assert_eq!(group_log_dir("", 1), None);
    assert_eq!(group_log_dir("d", 12), Some("d/group-12".to_string()));
}

#[test]
fn error_messages() {
    assert_eq!(MultiRaftError::UnknownGroup(99).message(), "unknown group 99");
    assert_eq!(MultiRaftError::NotLeader { hint: Some(2) }.message(), "not leader; hint=Some(2)");
    assert_eq!(MultiRaftError::NotLeader { hint: None }.message(), "not leader; hint=None");
    assert_eq!(MultiRaftError::Other("boom".to_string()).message(), "boom");
}

#[test]
fn connection_metrics_count_distinct_peers() {
    let mut m = ConnMetrics::new();
    assert_eq!(m.unique_peer_links(), 0);
    for _group in 0..10 {
        m.record_peer(2);
        m.record_peer(3);
    }
    assert_eq!(m.unique_peer_links(), 2);
}

#[test]
fn trigger_bytes_are_recognised_exactly() {
    let t = standby_snapshot_trigger();
    assert_eq!(t, b"\0multiraft.standby_snapshot_trigger\0".to_vec());
    assert!(is_standby_snapshot_trigger(&t));
    assert!(!is_standby_snapshot_trigger(b"multiraft.standby_snapshot_trigger"));
    assert!(!is_standby_snapshot_trigger(b""));
    let mut longer = t.clone();
    longer.push(0);
    assert!(!is_standby_snapshot_trigger(&longer));
}

#[test]
fn durable_snapshot_ids() {
    assert_eq!(snapshot_id(12, 3), "12-3");
    let ad = SnapshotAdvertisement {
        group: 0,
        last_index: 12,
        last_term: 3,
        snapshot_id: snapshot_id(12, 3),
        size: 5,
        sha256_hex: "ab".to_string(),
        fetch_url: "http://127.0.0.1:23103/snapshots/0/latest".to_string(),
    };
    assert_eq!(ad.clone(), ad);
}

#[test]
fn glue_initializes_once_all_members_ready() {
    let mut glue = ClusterGlue::new();
    let members = [1u64, 2, 3];
    assert!(!glue.ready_to_initialize(7, 1, &members));
    assert!(!glue.ready_to_initialize(7, 2, &members));
    assert!(glue.ready_to_initialize(7, 3, &members));
    // a late or repeated caller never initializes again
    assert!(!glue.ready_to_initialize(7, 3, &members));
    assert!(!glue.try_claim_init(7));
    assert!(glue.try_claim_init(8));
    assert!(glue.mark_ready(9, 1, &[1]));
}

#[test]
fn member_checks() {
    match check_members(1, &[]) {
        Err(e) => assert_eq!(e.message(), "create_group requires at least one member"),
        Ok(()) => panic!("empty members must fail"),
    }
    match check_members(4, &[1, 2, 3]) {
        Err(e) => assert_eq!(e.message(), "local node 4 is not in members [1, 2, 3]"),
        Ok(()) => panic!("non-member must fail"),
    }
    assert!(check_members(2, &[1, 2, 3]).is_ok());
}

#[test]
fn engine_outcomes_become_api_results() {
    assert!(initialize_result(InitOutcome::Done).is_ok());
    assert!(initialize_result(InitOutcome::NotAllowed).is_ok());
    match initialize_result(InitOutcome::Failed("x".to_string())) {
        Err(e) => assert_eq!(e.message(), "initialize group: x"),
        Ok(()) => panic!("failure must surface"),
    }
    match propose_result(WriteOutcome::Committed { index: 5, term: 2 }) {
        Ok(p) => assert_eq!(p, ProposeOk { index: 5, term: 2 }),
        Err(_) => panic!("commit must succeed"),
    }
    match propose_result(WriteOutcome::ForwardToLeader { leader: Some(3) }) {
        Err(MultiRaftError::NotLeader { hint }) => assert_eq!(hint, Some(3)),
        _ => panic!("expected NotLeader"),
    }
    match propose_result(WriteOutcome::Failed("stopped".to_string())) {
        Err(e) => assert_eq!(e.message(), "client_write: stopped"),
        Ok(_) => panic!("failure must surface"),
    }
}

#[test]
fn membership_is_sorted_and_deduplicated() {
    let peers = vec![(3, PeerAddr::localhost(21002)), (1, PeerAddr::localhost(21000))];
    let nodes = membership_nodes(&[3, 1, 3, 2], &peers);
    assert_eq!(
        nodes,
        vec![(1, "127.0.0.1:21000".to_string()), (2, String::new()), (3, "127.0.0.1:21002".to_string())]
    );
}

#[test]
fn leader_watch_fires_on_change_only() {
    let mut w = LeaderWatch::new();
    assert!(w.observe(None));
    assert!(!w.observe(None));
    assert!(w.observe(Some(2)));
    assert!(!w.observe(Some(2)));
    assert!(w.observe(Some(3)));
    assert!(w.observe(None));
}

#[test]
fn leader_agreement() {
    assert_eq!(pick_leader(&[(None, false), (Some(2), false), (Some(3), true)]), Some(2));
    assert_eq!(pick_leader(&[(Some(2), false), (Some(2), false)]), None);
    assert_eq!(pick_leader(&[(None, true)]), None);
}

#[test]
fn throttle_only_holds_back_standbys() {
    let mut t: StandbyThrottle<u32> = StandbyThrottle::new();
    assert_eq!(t.max_inflight(), 8);
    assert_eq!(t.plan_send(5), None);
    t.insert(5);
    assert!(t.contains(5));
    assert_eq!(t.plan_send(5), Some(SendPlan { delay_ms: 0, capacity: 8 }));
    assert_eq!(t.plan_send(4), None);
    t.ensure_pool(5, 1);
    t.ensure_pool(5, 2);
    assert_eq!(t.pool(5), Some(&1));
    t.remove(5);
    assert_eq!(t.plan_send(5), None);
    assert_eq!(t.pool(5), None);
}

#[test]
fn throttle_config_keeps_runtime_standbys() {
    let mut c = ClusterConfig::for_test(1, &[1, 2, 3]);
    c.standby_node_ids = vec![3];
    c.standby_replicate_delay_ms = 25;
    c.standby_max_inflight = 0;
    let mut t: StandbyThrottle<u32> = StandbyThrottle::from_config(&c);
    assert_eq!(t.max_inflight(), 8);
    assert_eq!(t.delay_ms(), 25);
    t.insert(2);
    t.ensure_pool(2, 9);
    c.standby_max_inflight = 2;
    t.apply_config(&c);
    let ids = t.standby_ids();
    assert!(ids.contains(&2) && ids.contains(&3) && ids.len() == 2);
    assert_eq!(t.pool(2), None);
    assert_eq!(t.plan_send(3), Some(SendPlan { delay_ms: 25, capacity: 2 }));
}

#[test]
fn engine_timing_is_checked_by_the_engine() {
    let mut c = ClusterConfig::for_test(1, &[1, 2, 3]);
    assert_eq!(c.check_engine_timing(), Ok(()));
    c.election_timeout_max_ms = 300;
    assert_eq!(c.check_engine_timing(), Err("election timeout: min(300) must be < max(300)".to_string()));
    c.election_timeout_max_ms = 600;
    c.heartbeat_interval_ms = 300;
    assert_eq!(
        c.check_engine_timing(),
        Err("election_timeout_min(300) must be > heartbeat_interval(300)".to_string())
    );
}

use multiraft::counter_fsm::CounterFsm;
use multiraft::fsm::StateMachine;
use multiraft::raft_log::LogId;
use multiraft::sm_store::catalog_or_refuse;
use multiraft::sm_store::ApplyEntry;
use multiraft::sm_store::BatchEnd;
use multiraft::sm_store::CatalogEntry;
use multiraft::sm_store::EntryPayload;
use multiraft::sm_store::SmOptions;
use multiraft::sm_store::SnapshotMeta;
use multiraft::sm_store::SnapshotSource;
use multiraft::sm_store::StateMachineStore;
use multiraft::sm_store::StoredMembership;
use multiraft::snapshot::standby_snapshot_trigger;

type Store = StateMachineStore<CounterFsm, &'static str, u8>;

fn id(term: u64, node_id: u64, index: u64) -> LogId {
    LogId { term, node_id, index }
}

fn normal(term: u64, index: u64, data: Vec<u8>) -> ApplyEntry {
    ApplyEntry { log_id: id(term, 1, index), payload: EntryPayload::Normal(data) }
}

fn with_trigger_and_catalog(group: u64) -> Store {
    StateMachineStore::with_options(
        group,
        CounterFsm::new(),
        SmOptions { allow_hot_build: false, catalog: Some("catalog"), on_standby_trigger: Some(1u8) },
    )
}

#[test]
fn applies_commands_and_tracks_last_applied() {
    let mut store: Store = StateMachineStore::new(4, CounterFsm::new());
    assert_eq!(store.last_applied(), None);
    let entries = vec![
        ApplyEntry { log_id: id(1, 1, 1), payload: EntryPayload::Blank },
        normal(1, 2, CounterFsm::encode_add(5, 1)),
        normal(1, 3, CounterFsm::encode_add(5, 1)),
        normal(2, 4, CounterFsm::encode_add(2, 2)),
    ];
    let batch = store.apply_entries(&entries);
    assert_eq!(batch.responses, vec![None, Some(vec![]), Some(vec![]), Some(vec![])]);
    match batch.end {
        BatchEnd::Applied(t) => assert!(t.is_empty()),
        _ => panic!("batch must apply"),
    }
    assert_eq!(store.with_fsm().value(4), 7);
    assert_eq!(store.last_applied(), Some((4, 2)));
    assert_eq!(store.group_id(), 4);
}

#[test]
fn membership_entries_replace_the_membership() {
    let mut store: Store = StateMachineStore::new(1, CounterFsm::new());
    let entries = vec![ApplyEntry { log_id: id(3, 2, 9), payload: EntryPayload::Membership(vec![1, 2, 3]) }];
    let batch = store.apply_entries(&entries);
    assert_eq!(batch.responses, vec![None]);
    let (last, membership) = store.applied_state();
    assert_eq!(last, Some(id(3, 2, 9)));
    assert_eq!(membership.log_id, Some(id(3, 2, 9)));
    assert_eq!(membership.config, vec![1, 2, 3]);
}

#[test]
fn triggers_are_reported_only_with_a_callback() {
    let mut plain: Store = StateMachineStore::new(6, CounterFsm::new());
    let entries = vec![normal(2, 10, standby_snapshot_trigger()), normal(2, 11, CounterFsm::encode_add(1, 1))];
    match plain.apply_entries(&entries).end {
        BatchEnd::Applied(t) => assert!(t.is_empty()),
        _ => panic!("batch must apply"),
    }
    let mut standby = with_trigger_and_catalog(6);
    let batch = standby.apply_entries(&entries);
    assert_eq!(batch.responses, vec![None, Some(vec![])]);
    match batch.end {
        BatchEnd::Applied(t) => assert_eq!(t, vec![(6, 10, 2)]),
        _ => panic!("batch must apply"),
    }
    // the trigger never reaches the state machine
    assert_eq!(standby.with_fsm().value(6), 1);
}

#[test]
fn a_refused_command_stops_the_batch_without_triggers() {
    let mut store = with_trigger_and_catalog(1);
    let entries = vec![
        normal(1, 1, standby_snapshot_trigger()),
        normal(1, 2, b"not-json".to_vec()),
        normal(1, 3, CounterFsm::encode_add(9, 9)),
    ];
    let batch = store.apply_entries(&entries);
    assert_eq!(batch.responses, vec![None]);
    match batch.end {
        BatchEnd::Failed(m) => assert!(m.starts_with("decode: ")),
        _ => panic!("batch must fail"),
    }
    assert_eq!(store.last_applied(), Some((2, 1)));
    assert_eq!(store.with_fsm().value(1), 0);
}

#[test]
fn an_overflowing_command_is_flagged() {
    let mut store: Store = StateMachineStore::new(1, CounterFsm::new());
    let entries = vec![normal(1, 1, CounterFsm::encode_add(i64::MAX, 1)), normal(1, 2, CounterFsm::encode_add(1, 2))];
    let batch = store.apply_entries(&entries);
    assert_eq!(batch.responses.len(), 1);
    match batch.end {
        BatchEnd::Overflow(i) => assert_eq!(i, 2),
        _ => panic!("overflow must be flagged"),
    }
    assert_eq!(store.last_applied(), Some((1, 1)));
}

#[test]
fn hot_build_names_snapshot_after_last_applied() {
    let mut store: Store = StateMachineStore::new(2, CounterFsm::new());
    match store.build_snapshot() {
        Ok(SnapshotSource::Ready(s)) => {
            assert_eq!(s.meta.snapshot_id, "--1");
            assert_eq!(s.meta.last_log_id, None);
        },
        _ => panic!("hot build must succeed"),
    }
    let entries = vec![normal(3, 7, CounterFsm::encode_add(4, 1))];
    store.apply_entries(&entries);
    match store.build_snapshot() {
        Ok(SnapshotSource::Ready(s)) => {
            assert_eq!(s.meta.snapshot_id, "T3-N1-7-2");
            assert_eq!(s.meta.last_log_id, Some(id(3, 1, 7)));
            let mut other = CounterFsm::new();
            assert!(other.restore(2, &s.data).is_ok());
            assert_eq!(other.value(2), 4);
        },
        _ => panic!("hot build must succeed"),
    }
    assert_eq!(store.snapshots_built(), 2);
    match store.current_snapshot() {
        Some(s) => assert_eq!(s.meta.snapshot_id, "T3-N1-7-2"),
        None => panic!("built snapshot must be current"),
    }
}

#[test]
fn offload_mode_serves_current_or_catalog() {
    let mut store = with_trigger_and_catalog(0);
    match store.build_snapshot() {
        Ok(SnapshotSource::FromCatalog) => {},
        _ => panic!("nothing held: the catalog must serve"),
    }
    match catalog_or_refuse(None) {
        Err(m) => assert_eq!(m, "no catalog/installed snapshot available (StandbyOffload; hot build disabled)"),
        Ok(_) => panic!("nothing to serve"),
    }
    let entry = CatalogEntry { group: 0, last_index: 5, last_term: 2, snapshot_id: "5-2".to_string() };
    let from_catalog = store.snapshot_from_catalog(Some(entry), Some(vec![1, 2]));
    match from_catalog {
        Some(s) => {
            assert_eq!(s.meta.last_log_id, Some(id(2, 0, 5)));
            assert_eq!(s.meta.snapshot_id, "5-2");
            assert_eq!(s.data, vec![1, 2]);
        },
        None => panic!("catalog entry must be served"),
    }
    assert!(store.snapshot_from_catalog(None, Some(vec![1])).is_none());
    let no_catalog: Store = StateMachineStore::new(0, CounterFsm::new());
    let entry = CatalogEntry { group: 0, last_index: 5, last_term: 2, snapshot_id: "5-2".to_string() };
    assert!(no_catalog.snapshot_from_catalog(Some(entry), Some(vec![1])).is_none());
}

#[test]
fn installing_a_snapshot_moves_the_watermark() {
    let mut source: Store = StateMachineStore::new(3, CounterFsm::new());
    source.apply_entries(&vec![normal(4, 20, CounterFsm::encode_add(11, 5))]);
    let snap = match source.build_snapshot() {
        Ok(SnapshotSource::Ready(s)) => s,
        _ => panic!("hot build must succeed"),
    };
    let mut target = with_trigger_and_catalog(3);
    let meta = SnapshotMeta {
        last_log_id: snap.meta.last_log_id,
        last_membership: StoredMembership { log_id: Some(id(1, 1, 1)), config: vec![7] },
        snapshot_id: snap.meta.snapshot_id.clone(),
    };
    match target.install_snapshot(meta, snap.data.clone()) {
        Ok(Some(w)) => {
            assert_eq!((w.group, w.last_index, w.last_term), (3, 20, 4));
            assert_eq!(w.snapshot_id, "T4-N1-20-1");
            assert_eq!(w.data, snap.data);
        },
        _ => panic!("install must succeed and ask for a catalog write"),
    }
    assert_eq!(target.last_applied(), Some((20, 4)));
    assert_eq!(target.with_fsm().value(3), 11);
    assert_eq!(target.applied_state().1.config, vec![7]);
    // the idempotency keys came along
    target.apply_entries(&vec![normal(4, 21, CounterFsm::encode_add(11, 5))]);
    assert_eq!(target.with_fsm().value(3), 11);
}

#[test]
fn installing_garbage_fails_and_keeps_the_watermark() {
    let mut store: Store = StateMachineStore::new(3, CounterFsm::new());
    store.apply_entries(&vec![normal(1, 1, CounterFsm::encode_add(1, 1))]);
    let meta = SnapshotMeta { last_log_id: Some(id(9, 9, 99)), last_membership: StoredMembership::empty(), snapshot_id: "x".to_string() };
    match store.install_snapshot(meta, b"garbage".to_vec()) {
        Err(m) => assert!(m.starts_with("decode: ")),
        Ok(_) => panic!("garbage must fail"),
    }
    assert_eq!(store.last_applied(), Some((1, 1)));
    assert!(store.current_snapshot().is_none());
}

#[test]
fn durable_install_keeps_membership_and_names_by_position() {
    let mut store = with_trigger_and_catalog(8);
    store.apply_entries(&vec![ApplyEntry { log_id: id(1, 1, 1), payload: EntryPayload::Membership(vec![4]) }]);
    let mut fsm = CounterFsm::new();
    assert!(fsm.apply(8, 1, &CounterFsm::encode_add(30, 3)).is_ok());
    let bytes = match fsm.snapshot(8) {
        Ok(b) => b,
        Err(_) => panic!("snapshot"),
    };
    match store.install_durable_snapshot(40, 6, true, bytes.clone()) {
        Ok(Some(w)) => {
            assert_eq!(w.snapshot_id, "40-6");
            assert_eq!((w.last_index, w.last_term), (40, 6));
        },
        _ => panic!("durable install must succeed"),
    }
    assert_eq!(store.last_applied(), Some((40, 6)));
    assert_eq!(store.with_fsm().value(8), 30);
    let current = store.current_snapshot().expect("current");
    assert_eq!(current.meta.last_log_id, Some(id(6, 0, 40)));
    assert_eq!(current.meta.last_membership.config, vec![4]);
    match store.build_snapshot() {
        Ok(SnapshotSource::Ready(s)) => assert_eq!(s.meta.snapshot_id, "40-6"),
        _ => panic!("offload serves the installed snapshot"),
    }
}

#[test]
fn standby_snapshot_is_advertised_locally() {
    let mut store = with_trigger_and_catalog(2);
    store.apply_entries(&vec![normal(1, 1, CounterFsm::encode_add(3, 1))]);
    let data = match store.standby_snapshot_data(2) {
        Ok(d) => d,
        Err(_) => panic!("snapshot"),
    };
    store.record_standby_snapshot(1, 1, "1-1".to_string(), data.clone());
    let current = store.current_snapshot().expect("current");
    assert_eq!(current.meta.snapshot_id, "1-1");
    assert_eq!(current.data, data);
    assert_eq!(store.catalog(), Some(&"catalog"));
    assert_eq!(store.on_standby_trigger(), Some(&1u8));
}

#[test]
fn batches_compose() {
    let a = vec![normal(1, 1, CounterFsm::encode_add(2, 1)), ApplyEntry { log_id: id(1, 1, 2), payload: EntryPayload::Blank }];
    let b = vec![normal(2, 3, CounterFsm::encode_add(5, 2)), normal(2, 4, CounterFsm::encode_add(5, 2))];
    let mut split: Store = StateMachineStore::new(1, CounterFsm::new());
    let r1 = split.apply_entries(&a);
    let r2 = split.apply_entries(&b);
    let mut whole: Store = StateMachineStore::new(1, CounterFsm::new());
    let all: Vec<ApplyEntry> = vec![
        normal(1, 1, CounterFsm::encode_add(2, 1)),
        ApplyEntry { log_id: id(1, 1, 2), payload: EntryPayload::Blank },
        normal(2, 3, CounterFsm::encode_add(5, 2)),
        normal(2, 4, CounterFsm::encode_add(5, 2)),
    ];
    let r = whole.apply_entries(&all);
    let mut joined = r1.responses.clone();
    joined.extend(r2.responses.clone());
    assert_eq!(r.responses, joined);
    assert_eq!(split.with_fsm().value(1), whole.with_fsm().value(1));
    assert_eq!(whole.with_fsm().value(1), 7);
    assert_eq!(split.last_applied(), whole.last_applied());
    assert_eq!(whole.last_applied(), Some((4, 2)));
}

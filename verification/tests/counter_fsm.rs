use multiraft::counter_fsm::CounterFsm;
use multiraft::fsm::StateMachine;

#[test]
fn apply_increments_and_is_idempotent() {
    let mut fsm = CounterFsm::new();
    let g = 1u64;
    let cmd = CounterFsm::encode_add(10, /*idem=*/ 42);
    assert!(fsm.apply(g, 1, &cmd).is_ok());
    assert!(fsm.apply(g, 2, &cmd).is_ok()); // same idem key
    assert_eq!(fsm.value(g), 10);

    let cmd2 = CounterFsm::encode_add(5, 43);
    assert!(fsm.apply(g, 3, &cmd2).is_ok());
    assert_eq!(fsm.value(g), 15);
}

#[test]
fn snapshot_restore_roundtrip() {
    let mut fsm = CounterFsm::new();
    assert!(fsm.apply(7, 1, &CounterFsm::encode_add(3, 1)).is_ok());
    let snap = match fsm.snapshot(7) {
        Ok(s) => s,
        Err(e) => panic!("snapshot failed: {}", e.message()),
    };
    let mut fsm2 = CounterFsm::new();
    assert!(fsm2.restore(7, &snap).is_ok());
    assert_eq!(fsm2.value(7), 3);
}

#[test]
fn multi_group_isolation() {
    let mut fsm = CounterFsm::new();
    assert!(fsm.apply(1, 1, &CounterFsm::encode_add(10, 1)).is_ok());
    assert!(fsm.apply(2, 1, &CounterFsm::encode_add(7, 1)).is_ok());
    assert_eq!(fsm.value(1), 10);
    assert_eq!(fsm.value(2), 7);

    assert!(fsm.apply(1, 2, &CounterFsm::encode_add(5, 2)).is_ok());
    assert_eq!(fsm.value(1), 15);
    assert_eq!(fsm.value(2), 7);
}

#[test]
fn bad_payload_returns_decode_error() {
    let mut fsm = CounterFsm::new();
    let err = match fsm.apply(1, 1, b"not-json") {
        Ok(_) => panic!("invalid payload must fail"),
        Err(e) => e,
    };
    let msg = err.message();
    assert!(msg.contains("decode"), "expected decode error, got: {msg}");
}

#[test]
fn snapshot_restore_preserves_idempotency() {
    let mut fsm = CounterFsm::new();
    let g = 9u64;
    let cmd = CounterFsm::encode_add(10, /*idem=*/ 42);
    assert!(fsm.apply(g, 1, &cmd).is_ok());
    assert_eq!(fsm.value(g), 10);

    let snap = match fsm.snapshot(g) {
        Ok(s) => s,
        Err(e) => panic!("snapshot failed: {}", e.message()),
    };
    let mut restored = CounterFsm::new();
    assert!(restored.restore(g, &snap).is_ok());
    assert_eq!(restored.value(g), 10);

    // Same idempotency key must not double-apply after restore.
    assert!(restored.apply(g, 2, &cmd).is_ok());
    assert_eq!(restored.value(g), 10);
}

#[test]
fn encode_add_writes_canonical_json() {
    assert_eq!(CounterFsm::encode_add(10, 42), b"{\"idem\":42,\"delta\":10}".to_vec());
    assert_eq!(CounterFsm::encode_add(-5, 0), b"{\"idem\":0,\"delta\":-5}".to_vec());
    assert_eq!(
        CounterFsm::encode_add(i64::MIN, u64::MAX),
        b"{\"idem\":18446744073709551615,\"delta\":-9223372036854775808}".to_vec()
    );
}

#[test]
fn encoded_commands_match_serde_json() {
    let cmd = CounterFsm::encode_add(-7, 99);
    let v: serde_json::Value = serde_json::from_slice(&cmd).unwrap();
    assert_eq!(v["idem"], serde_json::Value::from(99u64));
    assert_eq!(v["delta"], serde_json::Value::from(-7i64));
}

#[test]
fn decode_accepts_reordered_and_extra_integer_fields() {
    let mut fsm = CounterFsm::new();
    assert!(fsm.apply(3, 1, b"{\"delta\": 4, \"idem\": 8, \"extra\": 1}").is_ok());
    assert_eq!(fsm.value(3), 4);
}

#[test]
fn decode_error_names_missing_field() {
    let mut fsm = CounterFsm::new();
    let err = match fsm.apply(1, 1, b"{\"idem\": 1}") {
        Ok(_) => panic!("missing delta must fail"),
        Err(e) => e,
    };
    assert_eq!(err.message(), "decode: missing field `delta`");
    let err = match fsm.apply(1, 1, b"{\"delta\": 1}") {
        Ok(_) => panic!("missing idem must fail"),
        Err(e) => e,
    };
    assert_eq!(err.message(), "decode: missing field `idem`");
    assert_eq!(fsm.value(1), 0);
}

#[test]
fn decode_error_on_out_of_range_values() {
    let mut fsm = CounterFsm::new();
    let err = match fsm.apply(1, 1, b"{\"idem\": -1, \"delta\": 1}") {
        Ok(_) => panic!("negative idem must fail"),
        Err(e) => e,
    };
    assert_eq!(err.message(), "decode: invalid value for field `idem`");
    let err = match fsm.apply(1, 1, b"{\"idem\": 1, \"delta\": 9223372036854775808}") {
        Ok(_) => panic!("delta above i64 must fail"),
        Err(e) => e,
    };
    assert_eq!(err.message(), "decode: invalid value for field `delta`");
}

#[test]
fn restore_rejects_garbage_and_keeps_state() {
    let mut fsm = CounterFsm::new();
    assert!(fsm.apply(1, 1, &CounterFsm::encode_add(2, 1)).is_ok());
    let err = match fsm.restore(1, b"garbage") {
        Ok(()) => panic!("garbage snapshot must fail"),
        Err(e) => e,
    };
    assert!(err.message().starts_with("decode: "));
    assert_eq!(fsm.value(1), 2);
}

#[test]
fn snapshot_bytes_are_value_and_keys() {
    let mut fsm = CounterFsm::new();
    assert!(fsm.apply(4, 1, &CounterFsm::encode_add(6, 11)).is_ok());
    let snap = match fsm.snapshot(4) {
        Ok(s) => s,
        Err(e) => panic!("snapshot failed: {}", e.message()),
    };
    let (v, keys): (i64, Vec<u64>) = serde_json::from_slice(&snap).unwrap();
    assert_eq!(v, 6);
    assert_eq!(keys, vec![11]);
    assert_eq!(snap, b"[6,[11]]".to_vec());
    let empty = match fsm.snapshot(5) {
        Ok(s) => s,
        Err(e) => panic!("snapshot failed: {}", e.message()),
    };
    assert_eq!(empty, b"[0,[]]".to_vec());
}

#[test]
fn apply_defined_flags_overflow_only_for_new_keys() {
    let mut fsm = CounterFsm::new();
    assert!(fsm.apply(1, 1, &CounterFsm::encode_add(i64::MAX, 1)).is_ok());
    assert!(!fsm.apply_defined(1, 2, &CounterFsm::encode_add(1, 2)));
    assert!(fsm.apply_defined(1, 2, &CounterFsm::encode_add(1, 1)));
    assert!(fsm.apply_defined(1, 2, b"not-json"));
    assert!(fsm.apply_defined(2, 2, &CounterFsm::encode_add(1, 2)));
}

fn decoded(data: &[u8]) -> Result<(u64, i64), String> {
    multiraft::counter_fsm::decode_cmd(data)
}

#[test]
fn decode_refuses_repeated_fields() {
    assert_eq!(decoded(b"{\"idem\":1,\"idem\":2,\"delta\":3}"), Err("duplicate field `idem`".to_string()));
    assert_eq!(decoded(b"{\"delta\":1,\"idem\":2,\"delta\":3}"), Err("duplicate field `delta`".to_string()));
    // an escaped name is the same field
    assert_eq!(decoded(b"{\"idem\":1,\"id\\u0065m\":2,\"delta\":3}"), Err("duplicate field `idem`".to_string()));
    let mut fsm = CounterFsm::new();
    let err = match fsm.apply(1, 1, b"{\"idem\":1,\"idem\":2,\"delta\":3}") {
        Ok(_) => panic!("a repeated field must be refused"),
        Err(e) => e,
    };
    assert_eq!(err.message(), "decode: duplicate field `idem`");
    assert_eq!(fsm.value(1), 0);
}

#[test]
fn decode_skips_unknown_members_of_any_shape() {
    assert_eq!(
        decoded(b"{\"note\":\"hi \\\"there\\\" \\u00e9\",\"idem\":5,\"x\":[1,{\"y\":null},true,-2.5e3],\"delta\":-3,\"note\":{}}"),
        Ok((5, -3))
    );
    assert_eq!(decoded(b" {\"idem\" : 1 , \"delta\" : 2 } \n"), Ok((1, 2)));
    assert_eq!(decoded(b"{\"id\\u0065m\":7,\"delta\":1}"), Ok((7, 1)));
}

#[test]
fn decode_accepts_the_array_form() {
    assert_eq!(decoded(b"[4, -9]"), Ok((4, -9)));
    assert_eq!(decoded(b"[]"), Err("missing field `idem`".to_string()));
    assert_eq!(decoded(b"[4]"), Err("missing field `delta`".to_string()));
    assert_eq!(decoded(b"[4,]"), Err("malformed JSON".to_string()));
    assert_eq!(decoded(b"[4,5,6]"), Err("malformed JSON".to_string()));
}

#[test]
fn decode_integer_rules() {
    assert_eq!(decoded(b"{\"idem\":18446744073709551615,\"delta\":-9223372036854775808}"), Ok((u64::MAX, i64::MIN)));
    assert_eq!(decoded(b"{\"idem\":18446744073709551616,\"delta\":1}"), Err("invalid value for field `idem`".to_string()));
    assert_eq!(decoded(b"{\"idem\":1,\"delta\":-0}"), Err("invalid value for field `delta`".to_string()));
    assert_eq!(decoded(b"{\"idem\":1,\"delta\":1.0}"), Err("invalid value for field `delta`".to_string()));
    assert_eq!(decoded(b"{\"idem\":01,\"delta\":1}"), Err("invalid value for field `idem`".to_string()));
    assert_eq!(decoded(b"{\"idem\":\"1\",\"delta\":1}"), Err("invalid value for field `idem`".to_string()));
}

#[test]
fn decode_refuses_malformed_text() {
    for bad in [
        &b"{\"idem\":1,\"delta\":2}x"[..],
        b"{\"idem\":1,\"delta\":2,}",
        b"{\"idem\":1 \"delta\":2}",
        b"{\"idem\":1,\"delta\":2",
        b"{\"x\":[1,],\"idem\":1,\"delta\":2}",
        b"{\"\\ud800\":1,\"idem\":1,\"delta\":2}",
        b"{\"\xff\":1,\"idem\":1,\"delta\":2}",
        b"{\"x\":nul,\"idem\":1,\"delta\":2}",
        b"\"idem\"",
        b"",
    ] {
        assert_eq!(decoded(bad), Err("malformed JSON".to_string()), "{:?}", bad);
    }
}

#[test]
fn encoded_add_is_compact_json_and_reads_back() {
    assert_eq!(CounterFsm::encode_add(-7, 99), b"{\"idem\":99,\"delta\":-7}".to_vec());
    assert_eq!(CounterFsm::encode_add(0, 0), b"{\"idem\":0,\"delta\":0}".to_vec());
    let min = CounterFsm::encode_add(i64::MIN, u64::MAX);
    assert_eq!(decoded(&min), Ok((u64::MAX, i64::MIN)));
    let mut fsm = CounterFsm::new();
    assert!(fsm.apply(2, 1, &CounterFsm::encode_add(-4, 5)).is_ok());
    assert_eq!(fsm.value(2), -4);
}

#[test]
fn value_is_sum_of_first_uses() {
    let mut fsm = CounterFsm::new();
    assert!(fsm.apply(1, 1, &CounterFsm::encode_add(5, 1)).is_ok());
    assert!(fsm.apply(1, 2, &CounterFsm::encode_add(-2, 2)).is_ok());
    assert!(fsm.apply(1, 3, &CounterFsm::encode_add(100, 1)).is_ok());
    assert!(fsm.apply(1, 4, b"{\"idem\":9}").is_err());
    assert!(fsm.apply(2, 5, &CounterFsm::encode_add(7, 3)).is_ok());
    assert!(fsm.apply(1, 6, &CounterFsm::encode_add(1, 3)).is_ok());
    assert_eq!(fsm.value(1), 4);
    assert_eq!(fsm.value(2), 7);
}

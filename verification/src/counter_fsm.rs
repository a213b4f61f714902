//! A per-group counter with idempotent increments, the demo state machine.
//!
//! A command carries a delta and an idempotency key; a key already seen in a
//! group is applied at most once there, also across snapshot and restore.

use std::collections::HashMap;
use std::collections::HashSet;
use vstd::prelude::*;
use vstd::std_specs::iter::IteratorSpec;

use crate::fsm::ApplyOut;
use crate::fsm::StateMachine;
use crate::cmd_json::cmd_text;
use crate::cmd_json::write_cmd;
use crate::json::serde_json_counter_pair_decoded;
use crate::cmd_json::read_cmd;
use crate::cmd_json::read_counter_cmd;
use crate::cmd_json::law_written_cmd_reads_back;

verus! {

/// Why a payload could not be applied or restored.
#[derive(Debug)]
pub enum CounterError {
    /// The payload was not valid for the counter; carries the parser's text.
    Decode(String),
}

/// The text of a counter error: `decode: <detail>`.
pub open spec fn counter_error_text(e: CounterError) -> Seq<char> {
    match e {
        CounterError::Decode(m) => "decode: "@ + m@,
    }
}

impl CounterError {
    /// The error's text, as its `Display` renders it.
    pub fn message(&self) -> (s: String)
        ensures
            s@ == counter_error_text(*self),
    {
        match self {
            CounterError::Decode(m) => {
                let s = String::from_str("decode: ");
                s.concat(m.as_str())
            },
        }
    }
}

/// Abstract state of a [`CounterFsm`]: per-group values and per-group sets of
/// idempotency keys already applied.
pub struct CounterState {
    pub values: Map<u64, i64>,
    pub seen: Map<u64, Set<u64>>,
}

/// The value of `group`, zero when the group has none.
pub open spec fn value_of(s: CounterState, group: u64) -> i64 {
    if s.values.contains_key(group) {
        s.values[group]
    } else {
        0
    }
}

/// The keys already applied in `group`.
pub open spec fn seen_of(s: CounterState, group: u64) -> Set<u64> {
    if s.seen.contains_key(group) {
        s.seen[group]
    } else {
        Set::empty()
    }
}

/// Applying the increment `(idem, delta)` to `group`: the key is recorded,
/// and the value moves by `delta` only when the key is new.
pub open spec fn counter_step(s: CounterState, group: u64, idem: u64, delta: i64) -> CounterState {
    let seen = s.seen.insert(group, seen_of(s, group).insert(idem));
    if seen_of(s, group).contains(idem) {
        CounterState { values: s.values, seen }
    } else {
        CounterState { values: s.values.insert(group, (value_of(s, group) + delta) as i64), seen }
    }
}

/// Decoding a counter command: the JSON record `{"idem": <u64>, "delta":
/// <i64>}` (or the array `[idem, delta]`), read as [`read_cmd`] states.
pub open spec fn decode_counter_cmd(data: Seq<u8>) -> Result<(u64, i64), Seq<char>> {
    read_cmd(data)
}

/// Whether applying `data` to `group` stays within the `i64` range.
pub open spec fn counter_apply_defined(s: CounterState, group: u64, data: Seq<u8>) -> bool {
    match decode_counter_cmd(data) {
        Ok((idem, delta)) => seen_of(s, group).contains(idem) || (i64::MIN <= value_of(s, group)
            + delta <= i64::MAX),
        Err(_) => true,
    }
}

/// Restoring `group` from snapshot bytes `(value, seen)`.
pub open spec fn counter_restore(s: CounterState, group: u64, snapshot: Seq<u8>) -> (CounterState, Result<(), Seq<char>>) {
    match serde_json_counter_pair_decoded(snapshot) {
        Err(m) => (s, Err("decode: "@ + m)),
        Ok((v, keys)) => (
            CounterState {
                values: s.values.insert(group, v),
                seen: s.seen.insert(group, keys.to_set()),
            },
            Ok(()),
        ),
    }
}

/// Snapshot bytes of `group`: they decode to the group's value and to a list
/// of its applied keys without repetition.
pub open spec fn counter_snapshot_ok(s: CounterState, group: u64, r: Result<Seq<u8>, Seq<char>>) -> bool {
    exists|keys: Seq<u64>|
        {
            &&& keys.no_duplicates()
            &&& keys.to_set() == seen_of(s, group)
            &&& r matches Ok(b) && serde_json_counter_pair_decoded(b) == Ok::<
                (i64, Seq<u64>),
                Seq<char>,
            >((value_of(s, group), keys))
        }
}

/// Per-group counters with idempotency keys.
pub struct CounterFsm {
    values: HashMap<u64, i64>,
    seen: HashMap<u64, HashSet<u64>>,
}

impl View for CounterFsm {
    type V = CounterState;

    closed spec fn view(&self) -> CounterState {
        CounterState {
            values: self.values@,
            seen: self.seen@.map_values(|s: HashSet<u64>| s@),
        }
    }
}

/// Decodes a counter command payload.
pub fn decode_cmd(data: &[u8]) -> (r: Result<(u64, i64), String>)
    ensures
        match r {
            Ok(c) => decode_counter_cmd(data@) == Ok::<(u64, i64), Seq<char>>(c),
            Err(m) => decode_counter_cmd(data@) == Err::<(u64, i64), Seq<char>>(m@),
        },
        forall|idem: u64, delta: i64|
            data@ == #[trigger] cmd_text(idem, delta) ==> r == Ok::<(u64, i64), String>(
                (idem, delta),
            ),
{
    proof {
        assert forall|idem: u64, delta: i64| data@ == #[trigger] cmd_text(idem, delta) implies read_cmd(
            data@,
        ) == Ok::<(u64, i64), Seq<char>>((idem, delta)) by {
            law_written_cmd_reads_back(idem, delta);
        }
    }
    read_counter_cmd(data)
}

/// What an increment payload does: applying the bytes of
/// `encode_add(delta, idem)` to a group is exactly the increment
/// `(idem, delta)` there.
pub proof fn law_apply_encoded_add(s: CounterState, group: u64, index: u64, idem: u64, delta: i64)
    ensures
        decode_counter_cmd(cmd_text(idem, delta)) == Ok::<(u64, i64), Seq<char>>((idem, delta)),
        <CounterFsm as StateMachine>::spec_apply(s, group, index, cmd_text(idem, delta)) == (
            counter_step(s, group, idem, delta),
            Ok::<Seq<u8>, Seq<char>>(Seq::empty()),
        ),
{
    law_written_cmd_reads_back(idem, delta);
}

/// An increment with a new key moves the group's value by its delta.
pub proof fn law_new_key_adds_delta(s: CounterState, group: u64, idem: u64, delta: i64)
    requires
        !seen_of(s, group).contains(idem),
        i64::MIN <= value_of(s, group) + delta <= i64::MAX,
    ensures
        value_of(counter_step(s, group, idem, delta), group) == value_of(s, group) + delta,
        seen_of(counter_step(s, group, idem, delta), group) == seen_of(s, group).insert(idem),
{
}

/// Idempotency: a second increment with a key already applied in the group
/// changes nothing, whatever its delta.
pub proof fn law_repeated_key_is_noop(s: CounterState, group: u64, idem: u64, d1: i64, d2: i64)
    ensures
        counter_step(counter_step(s, group, idem, d1), group, idem, d2) == counter_step(
            s,
            group,
            idem,
            d1,
        ),
{
    let s1 = counter_step(s, group, idem, d1);
    assert(seen_of(s1, group).contains(idem));
    assert(seen_of(s1, group).insert(idem) =~= seen_of(s1, group));
    assert(s1.seen.insert(group, seen_of(s1, group).insert(idem)) =~= s1.seen);
}

/// Groups are isolated: an increment in one group leaves every other
/// group's value and keys unchanged.
pub proof fn law_groups_isolated(s: CounterState, group: u64, other: u64, idem: u64, delta: i64)
    requires
        other != group,
    ensures
        value_of(counter_step(s, group, idem, delta), other) == value_of(s, other),
        seen_of(counter_step(s, group, idem, delta), other) == seen_of(s, other),
{
}

/// Restoring a group from its snapshot gives back the group's value and
/// applied keys, whatever state the restoring counter was in.
pub proof fn law_snapshot_restore_roundtrip(
    s: CounterState,
    t: CounterState,
    group: u64,
    bytes: Seq<u8>,
)
    requires
        counter_snapshot_ok(s, group, Ok(bytes)),
    ensures
        counter_restore(t, group, bytes).1 is Ok,
        value_of(counter_restore(t, group, bytes).0, group) == value_of(s, group),
        seen_of(counter_restore(t, group, bytes).0, group) == seen_of(s, group),
{
    let keys = choose|keys: Seq<u64>|
        {
            &&& keys.no_duplicates()
            &&& keys.to_set() == seen_of(s, group)
            &&& Ok::<Seq<u8>, Seq<char>>(bytes) matches Ok(b) && serde_json_counter_pair_decoded(b)
                == Ok::<(i64, Seq<u64>), Seq<char>>((value_of(s, group), keys))
        };
    assert(serde_json_counter_pair_decoded(bytes) == Ok::<(i64, Seq<u64>), Seq<char>>(
        (value_of(s, group), keys),
    ));
}

/// Restoring a group touches that group only: every other group keeps its
/// value and its applied keys, whether the snapshot decodes or not; a
/// refused snapshot changes nothing at all.
pub proof fn law_restore_leaves_other_groups(s: CounterState, group: u64, other: u64, bytes: Seq<u8>)
    requires
        other != group,
    ensures
        value_of(counter_restore(s, group, bytes).0, other) == value_of(s, other),
        seen_of(counter_restore(s, group, bytes).0, other) == seen_of(s, other),
        counter_restore(s, group, bytes).1 is Err ==> counter_restore(s, group, bytes).0 == s,
        serde_json_counter_pair_decoded(bytes) matches Ok((v, keys)) ==> counter_restore(
            s,
            group,
            bytes,
        ).1 is Ok && value_of(counter_restore(s, group, bytes).0, group) == v && seen_of(
            counter_restore(s, group, bytes).0,
            group,
        ) == keys.to_set(),
{
}

/// Idempotency survives snapshot and restore: after restoring a snapshot,
/// an increment whose key had been applied before the snapshot changes
/// nothing.
pub proof fn law_restore_keeps_idempotency(
    s: CounterState,
    t: CounterState,
    group: u64,
    bytes: Seq<u8>,
    idem: u64,
    delta: i64,
)
    requires
        counter_snapshot_ok(s, group, Ok(bytes)),
        seen_of(s, group).contains(idem),
    ensures
        value_of(counter_step(counter_restore(t, group, bytes).0, group, idem, delta), group)
            == value_of(s, group),
        counter_step(counter_restore(t, group, bytes).0, group, idem, delta).values
            == counter_restore(t, group, bytes).0.values,
{
    law_snapshot_restore_roundtrip(s, t, group, bytes);
}

/// Applying a list of `(group, payload)` commands in order, from `s`.
pub open spec fn run_commands(s: CounterState, cmds: Seq<(u64, Seq<u8>)>) -> CounterState
    decreases cmds.len(),
{
    if cmds.len() == 0 {
        s
    } else {
        let pre = run_commands(s, cmds.drop_last());
        let (group, data) = cmds.last();
        match decode_counter_cmd(data) {
            Ok((idem, delta)) => counter_step(pre, group, idem, delta),
            Err(_) => pre,
        }
    }
}

/// The keys of the commands for `group` that decode.
pub open spec fn command_keys(cmds: Seq<(u64, Seq<u8>)>, group: u64) -> Set<u64>
    decreases cmds.len(),
{
    if cmds.len() == 0 {
        Set::empty()
    } else {
        let pre = command_keys(cmds.drop_last(), group);
        match decode_counter_cmd(cmds.last().1) {
            Ok((idem, _)) => if cmds.last().0 == group {
                pre.insert(idem)
            } else {
                pre
            },
            Err(_) => pre,
        }
    }
}

/// The sum of the deltas of the commands for `group` whose key had not
/// occurred before in that group.
pub open spec fn first_use_sum(cmds: Seq<(u64, Seq<u8>)>, group: u64) -> int
    decreases cmds.len(),
{
    if cmds.len() == 0 {
        0
    } else {
        let pre = cmds.drop_last();
        first_use_sum(pre, group) + match decode_counter_cmd(cmds.last().1) {
            Ok((idem, delta)) => if cmds.last().0 == group && !command_keys(pre, group).contains(
                idem,
            ) {
                delta as int
            } else {
                0
            },
            Err(_) => 0,
        }
    }
}

/// The empty counter.
pub open spec fn empty_counter() -> CounterState {
    CounterState { values: Map::empty(), seen: Map::empty() }
}

/// A counter that only ever applied commands (no restore) holds, in each
/// group, the sum of the deltas of the first command with each key there;
/// repeated keys, undecodable payloads and other groups add nothing. Its
/// applied keys are the keys of the group's commands. This holds as long as
/// no step leaves the `i64` range.
pub proof fn law_value_is_sum_of_first_uses(cmds: Seq<(u64, Seq<u8>)>, group: u64)
    requires
        forall|i: int|
            0 <= i < cmds.len() ==> counter_apply_defined(
                #[trigger] run_commands(empty_counter(), cmds.take(i)),
                cmds[i].0,
                cmds[i].1,
            ),
    ensures
        value_of(run_commands(empty_counter(), cmds), group) == first_use_sum(cmds, group),
        seen_of(run_commands(empty_counter(), cmds), group) == command_keys(cmds, group),
    decreases cmds.len(),
{
    if cmds.len() > 0 {
        let pre = cmds.drop_last();
        assert forall|i: int| 0 <= i < pre.len() implies counter_apply_defined(
            #[trigger] run_commands(empty_counter(), pre.take(i)),
            pre[i].0,
            pre[i].1,
        ) by {
            assert(pre.take(i) =~= cmds.take(i));
            assert(run_commands(empty_counter(), cmds.take(i)) == run_commands(
                empty_counter(),
                pre.take(i),
            ));
        }
        law_value_is_sum_of_first_uses(pre, group);
        let last = cmds.len() - 1;
        assert(cmds.take(last) =~= pre);
        assert(counter_apply_defined(run_commands(empty_counter(), cmds.take(last)), cmds[last].0, cmds[last].1));
        let s = run_commands(empty_counter(), pre);
        match decode_counter_cmd(cmds.last().1) {
            Ok((idem, delta)) => {
                if cmds.last().0 == group {
                    if seen_of(s, group).contains(idem) {
                        assert(seen_of(s, group).insert(idem) =~= seen_of(s, group));
                    }
                } else {
                    law_groups_isolated(s, cmds.last().0, group, idem, delta);
                }
            },
            Err(_) => {},
        }
    }
}

impl CounterFsm {
    /// An empty counter: every group reads zero and has applied nothing.
    pub fn new() -> (r: CounterFsm)
        ensures
            r@.values == Map::<u64, i64>::empty(),
            r@.seen == Map::<u64, Set<u64>>::empty(),
    {
        let r = CounterFsm { values: HashMap::new(), seen: HashMap::new() };
        proof {
            assert(r@.seen =~= Map::<u64, Set<u64>>::empty());
        }
        r
    }

    /// The canonical payload of an increment: `{"idem":<idem>,"delta":<delta>}`,
    /// the compact JSON of the command record.
    pub fn encode_add(delta: i64, idem: u64) -> (r: Vec<u8>)
        ensures
            r@ == cmd_text(idem, delta),
    {
        write_cmd(idem, delta)
    }

    /// The current value of `group` (zero when nothing was applied there).
    pub fn value(&self, group: u64) -> (r: i64)
        ensures
            r == value_of(self@, group),
    {
        match self.values.get(&group) {
            Some(v) => *v,
            None => 0,
        }
    }

    /// Records `idem` in `group` and adds `delta` when the key is new.
    fn step(&mut self, group: u64, idem: u64, delta: i64)
        requires
            seen_of(old(self)@, group).contains(idem) || (i64::MIN <= value_of(old(self)@, group)
                + delta <= i64::MAX),
        ensures
            final(self)@ == counter_step(old(self)@, group, idem, delta),
    {
        let ghost pre = self@;
        let mut set = match self.seen.remove(&group) {
            Some(s) => s,
            None => HashSet::new(),
        };
        assert(set@ == seen_of(pre, group));
        let fresh = set.insert(idem);
        self.seen.insert(group, set);
        if fresh {
            let cur = self.value(group);
            self.values.insert(group, cur + delta);
        }
        proof {
            let post = counter_step(pre, group, idem, delta);
            assert(self@.seen =~= post.seen);
            assert(self@.values =~= post.values);
        }
    }
}

impl StateMachine for CounterFsm {
    type Error = CounterError;

    open spec fn spec_apply_defined(s: CounterState, group: u64, index: u64, data: Seq<u8>) -> bool {
        counter_apply_defined(s, group, data)
    }

    open spec fn spec_apply(s: CounterState, group: u64, index: u64, data: Seq<u8>) -> (CounterState, Result<Seq<u8>, Seq<char>>) {
        match decode_counter_cmd(data) {
            Ok((idem, delta)) => (counter_step(s, group, idem, delta), Ok(Seq::empty())),
            Err(m) => (s, Err("decode: "@ + m)),
        }
    }

    open spec fn spec_snapshot_ok(s: CounterState, group: u64, r: Result<Seq<u8>, Seq<char>>) -> bool {
        counter_snapshot_ok(s, group, r)
    }

    open spec fn spec_restore(s: CounterState, group: u64, snapshot: Seq<u8>) -> (CounterState, Result<(), Seq<char>>) {
        counter_restore(s, group, snapshot)
    }

    open spec fn spec_error_text(e: CounterError) -> Seq<char> {
        counter_error_text(e)
    }

    /// A command that does not decode is always defined; a new key must keep
    /// the group's value within `i64`.
    fn apply_defined(&self, group: u64, index: u64, data: &[u8]) -> (r: bool) {
        match decode_cmd(data) {
            Err(_) => true,
            Ok((idem, delta)) => {
                let seen_before = match self.seen.get(&group) {
                    Some(s) => s.contains(&idem),
                    None => false,
                };
                if seen_before {
                    true
                } else {
                    let cur = self.value(group);
                    !((cur < 0 && delta < i64::MIN - cur) || (cur > 0 && delta > i64::MAX - cur))
                }
            },
        }
    }

    /// Decodes the command and applies it; a key already seen in the group
    /// changes nothing but is still acknowledged.
    fn apply(&mut self, group: u64, index: u64, data: &[u8]) -> (r: Result<ApplyOut, CounterError>) {
        match decode_cmd(data) {
            Err(m) => Err(CounterError::Decode(m)),
            Ok((idem, delta)) => {
                self.step(group, idem, delta);
                Ok(ApplyOut::empty())
            },
        }
    }

    /// The group's value and its applied keys, as `serde_json` bytes of
    /// `(value, keys)`.
    fn snapshot(&self, group: u64) -> (r: Result<Vec<u8>, CounterError>) {
        let v = self.value(group);
        let mut keys: Vec<u64> = Vec::new();
        match self.seen.get(&group) {
            Some(set) => {
                let ghost all = vstd::std_specs::hash::spec_hash_keys_iter(set).remaining();
                for k in it: set.iter()
                    invariant
                        it.seq() == all,
                        keys@ == it.seq().subrange(0, it.index() as int).map_values(|x: &u64| *x),
                {
                    proof {
                        assert(it.seq().subrange(0, it.index() as int + 1).map_values(|x: &u64| *x)
                            =~= keys@.push(*k));
                    }
                    keys.push(*k);
                }
                proof {
                    assert(keys@ =~= all.map_values(|x: &u64| *x));
                    assert(keys@ =~= all.unref());
                    assert(all.unref().to_set() == set@);
                    assert(self@.seen[group] == set@);
                    assert(keys@.to_set() == seen_of(self@, group));
                }
            },
            None => {
                proof {
                    assert(keys@.to_set() =~= Set::<u64>::empty());
                }
            },
        }
        let bytes = crate::json::encode_counter_pair(v, &keys);
        proof {
            assert(keys@.no_duplicates());
        }
        Ok(bytes)
    }

    /// Replaces the group's value and applied keys with the snapshot's.
    fn restore(&mut self, group: u64, snapshot: &[u8]) -> (r: Result<(), CounterError>) {
        let (v, keys) = match crate::json::decode_counter_pair(snapshot) {
            Ok(p) => p,
            Err(m) => return Err(CounterError::Decode(m)),
        };
        let ghost pre = self@;
        let mut set: HashSet<u64> = HashSet::new();
        let mut i: usize = 0;
        while i < keys.len()
            invariant
                i <= keys@.len(),
                set@ == keys@.subrange(0, i as int).to_set(),
            decreases keys@.len() - i,
        {
            let k = keys[i];
            proof {
                let s0 = keys@.subrange(0, i as int);
                let s1 = keys@.subrange(0, i as int + 1);
                assert(s1 =~= s0.push(k));
                assert(s1.to_set() =~= s0.to_set().insert(k)) by {
                    assert forall|x: u64| s1.contains(x) <==> s0.contains(x) || x == k by {
                        if s1.contains(x) {
                            let j = choose|j: int| 0 <= j < s1.len() && s1[j] == x;
                            if j < s0.len() {
                                assert(s0[j] == x);
                            }
                        }
                        if s0.contains(x) {
                            let j = choose|j: int| 0 <= j < s0.len() && s0[j] == x;
                            assert(s1[j] == x);
                        }
                        if x == k {
                            assert(s1[s0.len() as int] == x);
                        }
                    }
                }
            }
            set.insert(k);
            i = i + 1;
        }
        proof {
            assert(keys@.subrange(0, keys@.len() as int) =~= keys@);
        }
        self.values.insert(group, v);
        self.seen.insert(group, set);
        proof {
            assert(self@.seen =~= counter_restore(pre, group, snapshot@).0.seen);
        }
        Ok(())
    }

    fn error_text(e: &CounterError) -> (s: String) {
        e.message()
    }
}

} // verus!

//! The per-group state-machine store: it applies committed log entries to
//! the pluggable [`StateMachine`], tracks the last applied log id and the
//! last membership, and builds, installs and serves snapshots.
//!
//! The store decides; the Raft engine, the snapshot catalog on disk and the
//! standby-trigger callback act on what it returns.

use vstd::prelude::*;

use crate::fsm::StateMachine;
use crate::raft_log::LogId;
use crate::snapshot::durable_snapshot_id;
use crate::snapshot::is_standby_snapshot_trigger;
use crate::snapshot::trigger_magic;
use crate::text::decimal;

verus! {

/// A copy of a byte vector.
fn copy_bytes(v: &Vec<u8>) -> (r: Vec<u8>)
    ensures
        r@ == v@,
{
    let r = v.clone();
    assert(r@ =~= v@);
    r
}

/// The last membership the store applied: the log id of its entry and the
/// encoded membership configuration.
pub struct StoredMembership {
    pub log_id: Option<LogId>,
    pub config: Vec<u8>,
}

/// Abstract membership record.
pub struct MembershipView {
    pub log_id: Option<LogId>,
    pub config: Seq<u8>,
}

impl View for StoredMembership {
    type V = MembershipView;

    open spec fn view(&self) -> MembershipView {
        MembershipView { log_id: self.log_id, config: self.config@ }
    }
}

impl StoredMembership {
    /// No membership applied yet.
    pub fn empty() -> (r: StoredMembership)
        ensures
            r@ == (MembershipView { log_id: None, config: Seq::empty() }),
    {
        StoredMembership { log_id: None, config: Vec::new() }
    }

    /// A copy of this record.
    pub fn duplicate(&self) -> (r: StoredMembership)
        ensures
            r@ == self@,
    {
        StoredMembership { log_id: self.log_id, config: copy_bytes(&self.config) }
    }
}

/// What a snapshot covers: the last log id it includes, the membership in
/// force there, and its id.
pub struct SnapshotMeta {
    pub last_log_id: Option<LogId>,
    pub last_membership: StoredMembership,
    pub snapshot_id: String,
}

/// Abstract snapshot metadata.
pub struct MetaView {
    pub last_log_id: Option<LogId>,
    pub last_membership: MembershipView,
    pub snapshot_id: Seq<char>,
}

impl View for SnapshotMeta {
    type V = MetaView;

    open spec fn view(&self) -> MetaView {
        MetaView {
            last_log_id: self.last_log_id,
            last_membership: self.last_membership@,
            snapshot_id: self.snapshot_id@,
        }
    }
}

impl SnapshotMeta {
    /// A copy of this metadata.
    pub fn duplicate(&self) -> (r: SnapshotMeta)
        ensures
            r@ == self@,
    {
        SnapshotMeta {
            last_log_id: self.last_log_id,
            last_membership: self.last_membership.duplicate(),
            snapshot_id: self.snapshot_id.clone(),
        }
    }
}

/// A snapshot held by the store: its metadata and the state machine bytes.
pub struct StoredSnapshot {
    pub meta: SnapshotMeta,
    pub data: Vec<u8>,
}

/// Abstract stored snapshot.
pub struct SnapshotView {
    pub meta: MetaView,
    pub data: Seq<u8>,
}

impl View for StoredSnapshot {
    type V = SnapshotView;

    open spec fn view(&self) -> SnapshotView {
        SnapshotView { meta: self.meta@, data: self.data@ }
    }
}

impl StoredSnapshot {
    /// A copy of this snapshot.
    pub fn duplicate(&self) -> (r: StoredSnapshot)
        ensures
            r@ == self@,
    {
        StoredSnapshot { meta: self.meta.duplicate(), data: copy_bytes(&self.data) }
    }
}

/// The payload of a committed log entry.
pub enum EntryPayload {
    /// No command (a leader's first entry of its term).
    Blank,
    /// A command for the state machine (or the standby snapshot trigger).
    Normal(Vec<u8>),
    /// A membership change, as its encoded configuration.
    Membership(Vec<u8>),
}

/// Abstract entry payload.
pub enum PayloadView {
    Blank,
    Normal(Seq<u8>),
    Membership(Seq<u8>),
}

/// A committed log entry handed to the store.
pub struct ApplyEntry {
    pub log_id: LogId,
    pub payload: EntryPayload,
}

/// Abstract committed entry.
pub struct EntryView {
    pub log_id: LogId,
    pub payload: PayloadView,
}

impl View for ApplyEntry {
    type V = EntryView;

    open spec fn view(&self) -> EntryView {
        EntryView {
            log_id: self.log_id,
            payload: match self.payload {
                EntryPayload::Blank => PayloadView::Blank,
                EntryPayload::Normal(d) => PayloadView::Normal(d@),
                EntryPayload::Membership(m) => PayloadView::Membership(m@),
            },
        }
    }
}

/// The entries of a batch, abstractly.
pub open spec fn entries_view(v: Seq<ApplyEntry>) -> Seq<EntryView> {
    v.map_values(|e: ApplyEntry| e@)
}

/// Options of a store: whether snapshots may be built from the live state
/// machine (standby offload turns this off), the snapshot catalog and the
/// callback run for standby snapshot triggers.
pub struct SmOptions<C, T> {
    pub allow_hot_build: bool,
    pub catalog: Option<C>,
    pub on_standby_trigger: Option<T>,
}

/// Abstract state of a store.
pub struct StoreView<V> {
    pub group_id: u64,
    pub last_applied: Option<LogId>,
    pub membership: MembershipView,
    pub fsm: V,
    /// How many snapshots were built from the live state machine.
    pub snapshot_idx: u64,
    pub current: Option<SnapshotView>,
    pub allow_hot_build: bool,
    pub has_catalog: bool,
    pub has_trigger: bool,
}

/// The state-machine store of one group. `C` is the snapshot catalog and
/// `T` the standby-trigger callback; the store only holds them.
pub struct StateMachineStore<S, C, T> {
    group_id: u64,
    last_applied_log: Option<LogId>,
    last_membership: StoredMembership,
    fsm: S,
    snapshot_idx: u64,
    current_snapshot: Option<StoredSnapshot>,
    allow_hot_build: bool,
    catalog: Option<C>,
    on_standby_trigger: Option<T>,
}

impl<S: StateMachine, C, T> View for StateMachineStore<S, C, T> {
    type V = StoreView<S::V>;

    closed spec fn view(&self) -> StoreView<S::V> {
        StoreView {
            group_id: self.group_id,
            last_applied: self.last_applied_log,
            membership: self.last_membership@,
            fsm: self.fsm@,
            snapshot_idx: self.snapshot_idx,
            current: match self.current_snapshot {
                Some(s) => Some(s@),
                None => None,
            },
            allow_hot_build: self.allow_hot_build,
            has_catalog: self.catalog is Some,
            has_trigger: self.on_standby_trigger is Some,
        }
    }
}

/// What the store answers for one applied entry: the response bytes (none
/// for blank, membership and trigger entries) and, for a standby snapshot
/// trigger with a callback installed, the `(group, index, term)` to report.
pub type EntryAnswer = (Option<Seq<u8>>, Option<(u64, u64, u64)>);

/// Whether applying `e` in state `s` is free of arithmetic faults.
pub open spec fn entry_defined<S: StateMachine>(s: StoreView<S::V>, e: EntryView) -> bool {
    match e.payload {
        PayloadView::Normal(d) => d != trigger_magic() ==> S::spec_apply_defined(
            s.fsm,
            s.group_id,
            e.log_id.index,
            d,
        ),
        _ => true,
    }
}

/// Applying one committed entry: it becomes the last applied; a blank entry
/// answers nothing; the standby trigger answers nothing and is reported when
/// a callback is installed; a membership entry replaces the last
/// membership; any other command goes to the state machine, whose error
/// stops the batch.
pub open spec fn entry_step<S: StateMachine>(s: StoreView<S::V>, e: EntryView) -> (StoreView<S::V>, Result<EntryAnswer, Seq<char>>) {
    let s1 = StoreView { last_applied: Some(e.log_id), ..s };
    match e.payload {
        PayloadView::Blank => (s1, Ok((None, None))),
        PayloadView::Membership(m) => (
            StoreView { membership: MembershipView { log_id: Some(e.log_id), config: m }, ..s1 },
            Ok((None, None)),
        ),
        PayloadView::Normal(d) => if d == trigger_magic() {
            (
                s1,
                Ok(
                    (
                        None,
                        if s.has_trigger {
                            Some((s.group_id, e.log_id.index, e.log_id.term))
                        } else {
                            None
                        },
                    ),
                ),
            )
        } else {
            let (f, r) = S::spec_apply(s.fsm, s.group_id, e.log_id.index, d);
            (
                StoreView { fsm: f, ..s1 },
                match r {
                    Ok(effects) => Ok((Some(effects), None)),
                    Err(t) => Err(t),
                },
            )
        },
    }
}

/// Where a batch stands.
pub enum BatchStatus {
    /// Every entry so far was applied.
    Running,
    /// The state machine refused an entry, with this text.
    Failed(Seq<char>),
    /// The entry at this index would overflow the state machine.
    Overflow(u64),
}

/// The outcome of applying a batch prefix.
pub struct BatchRun<V> {
    pub state: StoreView<V>,
    pub responses: Seq<Option<Seq<u8>>>,
    pub triggers: Seq<(u64, u64, u64)>,
    pub status: BatchStatus,
}

/// Applying a batch in order, stopping at the first entry the state machine
/// refuses (or that would overflow it); the triggers are collected in order.
pub open spec fn run_entries<S: StateMachine>(s: StoreView<S::V>, es: Seq<EntryView>) -> BatchRun<S::V>
    decreases es.len(),
{
    if es.len() == 0 {
        BatchRun { state: s, responses: Seq::empty(), triggers: Seq::empty(), status: BatchStatus::Running }
    } else {
        let prev = run_entries::<S>(s, es.drop_last());
        let e = es.last();
        if !(prev.status is Running) {
            prev
        } else if !entry_defined::<S>(prev.state, e) {
            BatchRun { status: BatchStatus::Overflow(e.log_id.index), ..prev }
        } else {
            let (s2, r) = entry_step::<S>(prev.state, e);
            match r {
                Ok((resp, trig)) => BatchRun {
                    state: s2,
                    responses: prev.responses.push(resp),
                    triggers: match trig {
                        Some(t) => prev.triggers.push(t),
                        None => prev.triggers,
                    },
                    status: BatchStatus::Running,
                },
                Err(t) => BatchRun { state: s2, status: BatchStatus::Failed(t), ..prev },
            }
        }
    }
}

/// How a batch ended.
pub enum BatchEnd {
    /// All entries were applied; these standby triggers are to be reported
    /// to the callback, in order.
    Applied(Vec<(u64, u64, u64)>),
    /// The state machine refused an entry; the batch fails with this text
    /// and no trigger is reported.
    Failed(String),
    /// The entry at this log index would overflow the state machine.
    Overflow(u64),
}

/// The responses of the entries applied, in order, and how the batch ended.
pub struct ApplyBatch {
    pub responses: Vec<Option<Vec<u8>>>,
    pub end: BatchEnd,
}

/// Optional bytes, abstractly.
pub open spec fn opt_bytes_view(o: Option<Vec<u8>>) -> Option<Seq<u8>> {
    match o {
        Some(b) => Some(b@),
        None => None,
    }
}

/// The responses of a batch, abstractly.
pub open spec fn responses_view(v: Seq<Option<Vec<u8>>>) -> Seq<Option<Seq<u8>>> {
    v.map_values(|o: Option<Vec<u8>>| opt_bytes_view(o))
}

/// The store after installing a snapshot with metadata `meta` and bytes
/// `data`, the state machine having become `f`: the snapshot's last log id
/// and membership become the store's and the snapshot is held as current.
pub open spec fn installed<V>(s: StoreView<V>, f: V, meta: MetaView, data: Seq<u8>) -> StoreView<V> {
    StoreView {
        fsm: f,
        last_applied: meta.last_log_id,
        membership: meta.last_membership,
        current: Some(SnapshotView { meta, data }),
        ..s
    }
}

/// The `Display` form of a log id: `T<term>-N<node>-<index>`.
pub open spec fn log_id_text(id: LogId) -> Seq<char> {
    "T"@ + decimal(id.term as nat) + "-N"@ + decimal(id.node_id as nat) + "-"@ + decimal(
        id.index as nat,
    )
}

/// The id of a snapshot built from the live state machine: the last applied
/// log id and the build count, or `--<count>` when nothing was applied.
pub open spec fn built_snapshot_id(last: Option<LogId>, idx: u64) -> Seq<char> {
    match last {
        Some(id) => log_id_text(id) + "-"@ + decimal(idx as nat),
        None => "--"@ + decimal(idx as nat),
    }
}

/// The text of the refusal to build a snapshot when hot builds are off and
/// neither an installed nor a catalog snapshot exists.
pub open spec fn no_snapshot_text() -> Seq<char> {
    "no catalog/installed snapshot available (StandbyOffload; hot build disabled)"@
}

/// A snapshot to be written to the catalog: the group, where the snapshot
/// ends in the log, its id and its bytes.
pub struct CatalogWrite {
    pub group: u64,
    pub last_index: u64,
    pub last_term: u64,
    pub snapshot_id: String,
    pub data: Vec<u8>,
}

/// Abstract catalog write.
pub struct CatalogWriteView {
    pub group: u64,
    pub last_index: u64,
    pub last_term: u64,
    pub snapshot_id: Seq<char>,
    pub data: Seq<u8>,
}

impl View for CatalogWrite {
    type V = CatalogWriteView;

    open spec fn view(&self) -> CatalogWriteView {
        CatalogWriteView {
            group: self.group,
            last_index: self.last_index,
            last_term: self.last_term,
            snapshot_id: self.snapshot_id@,
            data: self.data@,
        }
    }
}

/// An optional catalog write, abstractly.
pub open spec fn opt_write_view(o: Option<CatalogWrite>) -> Option<CatalogWriteView> {
    match o {
        Some(w) => Some(w@),
        None => None,
    }
}

/// The newest durable snapshot the catalog lists for a group.
pub struct CatalogEntry {
    pub group: u64,
    pub last_index: u64,
    pub last_term: u64,
    pub snapshot_id: String,
}

/// Where a snapshot comes from when one is asked for.
pub enum SnapshotSource {
    /// This snapshot.
    Ready(StoredSnapshot),
    /// None is held: the newest one in the catalog is to be served.
    FromCatalog,
}

/// The log id a durable snapshot is recorded under: committed by `term`
/// with no particular node, at `index`.
pub open spec fn durable_log_id(index: u64, term: u64) -> LogId {
    LogId { term, node_id: 0, index }
}

/// The metadata of a durable snapshot ending at `(index, term)` with the
/// given membership.
pub open spec fn durable_meta(index: u64, term: u64, membership: MembershipView) -> MetaView {
    MetaView {
        last_log_id: Some(durable_log_id(index, term)),
        last_membership: membership,
        snapshot_id: durable_snapshot_id(index, term),
    }
}

/// The `(index, term)` a snapshot is filed under in the catalog: that of its
/// last log id, or `(0, 0)` when it has none.
pub open spec fn catalog_position(last: Option<LogId>) -> (u64, u64) {
    match last {
        Some(id) => (id.index, id.term),
        None => (0, 0),
    }
}

impl<S: StateMachine, C, T> StateMachineStore<S, C, T> {
    /// A store for `group_id` over `fsm` that may build snapshots from the
    /// live state machine and has neither catalog nor trigger callback.
    pub fn new(group_id: u64, fsm: S) -> (r: Self)
        ensures
            r@ == (StoreView {
                group_id,
                last_applied: None,
                membership: MembershipView { log_id: None, config: Seq::empty() },
                fsm: fsm@,
                snapshot_idx: 0,
                current: None,
                allow_hot_build: true,
                has_catalog: false,
                has_trigger: false,
            }),
    {
        Self::with_options(group_id, fsm, SmOptions { allow_hot_build: true, catalog: None, on_standby_trigger: None })
    }

    /// A store for `group_id` over `fsm` with the given options.
    pub fn with_options(group_id: u64, fsm: S, opts: SmOptions<C, T>) -> (r: Self)
        ensures
            r@ == (StoreView {
                group_id,
                last_applied: None,
                membership: MembershipView { log_id: None, config: Seq::empty() },
                fsm: fsm@,
                snapshot_idx: 0,
                current: None,
                allow_hot_build: opts.allow_hot_build,
                has_catalog: opts.catalog is Some,
                has_trigger: opts.on_standby_trigger is Some,
            }),
            r.catalog_ref() == opts.catalog,
            r.trigger_ref() == opts.on_standby_trigger,
    {
        StateMachineStore {
            group_id,
            last_applied_log: None,
            last_membership: StoredMembership::empty(),
            fsm,
            snapshot_idx: 0,
            current_snapshot: None,
            allow_hot_build: opts.allow_hot_build,
            catalog: opts.catalog,
            on_standby_trigger: opts.on_standby_trigger,
        }
    }

    /// The snapshot catalog the store was given.
    pub closed spec fn catalog_ref(&self) -> Option<C> {
        self.catalog
    }

    /// The standby-trigger callback the store was given.
    pub closed spec fn trigger_ref(&self) -> Option<T> {
        self.on_standby_trigger
    }

    /// The group this store serves.
    pub fn group_id(&self) -> (r: u64)
        ensures
            r == self@.group_id,
    {
        self.group_id
    }

    /// The snapshot catalog, if any.
    pub fn catalog(&self) -> (r: Option<&C>)
        ensures
            match r {
                Some(c) => self.catalog_ref() == Some(*c),
                None => self.catalog_ref() is None,
            },
    {
        match &self.catalog {
            Some(c) => Some(c),
            None => None,
        }
    }

    /// The standby-trigger callback, if any.
    pub fn on_standby_trigger(&self) -> (r: Option<&T>)
        ensures
            match r {
                Some(t) => self.trigger_ref() == Some(*t),
                None => self.trigger_ref() is None,
            },
    {
        match &self.on_standby_trigger {
            Some(t) => Some(t),
            None => None,
        }
    }

    /// The state machine, for local reads.
    pub fn with_fsm(&self) -> (r: &S)
        ensures
            r@ == self@.fsm,
    {
        &self.fsm
    }

    /// The last applied `(index, term)`: the watermark of the state machine.
    pub fn last_applied(&self) -> (r: Option<(u64, u64)>)
        ensures
            r == match self@.last_applied {
                Some(id) => Some((id.index, id.term)),
                None => None,
            },
    {
        match self.last_applied_log {
            Some(id) => Some((id.index, id.term)),
            None => None,
        }
    }

    /// The last applied log id and the last membership.
    pub fn applied_state(&self) -> (r: (Option<LogId>, StoredMembership))
        ensures
            r.0 == self@.last_applied,
            r.1@ == self@.membership,
    {
        (self.last_applied_log, self.last_membership.duplicate())
    }

    /// Applies one committed entry, as `entry_step` says.
    fn apply_one(&mut self, e: &ApplyEntry) -> (r: Result<(Option<Vec<u8>>, Option<(u64, u64, u64)>), String>)
        requires
            entry_defined::<S>(old(self)@, e@),
        ensures
            final(self)@ == entry_step::<S>(old(self)@, e@).0,
            match r {
                Ok((resp, trig)) => entry_step::<S>(old(self)@, e@).1 == Ok::<EntryAnswer, Seq<char>>(
                    (opt_bytes_view(resp), trig),
                ),
                Err(m) => entry_step::<S>(old(self)@, e@).1 == Err::<EntryAnswer, Seq<char>>(m@),
            },
            final(self).catalog_ref() == old(self).catalog_ref(),
            final(self).trigger_ref() == old(self).trigger_ref(),
    {
        self.last_applied_log = Some(e.log_id);
        match &e.payload {
            EntryPayload::Blank => Ok((None, None)),
            EntryPayload::Membership(m) => {
                self.last_membership = StoredMembership { log_id: Some(e.log_id), config: copy_bytes(m) };
                Ok((None, None))
            },
            EntryPayload::Normal(d) => {
                if is_standby_snapshot_trigger(d.as_slice()) {
                    if self.on_standby_trigger.is_some() {
                        Ok((None, Some((self.group_id, e.log_id.index, e.log_id.term))))
                    } else {
                        Ok((None, None))
                    }
                } else {
                    match self.fsm.apply(self.group_id, e.log_id.index, d.as_slice()) {
                        Ok(out) => Ok((Some(out.effects), None)),
                        Err(err) => Err(S::error_text(&err)),
                    }
                }
            },
        }
    }

    /// Applies a batch of committed entries in order and answers each; it
    /// stops at the first entry the state machine refuses, or before one
    /// that would overflow it. The standby triggers of the batch are handed
    /// back for reporting only when every entry was applied.
    pub fn apply_entries(&mut self, entries: &Vec<ApplyEntry>) -> (r: ApplyBatch)
        ensures
            ({
                let run = run_entries::<S>(old(self)@, entries_view(entries@));
                &&& final(self)@ == run.state
                &&& responses_view(r.responses@) == run.responses
                &&& match r.end {
                    BatchEnd::Applied(t) => run.status is Running && t@ == run.triggers,
                    BatchEnd::Failed(m) => run.status == BatchStatus::Failed(m@),
                    BatchEnd::Overflow(i) => run.status == BatchStatus::Overflow(i),
                }
            }),
            final(self).catalog_ref() == old(self).catalog_ref(),
            final(self).trigger_ref() == old(self).trigger_ref(),
    {
        let ghost s0 = self@;
        let ghost es = entries_view(entries@);
        let mut responses: Vec<Option<Vec<u8>>> = Vec::new();
        let mut triggers: Vec<(u64, u64, u64)> = Vec::new();
        let mut failed: Option<String> = None;
        let mut overflow: Option<u64> = None;
        let mut i: usize = 0;
        proof {
            assert(es.take(0) =~= Seq::<EntryView>::empty());
        }
        while i < entries.len()
            invariant
                i <= entries@.len(),
                es == entries_view(entries@),
                es.len() == entries@.len(),
                self.catalog_ref() == old(self).catalog_ref(),
                self.trigger_ref() == old(self).trigger_ref(),
                ({
                    let run = run_entries::<S>(s0, es.take(i as int));
                    &&& self@ == run.state
                    &&& responses_view(responses@) == run.responses
                    &&& triggers@ == run.triggers
                    &&& !(failed is Some && overflow is Some)
                    &&& match run.status {
                        BatchStatus::Running => failed is None && overflow is None,
                        BatchStatus::Failed(t) => failed is Some && failed->0@ == t,
                        BatchStatus::Overflow(x) => overflow == Some(x),
                    }
                }),
            decreases entries@.len() - i,
        {
            let ghost prev = run_entries::<S>(s0, es.take(i as int));
            proof {
                assert(es.take(i as int + 1).drop_last() =~= es.take(i as int));
                assert(es.take(i as int + 1).last() == entries@[i as int]@);
            }
            if failed.is_none() && overflow.is_none() {
                let e = &entries[i];
                let ok = match &e.payload {
                    EntryPayload::Normal(d) => is_standby_snapshot_trigger(d.as_slice())
                        || self.fsm.apply_defined(self.group_id, e.log_id.index, d.as_slice()),
                    _ => true,
                };
                if !ok {
                    overflow = Some(e.log_id.index);
                } else {
                    match self.apply_one(e) {
                        Ok((resp, trig)) => {
                            let ghost rv = responses@;
                            let ghost one = opt_bytes_view(resp);
                            responses.push(resp);
                            proof {
                                assert(responses_view(responses@) =~= responses_view(rv).push(one));
                            }
                            match trig {
                                Some(t) => {
                                    triggers.push(t);
                                },
                                None => {},
                            }
                        },
                        Err(m) => {
                            failed = Some(m);
                        },
                    }
                }
            }
            i = i + 1;
        }
        proof {
            assert(es.take(entries@.len() as int) =~= es);
        }
        let end = match failed {
            Some(m) => BatchEnd::Failed(m),
            None => match overflow {
                Some(x) => BatchEnd::Overflow(x),
                None => BatchEnd::Applied(triggers),
            },
        };
        ApplyBatch { responses, end }
    }
    /// The number of snapshots built from the live state machine so far.
    pub fn snapshots_built(&self) -> (r: u64)
        ensures
            r == self@.snapshot_idx,
    {
        self.snapshot_idx
    }

    /// Installs a snapshot received from the leader: the state machine is
    /// restored from `data`; on success the snapshot's last log id and
    /// membership become the store's, the snapshot is held as current, and,
    /// with a catalog, it is to be written there under its last log
    /// position. On failure only the state machine's restore has acted.
    pub fn install_snapshot(&mut self, meta: SnapshotMeta, data: Vec<u8>) -> (r: Result<Option<CatalogWrite>, String>)
        ensures
            ({
                let (f, rr) = S::spec_restore(old(self)@.fsm, old(self)@.group_id, data@);
                match r {
                    Err(m) => rr == Err::<(), Seq<char>>(m@) && final(self)@ == StoreView { fsm: f, ..old(self)@ },
                    Ok(w) => {
                        &&& rr is Ok
                        &&& final(self)@ == installed(old(self)@, f, meta@, data@)
                        &&& opt_write_view(w) == if old(self)@.has_catalog {
                            Some(CatalogWriteView {
                                group: old(self)@.group_id,
                                last_index: catalog_position(meta@.last_log_id).0,
                                last_term: catalog_position(meta@.last_log_id).1,
                                snapshot_id: meta@.snapshot_id,
                                data: data@,
                            })
                        } else {
                            None
                        }
                    },
                }
            }),
            final(self).catalog_ref() == old(self).catalog_ref(),
            final(self).trigger_ref() == old(self).trigger_ref(),
    {
        match self.fsm.restore(self.group_id, data.as_slice()) {
            Err(e) => {
                return Err(S::error_text(&e));
            },
            Ok(()) => {},
        }
        let (last_index, last_term) = match meta.last_log_id {
            Some(id) => (id.index, id.term),
            None => (0, 0),
        };
        let write = if self.catalog.is_some() {
            Some(
                CatalogWrite {
                    group: self.group_id,
                    last_index,
                    last_term,
                    snapshot_id: meta.snapshot_id.clone(),
                    data: copy_bytes(&data),
                },
            )
        } else {
            None
        };
        self.last_applied_log = meta.last_log_id;
        self.last_membership = meta.last_membership.duplicate();
        self.current_snapshot = Some(StoredSnapshot { meta, data });
        Ok(write)
    }

    /// Restores the state machine from durable snapshot bytes ending at
    /// `(last_index, last_term)` (recovery, or a pulled snapshot). The
    /// membership is kept; on success the snapshot becomes current under id
    /// `<index>-<term>` and, with a catalog, is to be written there. The
    /// membership flag is accepted and has no effect.
    pub fn install_durable_snapshot(
        &mut self,
        last_index: u64,
        last_term: u64,
        _membership_default: bool,
        data: Vec<u8>,
    ) -> (r: Result<
        Option<CatalogWrite>,
        String,
    >)
        ensures
            ({
                let (f, rr) = S::spec_restore(old(self)@.fsm, old(self)@.group_id, data@);
                let meta = durable_meta(last_index, last_term, old(self)@.membership);
                match r {
                    Err(m) => rr == Err::<(), Seq<char>>(m@) && final(self)@ == StoreView { fsm: f, ..old(self)@ },
                    Ok(w) => {
                        &&& rr is Ok
                        &&& final(self)@ == StoreView {
                            fsm: f,
                            last_applied: Some(durable_log_id(last_index, last_term)),
                            current: Some(SnapshotView { meta, data: data@ }),
                            ..old(self)@
                        }
                        &&& opt_write_view(w) == if old(self)@.has_catalog {
                            Some(CatalogWriteView {
                                group: old(self)@.group_id,
                                last_index,
                                last_term,
                                snapshot_id: durable_snapshot_id(last_index, last_term),
                                data: data@,
                            })
                        } else {
                            None
                        }
                    },
                }
            }),
            final(self).catalog_ref() == old(self).catalog_ref(),
            final(self).trigger_ref() == old(self).trigger_ref(),
    {
        let log_id = LogId { term: last_term, node_id: 0, index: last_index };
        let id = crate::snapshot::snapshot_id(last_index, last_term);
        let meta = SnapshotMeta {
            last_log_id: Some(log_id),
            last_membership: self.last_membership.duplicate(),
            snapshot_id: id,
        };
        match self.fsm.restore(self.group_id, data.as_slice()) {
            Err(e) => {
                return Err(S::error_text(&e));
            },
            Ok(()) => {},
        }
        self.last_applied_log = Some(log_id);
        let write = if self.catalog.is_some() {
            Some(
                CatalogWrite {
                    group: self.group_id,
                    last_index,
                    last_term,
                    snapshot_id: meta.snapshot_id.clone(),
                    data: copy_bytes(&data),
                },
            )
        } else {
            None
        };
        self.current_snapshot = Some(StoredSnapshot { meta, data });
        Ok(write)
    }

    /// The snapshot held as current, if any (when none is, the newest one in
    /// the catalog is served).
    pub fn current_snapshot(&self) -> (r: Option<StoredSnapshot>)
        ensures
            match r {
                Some(s) => self@.current == Some(s@),
                None => self@.current is None,
            },
    {
        match &self.current_snapshot {
            Some(s) => Some(s.duplicate()),
            None => None,
        }
    }

    /// Builds a snapshot for the Raft engine. With hot builds off, the
    /// current snapshot is served, or the catalog's when none is held. With
    /// hot builds on, the live state machine is snapshotted: the build count
    /// goes up by one, the id names the last applied log id and the count,
    /// and the snapshot becomes current; a failure of the state machine
    /// changes nothing.
    pub fn build_snapshot(&mut self) -> (r: Result<SnapshotSource, String>)
        requires
            old(self)@.allow_hot_build ==> old(self)@.snapshot_idx < u64::MAX,
        ensures
            !old(self)@.allow_hot_build ==> {
                &&& final(self)@ == old(self)@
                &&& match old(self)@.current {
                    Some(c) => r matches Ok(SnapshotSource::Ready(s)) && s@ == c,
                    None => r matches Ok(SnapshotSource::FromCatalog),
                }
            },
            old(self)@.allow_hot_build ==> match r {
                Ok(SnapshotSource::Ready(s)) => {
                    let idx = (old(self)@.snapshot_idx + 1) as u64;
                    &&& S::spec_snapshot_ok(old(self)@.fsm, old(self)@.group_id, Ok(s.data@))
                    &&& s@.meta == MetaView {
                        last_log_id: old(self)@.last_applied,
                        last_membership: old(self)@.membership,
                        snapshot_id: built_snapshot_id(old(self)@.last_applied, idx),
                    }
                    &&& final(self)@ == StoreView { snapshot_idx: idx, current: Some(s@), ..old(self)@ }
                },
                Ok(SnapshotSource::FromCatalog) => false,
                Err(m) => S::spec_snapshot_ok(old(self)@.fsm, old(self)@.group_id, Err(m@))
                    && final(self)@ == old(self)@,
            },
            final(self).catalog_ref() == old(self).catalog_ref(),
            final(self).trigger_ref() == old(self).trigger_ref(),
    {
        if !self.allow_hot_build {
            return match &self.current_snapshot {
                Some(s) => Ok(SnapshotSource::Ready(s.duplicate())),
                None => Ok(SnapshotSource::FromCatalog),
            };
        }
        let data = match self.fsm.snapshot(self.group_id) {
            Ok(d) => d,
            Err(e) => {
                return Err(S::error_text(&e));
            },
        };
        self.snapshot_idx = self.snapshot_idx + 1;
        let idx = self.snapshot_idx;
        let id = match self.last_applied_log {
            Some(last) => {
                let mut t = String::from_str("T");
                crate::text::push_decimal(&mut t, last.term);
                t.append("-N");
                crate::text::push_decimal(&mut t, last.node_id);
                t.append("-");
                crate::text::push_decimal(&mut t, last.index);
                t.append("-");
                crate::text::push_decimal(&mut t, idx);
                proof {
                    reveal_strlit("T");
                    reveal_strlit("-N");
                    reveal_strlit("-");
                    assert(t@ =~= built_snapshot_id(self.last_applied_log, idx));
                }
                t
            },
            None => {
                let mut t = String::from_str("--");
                crate::text::push_decimal(&mut t, idx);
                t
            },
        };
        let meta = SnapshotMeta {
            last_log_id: self.last_applied_log,
            last_membership: self.last_membership.duplicate(),
            snapshot_id: id,
        };
        let snap = StoredSnapshot { meta, data };
        let out = snap.duplicate();
        self.current_snapshot = Some(snap);
        Ok(SnapshotSource::Ready(out))
    }

    /// The newest catalog snapshot as the store serves it: none without a
    /// catalog, without an entry, or when the entry's bytes are missing;
    /// otherwise the bytes under the entry's id, ending at the entry's
    /// `(index, term)`, with an empty membership.
    pub fn snapshot_from_catalog(&self, latest: Option<CatalogEntry>, data: Option<Vec<u8>>) -> (r: Option<StoredSnapshot>)
        ensures
            match r {
                None => !self@.has_catalog || latest is None || data is None,
                Some(s) => {
                    &&& self@.has_catalog
                    &&& latest matches Some(e) && data matches Some(d) && s@ == SnapshotView {
                        meta: MetaView {
                            last_log_id: Some(durable_log_id(e.last_index, e.last_term)),
                            last_membership: MembershipView { log_id: None, config: Seq::empty() },
                            snapshot_id: e.snapshot_id@,
                        },
                        data: d@,
                    }
                },
            },
    {
        if self.catalog.is_none() {
            return None;
        }
        let entry = match latest {
            Some(e) => e,
            None => {
                return None;
            },
        };
        let bytes = match data {
            Some(d) => d,
            None => {
                return None;
            },
        };
        Some(
            StoredSnapshot {
                meta: SnapshotMeta {
                    last_log_id: Some(LogId { term: entry.last_term, node_id: 0, index: entry.last_index }),
                    last_membership: StoredMembership::empty(),
                    snapshot_id: entry.snapshot_id,
                },
                data: bytes,
            },
        )
    }

    /// The bytes of a standby snapshot of `group`: the live state machine's
    /// snapshot of it, or the text of its failure.
    pub fn standby_snapshot_data(&self, group: u64) -> (r: Result<Vec<u8>, String>)
        ensures
            S::spec_snapshot_ok(
                self@.fsm,
                group,
                match r {
                    Ok(b) => Ok(b@),
                    Err(m) => Err(m@),
                },
            ),
    {
        match self.fsm.snapshot(group) {
            Ok(d) => Ok(d),
            Err(e) => Err(S::error_text(&e)),
        }
    }

    /// Advertises a standby snapshot once the catalog holds it: it becomes
    /// current, ending at `(index, term)` under the catalog's id, with the
    /// store's membership.
    pub fn record_standby_snapshot(&mut self, index: u64, term: u64, snapshot_id: String, data: Vec<u8>)
        ensures
            final(self)@ == (StoreView {
                current: Some(SnapshotView {
                    meta: MetaView {
                        last_log_id: Some(durable_log_id(index, term)),
                        last_membership: old(self)@.membership,
                        snapshot_id: snapshot_id@,
                    },
                    data: data@,
                }),
                ..old(self)@
            }),
            final(self).catalog_ref() == old(self).catalog_ref(),
            final(self).trigger_ref() == old(self).trigger_ref(),
    {
        let meta = SnapshotMeta {
            last_log_id: Some(LogId { term, node_id: 0, index }),
            last_membership: self.last_membership.duplicate(),
            snapshot_id,
        };
        self.current_snapshot = Some(StoredSnapshot { meta, data });
    }
}

/// The snapshot served when hot builds are off and none is held: the
/// catalog's, or the refusal.
pub fn catalog_or_refuse(found: Option<StoredSnapshot>) -> (r: Result<StoredSnapshot, String>)
    ensures
        match found {
            Some(s) => r matches Ok(t) && t@ == s@,
            None => r matches Err(m) && m@ == no_snapshot_text(),
        },
{
    match found {
        Some(s) => Ok(s),
        None => Err(String::from_str("no catalog/installed snapshot available (StandbyOffload; hot build disabled)")),
    }
}

/// A batch applied in full leaves the last entry as the last applied.
pub proof fn law_full_batch_ends_at_last_entry<S: StateMachine>(s: StoreView<S::V>, es: Seq<EntryView>)
    requires
        es.len() > 0,
        run_entries::<S>(s, es).status is Running,
    ensures
        run_entries::<S>(s, es).state.last_applied == Some(es.last().log_id),
{
}

/// Blank, membership and trigger entries never reach the state machine and
/// are never refused; a trigger is reported exactly when a callback is
/// installed.
pub proof fn law_non_commands_skip_state_machine<S: StateMachine>(s: StoreView<S::V>, e: EntryView)
    requires
        !(e.payload matches PayloadView::Normal(d) && d != trigger_magic()),
    ensures
        entry_defined::<S>(s, e),
        entry_step::<S>(s, e).0.fsm == s.fsm,
        entry_step::<S>(s, e).1 matches Ok((resp, trig)) && resp is None && (trig is Some <==> (
        e.payload == PayloadView::Normal(trigger_magic()) && s.has_trigger)),
{
}

/// Applying committed entries in two batches leaves the store as one batch
/// would and answers the same, in the same order, when the first batch was
/// applied in full.
pub proof fn law_batches_compose<S: StateMachine>(s: StoreView<S::V>, a: Seq<EntryView>, b: Seq<EntryView>)
    requires
        run_entries::<S>(s, a).status is Running,
    ensures
        ({
            let first = run_entries::<S>(s, a);
            let second = run_entries::<S>(first.state, b);
            let whole = run_entries::<S>(s, a + b);
            &&& whole.state == second.state
            &&& whole.responses == first.responses + second.responses
            &&& whole.triggers == first.triggers + second.triggers
            &&& whole.status == second.status
        }),
    decreases b.len(),
{
    let first = run_entries::<S>(s, a);
    if b.len() == 0 {
        assert(a + b =~= a);
        assert(first.responses + Seq::<Option<Seq<u8>>>::empty() =~= first.responses);
        assert(first.triggers + Seq::<(u64, u64, u64)>::empty() =~= first.triggers);
    } else {
        law_batches_compose::<S>(s, a, b.drop_last());
        assert((a + b).drop_last() =~= a + b.drop_last());
        assert((a + b).last() == b.last());
        let second_prev = run_entries::<S>(first.state, b.drop_last());
        let whole_prev = run_entries::<S>(s, a + b.drop_last());
        if second_prev.status is Running && entry_defined::<S>(second_prev.state, b.last()) {
            let (s2, r) = entry_step::<S>(second_prev.state, b.last());
            match r {
                Ok((resp, trig)) => {
                    assert(whole_prev.responses.push(resp) =~= first.responses + second_prev.responses.push(resp));
                    match trig {
                        Some(t) => {
                            assert(whole_prev.triggers.push(t) =~= first.triggers + second_prev.triggers.push(t));
                        },
                        None => {},
                    }
                },
                Err(_) => {},
            }
        }
    }
}

/// What a read gives back of an install: the installed snapshot becomes the
/// current one, and its last log id and membership become the store's; the
/// group and the build mode are untouched.
pub proof fn law_install_then_read<V>(s: StoreView<V>, f: V, meta: MetaView, data: Seq<u8>)
    ensures
        installed(s, f, meta, data).current == Some(SnapshotView { meta, data }),
        installed(s, f, meta, data).last_applied == meta.last_log_id,
        installed(s, f, meta, data).membership == meta.last_membership,
        installed(s, f, meta, data).group_id == s.group_id,
        installed(s, f, meta, data).allow_hot_build == s.allow_hot_build,
{
}

} // verus!

//! The Raft log kept by each group: entries keyed by index, the last purged
//! log id, the committed log id and the vote. Every mutation here is
//! mirrored to disk by the caller (frames of serialized entries plus a hard
//! state record).

use vstd::prelude::*;

verus! {

/// The identity of a log entry: the committing leader (term, node) and the
/// entry's index.
#[derive(PartialEq, Eq, Structural, Clone, Copy, Debug)]
pub struct LogId {
    pub term: u64,
    pub node_id: u64,
    pub index: u64,
}

/// The vote a node has granted or holds: a leader id and whether a quorum
/// accepted it.
#[derive(PartialEq, Eq, Structural, Clone, Copy, Debug)]
pub struct Vote {
    pub term: u64,
    pub node_id: u64,
    pub committed: bool,
}

/// Log ids are ordered by leader (term, then node) and then by index.
pub open spec fn log_id_le(a: LogId, b: LogId) -> bool {
    a.term < b.term || (a.term == b.term && (a.node_id < b.node_id || (a.node_id == b.node_id
        && a.index <= b.index)))
}

/// The order of optional log ids: absent sorts first.
pub open spec fn opt_log_id_le(a: Option<LogId>, b: Option<LogId>) -> bool {
    match (a, b) {
        (None, _) => true,
        (Some(_), None) => false,
        (Some(x), Some(y)) => log_id_le(x, y),
    }
}

/// Compares two optional log ids in the order above.
pub fn opt_log_id_leq(a: Option<LogId>, b: Option<LogId>) -> (r: bool)
    ensures
        r == opt_log_id_le(a, b),
{
    match (a, b) {
        (None, _) => true,
        (Some(_), None) => false,
        (Some(x), Some(y)) => x.term < y.term || (x.term == y.term && (x.node_id < y.node_id || (
        x.node_id == y.node_id && x.index <= y.index))),
    }
}

/// One end of an index range.
#[derive(PartialEq, Eq, Structural, Clone, Copy, Debug)]
pub enum IndexBound {
    Included(u64),
    Excluded(u64),
    Unbounded,
}

/// Whether `i` lies within the range `(lo, hi)`.
pub open spec fn in_range(i: u64, lo: IndexBound, hi: IndexBound) -> bool {
    &&& match lo {
        IndexBound::Included(a) => a <= i,
        IndexBound::Excluded(a) => a < i,
        IndexBound::Unbounded => true,
    }
    &&& match hi {
        IndexBound::Included(b) => i <= b,
        IndexBound::Excluded(b) => i < b,
        IndexBound::Unbounded => true,
    }
}

/// The ranges a `BTreeMap` refuses (it panics on them): a start after the
/// end, or an empty range excluded at both ends.
pub open spec fn range_is_malformed(lo: IndexBound, hi: IndexBound) -> bool {
    match (lo, hi) {
        (IndexBound::Included(a), IndexBound::Included(b)) => a > b,
        (IndexBound::Included(a), IndexBound::Excluded(b)) => a > b,
        (IndexBound::Excluded(a), IndexBound::Included(b)) => a > b,
        (IndexBound::Excluded(a), IndexBound::Excluded(b)) => a >= b,
        _ => false,
    }
}

/// Whether a range is one a `BTreeMap` refuses.
pub fn range_malformed(lo: IndexBound, hi: IndexBound) -> (r: bool)
    ensures
        r == range_is_malformed(lo, hi),
{
    match (lo, hi) {
        (IndexBound::Included(a), IndexBound::Included(b)) => a > b,
        (IndexBound::Included(a), IndexBound::Excluded(b)) => a > b,
        (IndexBound::Excluded(a), IndexBound::Included(b)) => a > b,
        (IndexBound::Excluded(a), IndexBound::Excluded(b)) => a >= b,
        _ => false,
    }
}

fn in_range_exec(i: u64, lo: IndexBound, hi: IndexBound) -> (r: bool)
    ensures
        r == in_range(i, lo, hi),
{
    let lo_ok = match lo {
        IndexBound::Included(a) => a <= i,
        IndexBound::Excluded(a) => a < i,
        IndexBound::Unbounded => true,
    };
    let hi_ok = match hi {
        IndexBound::Included(b) => i <= b,
        IndexBound::Excluded(b) => i < b,
        IndexBound::Unbounded => true,
    };
    lo_ok && hi_ok
}

/// A stored entry: its log id and its serialized form.
pub struct LogRecord {
    pub log_id: LogId,
    pub payload: Vec<u8>,
}

/// A stored entry as plain values.
pub open spec fn record_view(r: LogRecord) -> (LogId, Seq<u8>) {
    (r.log_id, r.payload@)
}

/// Entries viewed as plain values.
pub open spec fn records_view(v: Seq<LogRecord>) -> Seq<(LogId, Seq<u8>)> {
    v.map_values(|r: LogRecord| record_view(r))
}

/// Entries strictly increasing by index.
pub open spec fn sorted_by_index(s: Seq<(LogId, Seq<u8>)>) -> bool {
    forall|i: int, j: int| 0 <= i < j < s.len() ==> s[i].0.index < s[j].0.index
}

/// The entries of `s` whose index lies in `(lo, hi)`, in order.
pub open spec fn select(s: Seq<(LogId, Seq<u8>)>, lo: IndexBound, hi: IndexBound) -> Seq<(LogId, Seq<u8>)> {
    s.filter(|e: (LogId, Seq<u8>)| in_range(e.0.index, lo, hi))
}

/// Inserting an entry keyed by its index: it replaces an entry with the same
/// index and keeps the order.
pub open spec fn insert_by_index(s: Seq<(LogId, Seq<u8>)>, e: (LogId, Seq<u8>)) -> Seq<(LogId, Seq<u8>)> {
    select(s, IndexBound::Unbounded, IndexBound::Excluded(e.0.index)) + seq![e] + select(
        s,
        IndexBound::Excluded(e.0.index),
        IndexBound::Unbounded,
    )
}

/// Inserting entries one after another.
pub open spec fn insert_all(s: Seq<(LogId, Seq<u8>)>, es: Seq<(LogId, Seq<u8>)>) -> Seq<(LogId, Seq<u8>)>
    decreases es.len(),
{
    if es.len() == 0 {
        s
    } else {
        insert_by_index(insert_all(s, es.drop_last()), es.last())
    }
}

/// The first index removed by truncating after `last`.
pub open spec fn truncate_start(last: Option<LogId>) -> nat {
    match last {
        Some(id) => (id.index + 1) as nat,
        None => 0,
    }
}

/// Abstract state of a group's log.
pub struct RaftLogState {
    pub last_purged: Option<LogId>,
    pub entries: Seq<(LogId, Seq<u8>)>,
    pub committed: Option<LogId>,
    pub vote: Option<Vote>,
}

/// The log's summary: last purged log id and last log id (the last entry's,
/// or the last purged one when no entry is left).
pub open spec fn log_state_of(s: RaftLogState) -> (Option<LogId>, Option<LogId>) {
    (s.last_purged, if s.entries.len() > 0 {
        Some(s.entries.last().0)
    } else {
        s.last_purged
    })
}

/// A group's log.
pub struct RaftLog {
    last_purged: Option<LogId>,
    entries: Vec<LogRecord>,
    committed: Option<LogId>,
    vote: Option<Vote>,
}

impl View for RaftLog {
    type V = RaftLogState;

    closed spec fn view(&self) -> RaftLogState {
        RaftLogState {
            last_purged: self.last_purged,
            entries: records_view(self.entries@),
            committed: self.committed,
            vote: self.vote,
        }
    }
}

proof fn lemma_filter_push<A>(s: Seq<A>, x: A, p: spec_fn(A) -> bool)
    ensures
        s.push(x).filter(p) == if p(x) {
            s.filter(p).push(x)
        } else {
            s.filter(p)
        },
{
    reveal(Seq::filter);
    assert(s.push(x).drop_last() =~= s);
}

proof fn lemma_filter_all<A>(s: Seq<A>, p: spec_fn(A) -> bool)
    requires
        forall|i: int| 0 <= i < s.len() ==> p(#[trigger] s[i]),
    ensures
        s.filter(p) == s,
    decreases s.len(),
{
    reveal(Seq::filter);
    if s.len() > 0 {
        lemma_filter_all(s.drop_last(), p);
        assert(s.drop_last().push(s.last()) =~= s);
    }
}

proof fn lemma_filter_none<A>(s: Seq<A>, p: spec_fn(A) -> bool)
    requires
        forall|i: int| 0 <= i < s.len() ==> !p(#[trigger] s[i]),
    ensures
        s.filter(p) == Seq::<A>::empty(),
    decreases s.len(),
{
    reveal(Seq::filter);
    if s.len() > 0 {
        lemma_filter_none(s.drop_last(), p);
    }
}

proof fn lemma_filter_sorted(s: Seq<(LogId, Seq<u8>)>, lo: IndexBound, hi: IndexBound)
    requires
        sorted_by_index(s),
    ensures
        sorted_by_index(select(s, lo, hi)),
        forall|i: int| 0 <= i < select(s, lo, hi).len() ==> in_range(
            #[trigger] select(s, lo, hi)[i].0.index,
            lo,
            hi,
        ),
        forall|i: int|
            0 <= i < select(s, lo, hi).len() ==> s.contains(#[trigger] select(s, lo, hi)[i]),
    decreases s.len(),
{
    reveal(Seq::filter);
    let p = |e: (LogId, Seq<u8>)| in_range(e.0.index, lo, hi);
    if s.len() > 0 {
        let d = s.drop_last();
        assert(sorted_by_index(d));
        lemma_filter_sorted(d, lo, hi);
        let f = select(d, lo, hi);
        assert(s.filter(p) == select(s, lo, hi));
        if p(s.last()) {
            assert forall|i: int| 0 <= i < f.len() implies #[trigger] f[i].0.index < s.last().0.index by {
                assert(d.contains(f[i]));
                let k = choose|k: int| 0 <= k < d.len() && d[k] == f[i];
                assert(s[k] == d[k]);
            }
            assert(select(s, lo, hi) == f.push(s.last()));
            assert forall|i: int| 0 <= i < f.push(s.last()).len() implies s.contains(
                #[trigger] f.push(s.last())[i],
            ) by {
                if i < f.len() {
                    let k = choose|k: int| 0 <= k < d.len() && d[k] == f[i];
                    assert(s[k] == d[k]);
                } else {
                    assert(s[s.len() - 1] == s.last());
                }
            }
        } else {
            assert(select(s, lo, hi) == f);
            assert forall|i: int| 0 <= i < f.len() implies s.contains(#[trigger] f[i]) by {
                let k = choose|k: int| 0 <= k < d.len() && d[k] == f[i];
                assert(s[k] == d[k]);
            }
        }
    }
}

/// Copies out the entries whose index lies in `(lo, hi)`.
fn copy_range(entries: &Vec<LogRecord>, lo: IndexBound, hi: IndexBound) -> (r: Vec<LogRecord>)
    ensures
        records_view(r@) == select(records_view(entries@), lo, hi),
{
    let ghost s = records_view(entries@);
    let mut out: Vec<LogRecord> = Vec::new();
    let mut i: usize = 0;
    while i < entries.len()
        invariant
            i <= entries@.len(),
            s == records_view(entries@),
            records_view(out@) == select(s.subrange(0, i as int), lo, hi),
        decreases entries@.len() - i,
    {
        let rec = &entries[i];
        proof {
            assert(s.subrange(0, i as int + 1) =~= s.subrange(0, i as int).push(s[i as int]));
            lemma_filter_push(
                s.subrange(0, i as int),
                s[i as int],
                |e: (LogId, Seq<u8>)| in_range(e.0.index, lo, hi),
            );
        }
        if in_range_exec(rec.log_id.index, lo, hi) {
            let copy = LogRecord {
                log_id: rec.log_id,
                payload: vstd::slice::slice_to_vec(rec.payload.as_slice()),
            };
            out.push(copy);
            proof {
                assert(records_view(out@) =~= select(s.subrange(0, i as int), lo, hi).push(
                    s[i as int],
                ));
            }
        }
        i = i + 1;
    }
    proof {
        assert(s.subrange(0, entries@.len() as int) =~= s);
    }
    out
}

proof fn lemma_insert_sorted(s: Seq<(LogId, Seq<u8>)>, e: (LogId, Seq<u8>))
    requires
        sorted_by_index(s),
    ensures
        sorted_by_index(insert_by_index(s, e)),
{
    let k = e.0.index;
    lemma_filter_sorted(s, IndexBound::Unbounded, IndexBound::Excluded(k));
    lemma_filter_sorted(s, IndexBound::Excluded(k), IndexBound::Unbounded);
    let l = select(s, IndexBound::Unbounded, IndexBound::Excluded(k));
    let r = select(s, IndexBound::Excluded(k), IndexBound::Unbounded);
    let t = l + seq![e] + r;
    assert forall|i: int, j: int| 0 <= i < j < t.len() implies t[i].0.index < t[j].0.index by {
        if i < l.len() {
            assert(in_range(l[i].0.index, IndexBound::Unbounded, IndexBound::Excluded(k)));
        }
        if j >= l.len() + 1 {
            assert(in_range(r[j - l.len() - 1].0.index, IndexBound::Excluded(k), IndexBound::Unbounded));
        }
    }
}

impl RaftLog {
    #[verifier::type_invariant]
    closed spec fn entries_sorted(&self) -> bool {
        sorted_by_index(records_view(self.entries@))
    }

    /// An empty log with no hard state.
    pub fn new() -> (r: RaftLog)
        ensures
            r@.last_purged is None,
            r@.entries == Seq::<(LogId, Seq<u8>)>::empty(),
            r@.committed is None,
            r@.vote is None,
    {
        let r = RaftLog { last_purged: None, entries: Vec::new(), committed: None, vote: None };
        proof {
            assert(records_view(r.entries@) =~= Seq::<(LogId, Seq<u8>)>::empty());
        }
        r
    }

    /// A log reopened with the hard state read back from disk and no entries
    /// yet (they are appended back as their frames are read).
    pub fn with_hard_state(
        last_purged: Option<LogId>,
        committed: Option<LogId>,
        vote: Option<Vote>,
    ) -> (r: RaftLog)
        ensures
            r@.last_purged == last_purged,
            r@.entries == Seq::<(LogId, Seq<u8>)>::empty(),
            r@.committed == committed,
            r@.vote == vote,
    {
        let r = RaftLog { last_purged, entries: Vec::new(), committed, vote };
        proof {
            assert(records_view(r.entries@) =~= Seq::<(LogId, Seq<u8>)>::empty());
        }
        r
    }

    fn insert_one(&mut self, rec: LogRecord)
        ensures
            final(self)@.entries == insert_by_index(old(self)@.entries, record_view(rec)),
            final(self)@.last_purged == old(self)@.last_purged,
            final(self)@.committed == old(self)@.committed,
            final(self)@.vote == old(self)@.vote,
    {
        proof {
            use_type_invariant(&*self);
        }
        let ghost s = self@.entries;
        let ghost e = record_view(rec);
        let k = rec.log_id.index;
        let n = self.entries.len();
        if n == 0 || self.entries[n - 1].log_id.index < k {
            proof {
                let lo = |x: (LogId, Seq<u8>)| in_range(x.0.index, IndexBound::Unbounded, IndexBound::Excluded(k));
                let hi = |x: (LogId, Seq<u8>)| in_range(x.0.index, IndexBound::Excluded(k), IndexBound::Unbounded);
                assert forall|i: int| 0 <= i < s.len() implies lo(#[trigger] s[i]) by {
                    if i < s.len() - 1 {
                        assert(s[i].0.index < s[s.len() - 1].0.index);
                    }
                }
                lemma_filter_all(s, lo);
                assert forall|i: int| 0 <= i < s.len() implies !hi(#[trigger] s[i]) by {
                    if i < s.len() - 1 {
                        assert(s[i].0.index < s[s.len() - 1].0.index);
                    }
                }
                lemma_filter_none(s, hi);
                assert(insert_by_index(s, e) =~= s.push(e));
                lemma_insert_sorted(s, e);
            }
            let mut ents: Vec<LogRecord> = Vec::new();
            std::mem::swap(&mut ents, &mut self.entries);
            ents.push(rec);
            proof {
                assert(records_view(ents@) =~= s.push(e));
            }
            self.entries = ents;
        } else {
            let mut left = copy_range(&self.entries, IndexBound::Unbounded, IndexBound::Excluded(k));
            let mut right = copy_range(&self.entries, IndexBound::Excluded(k), IndexBound::Unbounded);
            left.push(rec);
            left.append(&mut right);
            proof {
                lemma_insert_sorted(s, e);
                assert(records_view(left@) =~= insert_by_index(s, e));
            }
            self.entries = left;
        }
    }

    /// Stores entries, each under its index; an entry replaces any stored
    /// entry with the same index.
    pub fn append(&mut self, records: Vec<LogRecord>)
        ensures
            final(self)@.entries == insert_all(old(self)@.entries, records_view(records@)),
            final(self)@.last_purged == old(self)@.last_purged,
            final(self)@.committed == old(self)@.committed,
            final(self)@.vote == old(self)@.vote,
    {
        let ghost es = records_view(records@);
        let ghost s0 = self@.entries;
        let mut src = records;
        let mut records: Vec<LogRecord> = Vec::new();
        let m = src.len();
        let ghost orig = src@;
        while src.len() > 0
            invariant
                src@ == orig.subrange(0, src@.len() as int),
                records@.len() == orig.len() - src@.len(),
                m == orig.len(),
                forall|j: int| 0 <= j < records@.len() ==> #[trigger] records@[j] == orig[m - 1 - j],
            decreases src@.len(),
        {
            let x = src.pop().unwrap();
            records.push(x);
        }
        proof {
            assert(es == records_view(orig));
        }
        let ghost rev = records@;
        let mut i: usize = 0;
        let n = records.len();
        while i < n
            invariant
                n == rev.len(),
                i <= n,
                records@ == rev.subrange(0, n - i),
                es.len() == n,
                forall|j: int| 0 <= j < n ==> record_view(#[trigger] rev[j]) == es[n - 1 - j],
                self@.entries == insert_all(s0, es.subrange(0, i as int)),
                self@.last_purged == old(self)@.last_purged,
                self@.committed == old(self)@.committed,
                self@.vote == old(self)@.vote,
            decreases n - i,
        {
            let rec = records.pop().unwrap();
            proof {
                assert(rec == rev[n - i - 1]);
                assert(record_view(rec) == es[i as int]);
                assert(es.subrange(0, i as int + 1).drop_last() =~= es.subrange(0, i as int));
                assert(es.subrange(0, i as int + 1).last() == es[i as int]);
            }
            self.insert_one(rec);
            i = i + 1;
        }
        proof {
            assert(es.subrange(0, n as int) =~= es);
        }
    }

    /// Removes every entry after `last` (every entry when `last` is absent).
    pub fn truncate_after(&mut self, last: Option<LogId>)
        requires
            last matches Some(id) ==> id.index < u64::MAX,
        ensures
            final(self)@.entries == select(
                old(self)@.entries,
                IndexBound::Unbounded,
                IndexBound::Excluded(truncate_start(last) as u64),
            ),
            final(self)@.last_purged == old(self)@.last_purged,
            final(self)@.committed == old(self)@.committed,
            final(self)@.vote == old(self)@.vote,
    {
        proof {
            use_type_invariant(&*self);
        }
        let start: u64 = match last {
            Some(id) => id.index + 1,
            None => 0,
        };
        let kept = copy_range(&self.entries, IndexBound::Unbounded, IndexBound::Excluded(start));
        proof {
            lemma_filter_sorted(self@.entries, IndexBound::Unbounded, IndexBound::Excluded(start));
        }
        self.entries = kept;
    }

    /// Purges every entry up to and including `id` and records `id` as the
    /// last purged log id; purging never moves backwards.
    pub fn purge(&mut self, id: LogId)
        requires
            opt_log_id_le(old(self)@.last_purged, Some(id)),
        ensures
            final(self)@.last_purged == Some(id),
            final(self)@.entries == select(
                old(self)@.entries,
                IndexBound::Excluded(id.index),
                IndexBound::Unbounded,
            ),
            final(self)@.committed == old(self)@.committed,
            final(self)@.vote == old(self)@.vote,
    {
        proof {
            use_type_invariant(&*self);
        }
        self.last_purged = Some(id);
        let kept = copy_range(&self.entries, IndexBound::Excluded(id.index), IndexBound::Unbounded);
        proof {
            lemma_filter_sorted(self@.entries, IndexBound::Excluded(id.index), IndexBound::Unbounded);
        }
        self.entries = kept;
    }

    /// The last purged log id and the last log id.
    pub fn log_state(&self) -> (r: (Option<LogId>, Option<LogId>))
        ensures
            r == log_state_of(self@),
    {
        let n = self.entries.len();
        let last = if n > 0 {
            Some(self.entries[n - 1].log_id)
        } else {
            self.last_purged
        };
        (self.last_purged, last)
    }

    /// Copies of the stored entries whose index lies in `(lo, hi)`, in index
    /// order.
    pub fn entries_in(&self, lo: IndexBound, hi: IndexBound) -> (r: Vec<LogRecord>)
        requires
            !range_is_malformed(lo, hi),
        ensures
            records_view(r@) == select(self@.entries, lo, hi),
    {
        copy_range(&self.entries, lo, hi)
    }

    /// Records the committed log id.
    pub fn save_committed(&mut self, committed: Option<LogId>)
        ensures
            final(self)@ == (RaftLogState { committed, ..old(self)@ }),
    {
        proof {
            use_type_invariant(&*self);
        }
        self.committed = committed;
    }

    /// The committed log id last saved.
    pub fn committed(&self) -> (r: Option<LogId>)
        ensures
            r == self@.committed,
    {
        self.committed
    }

    /// Records the vote.
    pub fn save_vote(&mut self, vote: Vote)
        ensures
            final(self)@ == (RaftLogState { vote: Some(vote), ..old(self)@ }),
    {
        proof {
            use_type_invariant(&*self);
        }
        self.vote = Some(vote);
    }

    /// The vote last saved.
    pub fn vote(&self) -> (r: Option<Vote>)
        ensures
            r == self@.vote,
    {
        self.vote
    }

    /// The last purged log id.
    pub fn last_purged(&self) -> (r: Option<LogId>)
        ensures
            r == self@.last_purged,
    {
        self.last_purged
    }
}

/// A read gives back what an append wrote: right after inserting an entry,
/// selecting its index yields exactly that entry.
pub proof fn law_read_after_append(s: Seq<(LogId, Seq<u8>)>, e: (LogId, Seq<u8>))
    requires
        sorted_by_index(s),
    ensures
        select(
            insert_by_index(s, e),
            IndexBound::Included(e.0.index),
            IndexBound::Included(e.0.index),
        ) == seq![e],
{
    let k = e.0.index;
    let p = |x: (LogId, Seq<u8>)| in_range(x.0.index, IndexBound::Included(k), IndexBound::Included(k));
    let l = select(s, IndexBound::Unbounded, IndexBound::Excluded(k));
    let r = select(s, IndexBound::Excluded(k), IndexBound::Unbounded);
    lemma_filter_sorted(s, IndexBound::Unbounded, IndexBound::Excluded(k));
    lemma_filter_sorted(s, IndexBound::Excluded(k), IndexBound::Unbounded);
    assert forall|i: int| 0 <= i < l.len() implies !p(#[trigger] l[i]) by {
        assert(in_range(l[i].0.index, IndexBound::Unbounded, IndexBound::Excluded(k)));
    }
    lemma_filter_none(l, p);
    assert forall|i: int| 0 <= i < r.len() implies !p(#[trigger] r[i]) by {
        assert(in_range(r[i].0.index, IndexBound::Excluded(k), IndexBound::Unbounded));
    }
    lemma_filter_none(r, p);
    lemma_filter_all(seq![e], p);
    Seq::filter_distributes_over_add(l + seq![e], r, p);
    Seq::filter_distributes_over_add(l, seq![e], p);
    assert(Seq::<(LogId, Seq<u8>)>::empty() + seq![e] + Seq::<(LogId, Seq<u8>)>::empty() =~= seq![e]);
}

/// Truncating after an entry keeps only entries up to it: no stored index
/// exceeds the truncation point, and every earlier entry stays.
pub proof fn law_truncate_keeps_prefix(s: Seq<(LogId, Seq<u8>)>, last: LogId)
    requires
        sorted_by_index(s),
        last.index < u64::MAX,
    ensures
        forall|i: int|
            0 <= i < select(s, IndexBound::Unbounded, IndexBound::Excluded((last.index + 1) as u64)).len()
                ==> #[trigger] select(
                s,
                IndexBound::Unbounded,
                IndexBound::Excluded((last.index + 1) as u64),
            )[i].0.index <= last.index,
        forall|i: int|
            0 <= i < s.len() && s[i].0.index <= last.index ==> select(
                s,
                IndexBound::Unbounded,
                IndexBound::Excluded((last.index + 1) as u64),
            ).contains(#[trigger] s[i]),
{
    let lo = IndexBound::Unbounded;
    let hi = IndexBound::Excluded((last.index + 1) as u64);
    lemma_filter_sorted(s, lo, hi);
    assert forall|i: int| 0 <= i < s.len() && s[i].0.index <= last.index implies select(s, lo, hi).contains(
        #[trigger] s[i],
    ) by {
        s.lemma_filter_contains(|e: (LogId, Seq<u8>)| in_range(e.0.index, lo, hi), i);
    }
}

/// After a purge no entry at or below the purged index is left, and the log's
/// last log id never falls below the purged one's index when it is empty.
pub proof fn law_purge_removes_prefix(s: RaftLogState, id: LogId)
    requires
        sorted_by_index(s.entries),
    ensures
        forall|i: int|
            0 <= i < select(s.entries, IndexBound::Excluded(id.index), IndexBound::Unbounded).len()
                ==> #[trigger] select(
                s.entries,
                IndexBound::Excluded(id.index),
                IndexBound::Unbounded,
            )[i].0.index > id.index,
        ({
            let after = RaftLogState {
                last_purged: Some(id),
                entries: select(s.entries, IndexBound::Excluded(id.index), IndexBound::Unbounded),
                ..s
            };
            after.entries.len() == 0 ==> log_state_of(after) == (Some(id), Some(id))
        }),
{
    lemma_filter_sorted(s.entries, IndexBound::Excluded(id.index), IndexBound::Unbounded);
}

} // verus!
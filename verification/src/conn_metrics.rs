//! Connection cardinality: distinct peer nodes with an open channel.
//!
//! Links are counted per node, never per Raft group: opening a channel to
//! the same peer from many groups counts once.

use std::collections::HashSet;
use vstd::prelude::*;

verus! {

/// The distinct peer node ids that have had a channel opened.
pub struct ConnMetrics {
    peers: HashSet<u64>,
}

impl View for ConnMetrics {
    type V = Set<u64>;

    closed spec fn view(&self) -> Set<u64> {
        self.peers@
    }
}

impl ConnMetrics {
    /// Finitely many peers are ever recorded.
    #[verifier::type_invariant]
    spec fn finitely_many(self) -> bool {
        self.peers@.finite()
    }

    /// No peers recorded.
    pub fn new() -> (r: ConnMetrics)
        ensures
            r@ == Set::<u64>::empty(),
    {
        ConnMetrics { peers: HashSet::new() }
    }

    /// Records an open channel to `peer`: the count rises by one exactly
    /// when the peer is new; recording the same peer again changes nothing.
    pub fn record_peer(&mut self, peer: u64)
        ensures
            final(self)@ == old(self)@.insert(peer),
            final(self)@.finite(),
            final(self)@.len() == old(self)@.len() + if old(self)@.contains(peer) {
                0int
            } else {
                1int
            },
    {
        proof {
            use_type_invariant(&*self);
        }
        let mut set: HashSet<u64> = HashSet::new();
        std::mem::swap(&mut set, &mut self.peers);
        set.insert(peer);
        self.peers = set;
    }

    /// The number of distinct peers recorded, finitely many.
    pub fn unique_peer_links(&self) -> (r: usize)
        ensures
            r == self@.len(),
            self@.finite(),
    {
        proof {
            use_type_invariant(self);
        }
        self.peers.len()
    }
}

/// The peers recorded by a sequence of channel openings.
pub open spec fn recorded(opened: Seq<u64>) -> Set<u64> {
    opened.to_set()
}

/// Links grow with nodes, not with groups: recording any number of
/// openings, however many go to the same peer, counts each distinct peer
/// once, so the count never exceeds the number of distinct peers.
pub proof fn law_links_count_distinct_peers(opened: Seq<u64>, peers: Set<u64>)
    requires
        peers.finite(),
        forall|i: int| 0 <= i < opened.len() ==> peers.contains(#[trigger] opened[i]),
    ensures
        recorded(opened).subset_of(peers),
        recorded(opened).len() <= peers.len(),
{
    assert(recorded(opened).subset_of(peers)) by {
        assert forall|x: u64| recorded(opened).contains(x) implies peers.contains(x) by {
            let i = choose|i: int| 0 <= i < opened.len() && opened[i] == x;
        }
    }
    vstd::set_lib::lemma_len_subset(recorded(opened), peers);
}

/// Opening the same peer again leaves the count unchanged.
pub proof fn law_repeat_open_is_noop(s: Set<u64>, peer: u64)
    ensures
        s.insert(peer).insert(peer) == s.insert(peer),
{
    assert(s.insert(peer).insert(peer) =~= s.insert(peer));
}

} // verus!

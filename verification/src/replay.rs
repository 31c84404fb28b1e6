use std::collections::HashSet;
use std::collections::VecDeque;
use vstd::prelude::*;
use vstd::std_specs::hash::group_hash_axioms;

verus! {

broadcast use group_hash_axioms;

/// How far back (seconds) an accepted sequence number is remembered.
pub const P2P_REPLAY_WINDOW_SECS: u64 = 300;

/// Most sequence numbers remembered at once.
pub const P2P_REPLAY_CACHE_LIMIT: usize = 4096;

/// Seconds from `t` to `now`, zero when `t` is later.
pub open spec fn age_secs(now: u64, t: u64) -> int {
    if now >= t {
        now - t
    } else {
        0
    }
}

/// Drops leading entries whose timestamp is older than the window.
pub open spec fn drop_stale(s: Seq<(u64, u64)>, now: u64) -> Seq<(u64, u64)>
    decreases s.len(),
{
    if s.len() > 0 && age_secs(now, s[0].1) > P2P_REPLAY_WINDOW_SECS {
        drop_stale(s.drop_first(), now)
    } else {
        s
    }
}

/// Keeps only the newest entries up to the cache limit.
pub open spec fn trim_to_limit(s: Seq<(u64, u64)>) -> Seq<(u64, u64)> {
    if s.len() > P2P_REPLAY_CACHE_LIMIT {
        s.subrange(s.len() - P2P_REPLAY_CACHE_LIMIT, s.len() as int)
    } else {
        s
    }
}

/// The remembered entries after pruning at `now`.
pub open spec fn prune_replay(s: Seq<(u64, u64)>, now: u64) -> Seq<(u64, u64)> {
    trim_to_limit(drop_stale(s, now))
}

/// Whether sequence number `seq` is remembered.
pub open spec fn remembers(s: Seq<(u64, u64)>, seq: u64) -> bool {
    exists|i: int| 0 <= i < s.len() && s[i].0 == seq
}

/// What accepting `seq` stamped `timestamp` at `now` leaves remembered, and
/// whether it is accepted.
pub open spec fn accept_seq_spec(s: Seq<(u64, u64)>, seq: u64, timestamp: u64, now: u64) -> (
    Seq<(u64, u64)>,
    bool,
) {
    let p = prune_replay(s, now);
    if remembers(p, seq) {
        (p, false)
    } else {
        (prune_replay(p.push((seq, timestamp)), now), true)
    }
}

/// The sequence numbers of signed data-plane envelopes seen recently, so
/// that a replayed envelope is refused.
pub struct P2PReplayWindow {
    seen: HashSet<u64>,
    order: VecDeque<(u64, u64)>,
}

impl View for P2PReplayWindow {
    type V = Seq<(u64, u64)>;

    closed spec fn view(&self) -> Seq<(u64, u64)> {
        self.order@
    }
}

impl P2PReplayWindow {
    /// The set mirrors the queue, and a sequence number occurs once in it.
    pub closed spec fn wf(&self) -> bool {
        &&& forall|x: u64| #[trigger] self.seen@.contains(x) <==> remembers(self.order@, x)
        &&& forall|i: int, j: int|
            0 <= i < self.order@.len() && 0 <= j < self.order@.len() && #[trigger] self.order@[i].0
                == #[trigger] self.order@[j].0 ==> i == j
    }

    /// An empty window.
    pub fn new() -> (r: Self)
        ensures
            r.wf(),
            r@.len() == 0,
    {
        P2PReplayWindow { seen: HashSet::new(), order: VecDeque::new() }
    }

    fn pop_oldest(&mut self)
        requires
            old(self).wf(),
            old(self)@.len() > 0,
        ensures
            final(self).wf(),
            final(self)@ == old(self)@.drop_first(),
    {
        let ghost o = self.order@;
        let front = self.order.pop_front();
        match front {
            Some((seq, _ts)) => {
                self.seen.remove(&seq);
                assert(self.order@ =~= o.drop_first());
                assert forall|x: u64| #[trigger] self.seen@.contains(x) <==> remembers(
                    self.order@,
                    x,
                ) by {
                    if remembers(self.order@, x) {
                        let i = choose|i: int| 0 <= i < self.order@.len() && self.order@[i].0 == x;
                        assert(o[i + 1].0 == x);
                        assert(o[0].0 == seq);
                    }
                    if remembers(o, x) && x != seq {
                        let i = choose|i: int| 0 <= i < o.len() && o[i].0 == x;
                        assert(i != 0);
                        assert(self.order@[i - 1].0 == x);
                    }
                }
                assert forall|i: int, j: int|
                    0 <= i < self.order@.len() && 0 <= j < self.order@.len()
                        && #[trigger] self.order@[i].0 == #[trigger] self.order@[j].0 implies i
                    == j by {
                    assert(o[i + 1].0 == o[j + 1].0);
                }
            },
            None => {},
        }
    }

    /// Forgets entries older than the window, then the oldest entries
    /// beyond the cache limit.
    pub fn prune(&mut self, now: u64)
        requires
            old(self).wf(),
        ensures
            final(self).wf(),
            final(self)@ == prune_replay(old(self)@, now),
    {
        let ghost orig = self@;
        loop
            invariant
                self.wf(),
                drop_stale(self@, now) == drop_stale(orig, now),
            ensures
                self.wf(),
                self@ == drop_stale(orig, now),
            decreases self@.len(),
        {
            if self.order.len() == 0 {
                break;
            }
            let (_seq, ts) = self.order[0];
            let age = if now >= ts {
                now - ts
            } else {
                0
            };
            if age <= P2P_REPLAY_WINDOW_SECS {
                break;
            }
            self.pop_oldest();
        }
        let ghost fresh = self@;
        while self.order.len() > P2P_REPLAY_CACHE_LIMIT
            invariant
                self.wf(),
                fresh.len() >= self@.len(),
                self@.len() >= P2P_REPLAY_CACHE_LIMIT || self@.len() == fresh.len(),
                self@ == fresh.subrange(fresh.len() - self@.len(), fresh.len() as int),
            decreases self@.len(),
        {
            self.pop_oldest();
        }
        assert(self@ =~= trim_to_limit(fresh));
    }

    /// Accepts sequence number `seq` (stamped `timestamp`) unless it is
    /// still remembered after pruning at `now`; an accepted number is then
    /// remembered.
    pub fn accept_tcp_seq(&mut self, seq: u64, timestamp: u64, now: u64) -> (r: bool)
        requires
            old(self).wf(),
        ensures
            final(self).wf(),
            (final(self)@, r) == accept_seq_spec(old(self)@, seq, timestamp, now),
    {
        self.prune(now);
        if self.seen.contains(&seq) {
            return false;
        }
        let ghost p = self.order@;
        self.seen.insert(seq);
        self.order.push_back((seq, timestamp));
        assert forall|x: u64| #[trigger] self.seen@.contains(x) <==> remembers(self.order@, x) by {
            if remembers(self.order@, x) && x != seq {
                let i = choose|i: int| 0 <= i < self.order@.len() && self.order@[i].0 == x;
                assert(i < p.len());
                assert(p[i].0 == x);
            }
            if x == seq {
                assert(self.order@[p.len() as int].0 == seq);
            }
            if remembers(p, x) {
                let i = choose|i: int| 0 <= i < p.len() && p[i].0 == x;
                assert(self.order@[i].0 == x);
            }
        }
        assert forall|i: int, j: int|
            0 <= i < self.order@.len() && 0 <= j < self.order@.len() && #[trigger] self.order@[i].0
                == #[trigger] self.order@[j].0 implies i == j by {
            if i < p.len() && j == p.len() {
                assert(!remembers(p, seq));
                assert(p[i].0 == seq);
            }
            if j < p.len() && i == p.len() {
                assert(p[j].0 == seq);
            }
        }
        self.prune(now);
        true
    }
}

proof fn lemma_drop_stale_keeps_fresh_last(s: Seq<(u64, u64)>, now: u64)
    requires
        s.len() > 0,
        age_secs(now, s.last().1) <= P2P_REPLAY_WINDOW_SECS,
    ensures
        drop_stale(s, now).len() > 0,
        drop_stale(s, now).last() == s.last(),
    decreases s.len(),
{
    if age_secs(now, s[0].1) > P2P_REPLAY_WINDOW_SECS {
        assert(s.len() > 1);
        assert(s.drop_first().last() == s.last());
        lemma_drop_stale_keeps_fresh_last(s.drop_first(), now);
    }
}

proof fn lemma_prune_keeps_fresh_last(s: Seq<(u64, u64)>, now: u64)
    requires
        s.len() > 0,
        age_secs(now, s.last().1) <= P2P_REPLAY_WINDOW_SECS,
    ensures
        prune_replay(s, now).len() > 0,
        prune_replay(s, now).last() == s.last(),
{
    lemma_drop_stale_keeps_fresh_last(s, now);
}

/// A sequence number accepted with a timestamp inside the window is refused
/// when it is offered again at the same time.
pub proof fn lemma_replay_refused(
    s: Seq<(u64, u64)>,
    seq: u64,
    timestamp: u64,
    timestamp2: u64,
    now: u64,
)
    requires
        accept_seq_spec(s, seq, timestamp, now).1,
        age_secs(now, timestamp) <= P2P_REPLAY_WINDOW_SECS,
    ensures
        !accept_seq_spec(accept_seq_spec(s, seq, timestamp, now).0, seq, timestamp2, now).1,
{
    let p = prune_replay(s, now);
    let s1 = prune_replay(p.push((seq, timestamp)), now);
    lemma_prune_keeps_fresh_last(p.push((seq, timestamp)), now);
    lemma_prune_keeps_fresh_last(s1, now);
    let p2 = prune_replay(s1, now);
    assert(p2[p2.len() - 1].0 == seq);
}

} // verus!

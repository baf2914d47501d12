//! When the peers a gateway has seen time out.
//!
//! Each peer's latest state message gives it a timeout; the timeouts are
//! kept sorted, one per peer. A goodbye removes the peer at once, and the
//! peers whose timeouts have passed are pruned together. Times are
//! microseconds on the caller's monotonic clock.
use vstd::prelude::*;

use crate::link::node::NodeId;
use crate::seqs::{
    first_index, lemma_filter_pairwise, lemma_filter_step, lemma_first_index_prefix,
    lemma_first_index_spec, lemma_first_index_step,
};

verus! {

/// The longest time to live a peer's state message is granted, in seconds.
pub const MAX_PEER_TTL_SECONDS: u8 = 3;

/// How long after a timeout the pruning runs, in microseconds.
pub const PRUNE_DELAY_MICROS: u64 = 100_000;

/// A peer's timeout: when it expires, and which peer.
pub type PeerTimeout = (u64, NodeId);

/// Each timeout comes no later than the ones after it.
pub open spec fn sorted_by_timeout(s: Seq<PeerTimeout>) -> bool {
    forall|a: int, b: int| 0 <= a < b < s.len() ==> (#[trigger] s[a]).0 <= (#[trigger] s[b]).0
}

/// No peer has two timeouts.
pub open spec fn one_timeout_per_peer(s: Seq<PeerTimeout>) -> bool {
    forall|a: int, b: int| 0 <= a < b < s.len() ==> (#[trigger] s[a]).1 != (#[trigger] s[b]).1
}

/// The invariant of the timeouts: sorted, one per peer, and each late
/// enough to be scheduled.
pub open spec fn timeouts_wf(s: Seq<PeerTimeout>) -> bool {
    &&& sorted_by_timeout(s)
    &&& one_timeout_per_peer(s)
    &&& forall|i: int| 0 <= i < s.len() ==> (#[trigger] s[i]).0 + PRUNE_DELAY_MICROS <= u64::MAX
}

pub open spec fn not_before(t: u64) -> spec_fn(PeerTimeout) -> bool {
    |x: PeerTimeout| x.0 >= t
}

pub open spec fn other_than(peer: NodeId) -> spec_fn(PeerTimeout) -> bool {
    |x: PeerTimeout| x.1 != peer
}

/// The number of leading timeouts of `s` that come before `t`: up to the
/// first one that does not.
pub open spec fn count_before(s: Seq<PeerTimeout>, t: u64) -> int {
    match first_index(s, not_before(t)) {
        Some(i) => i,
        None => s.len() as int,
    }
}

/// The timeouts of the peers a gateway has seen.
#[derive(Debug)]
pub struct PeerTimeouts {
    timeouts: Vec<PeerTimeout>,
}

impl View for PeerTimeouts {
    type V = Seq<PeerTimeout>;

    closed spec fn view(&self) -> Seq<PeerTimeout> {
        self.timeouts@
    }
}

/// Removing timeouts keeps the invariant.
pub proof fn lemma_removal_keeps_timeouts_wf(s: Seq<PeerTimeout>, p: spec_fn(PeerTimeout) -> bool)
    requires
        timeouts_wf(s),
    ensures
        timeouts_wf(s.filter(p)),
{
    broadcast use vstd::seq_lib::group_filter_ensures;

    lemma_filter_pairwise(s, p, |x: PeerTimeout, y: PeerTimeout| x.0 <= y.0);
    lemma_filter_pairwise(s, p, |x: PeerTimeout, y: PeerTimeout| x.1 != y.1);
    assert forall|i: int| 0 <= i < s.filter(p).len() implies (#[trigger] s.filter(p)[i]).0
        + PRUNE_DELAY_MICROS <= u64::MAX by {
        let x = s.filter(p)[i];
        assert(s.filter(p).contains(x));
        s.lemma_filter_contains_rev(p, x);
    }
}

impl PeerTimeouts {
    pub fn new() -> (t: Self)
        ensures
            t@ == Seq::<PeerTimeout>::empty(),
    {
        PeerTimeouts { timeouts: Vec::new() }
    }

    /// The number of leading timeouts that come before `t`.
    fn count_before(&self, t: u64) -> (n: usize)
        ensures
            n == count_before(self@, t),
            n <= self@.len(),
    {
        let ghost s = self@;
        let ghost p = not_before(t);
        let mut i: usize = 0;
        while i < self.timeouts.len() && self.timeouts[i].0 < t
            invariant
                i <= s.len(),
                s == self@,
                p == not_before(t),
                first_index(s.take(i as int), p) is None,
            decreases self.timeouts.len() - i,
        {
            proof {
                lemma_first_index_step(s, p, i as int);
            }
            i = i + 1;
        }
        proof {
            if i < s.len() {
                lemma_first_index_step(s, p, i as int);
                lemma_first_index_prefix(s, p, i + 1);
            } else {
                assert(s.take(s.len() as int) =~= s);
            }
        }
        i
    }

    /// Drops the timeout of `peer`.
    fn remove(&mut self, peer: &NodeId)
        ensures
            final(self)@ == old(self)@.filter(other_than(*peer)),
    {
        let ghost s = self@;
        let ghost p = other_than(*peer);
        let mut out: Vec<PeerTimeout> = Vec::new();
        let mut i: usize = 0;
        while i < self.timeouts.len()
            invariant
                i <= s.len(),
                s == self@,
                p == other_than(*peer),
                out@ == s.take(i as int).filter(p),
            decreases self.timeouts.len() - i,
        {
            proof {
                lemma_filter_step(s, p, i as int);
            }
            let x = self.timeouts[i];
            if !(x.1 == *peer) {
                out.push(x);
            }
            i = i + 1;
        }
        proof {
            assert(s.take(s.len() as int) =~= s);
        }
        self.timeouts = out;
    }

    /// Takes in a state message of `peer` with a time to live of `ttl`
    /// seconds, received at time `now`: its timeout becomes `now` plus the
    /// time to live, capped at three seconds, placed before the first
    /// timeout that is not earlier.
    pub fn on_peer_state(&mut self, peer: NodeId, ttl: u8, now: u64)
        requires
            now + MAX_PEER_TTL_SECONDS * 1_000_000 + PRUNE_DELAY_MICROS <= u64::MAX,
        ensures
            ({
                let rest = old(self)@.filter(other_than(peer));
                let t = (now + (if ttl < MAX_PEER_TTL_SECONDS {
                    ttl
                } else {
                    MAX_PEER_TTL_SECONDS
                }) * 1_000_000) as u64;
                final(self)@ == rest.insert(count_before(rest, t), (t, peer))
            }),
            timeouts_wf(old(self)@) ==> timeouts_wf(final(self)@),
    {
        self.remove(&peer);
        let ghost rest = self@;
        let seconds: u8 = if ttl < MAX_PEER_TTL_SECONDS {
            ttl
        } else {
            MAX_PEER_TTL_SECONDS
        };
        let t: u64 = now + (seconds as u64) * 1_000_000;
        let i = self.count_before(t);
        self.timeouts.insert(i, (t, peer));
        proof {
            if timeouts_wf(old(self)@) {
                lemma_removal_keeps_timeouts_wf(old(self)@, other_than(peer));
                let p = not_before(t);
                lemma_first_index_spec(rest, p);
                let u = self@;
                assert forall|a: int, b: int| 0 <= a < b < u.len() implies (#[trigger] u[a]).0 <= (
                #[trigger] u[b]).0 by {
                    if b < i {
                    } else if b == i {
                        assert(!p(rest[a]));
                    } else if a < i {
                        assert(!p(rest[a]));
                        if i < rest.len() {
                            assert(rest[b - 1].0 >= rest[i as int].0);
                        }
                    } else if a == i {
                        assert(rest[b - 1].0 >= rest[i as int].0);
                    } else {
                        assert(rest[a - 1].0 <= rest[b - 1].0);
                    }
                }
                assert forall|a: int, b: int| 0 <= a < b < u.len() implies (#[trigger] u[a]).1 != (
                #[trigger] u[b]).1 by {
                    broadcast use vstd::seq_lib::group_filter_ensures;

                    if a == i {
                        assert((other_than(peer))(rest[b - 1]));
                    } else if b == i {
                        assert((other_than(peer))(rest[a]));
                    }
                }
            }
        }
    }

    /// Takes in a goodbye from `peer`: returns whether the peer was known,
    /// and forgets it.
    pub fn on_byebye(&mut self, peer: NodeId) -> (known: bool)
        ensures
            known == exists|i: int| 0 <= i < old(self)@.len() && (#[trigger] old(self)@[i]).1 == peer,
            final(self)@ == old(self)@.filter(other_than(peer)),
            timeouts_wf(old(self)@) ==> timeouts_wf(final(self)@),
    {
        let known = self.find_peer(&peer);
        if known {
            self.remove(&peer);
        } else {
            proof {
                lemma_filter_all(old(self)@, other_than(peer));
            }
        }
        proof {
            if timeouts_wf(old(self)@) {
                lemma_removal_keeps_timeouts_wf(old(self)@, other_than(peer));
            }
        }
        known
    }

    /// Whether `peer` has a timeout.
    pub fn find_peer(&self, peer: &NodeId) -> (found: bool)
        ensures
            found == exists|i: int| 0 <= i < self@.len() && (#[trigger] self@[i]).1 == *peer,
    {
        let mut i: usize = 0;
        while i < self.timeouts.len()
            invariant
                i <= self@.len(),
                forall|j: int| 0 <= j < i ==> (#[trigger] self@[j]).1 != *peer,
            decreases self.timeouts.len() - i,
        {
            if self.timeouts[i].1 == *peer {
                assert(self@[i as int].1 == *peer);
                return true;
            }
            i = i + 1;
        }
        false
    }

    /// The next pruning: when it runs, and the peer whose timeout it is
    /// for; or none if no peer is known.
    pub fn next_pruning(&self) -> (r: Option<PeerTimeout>)
        requires
            timeouts_wf(self@),
        ensures
            self@.len() == 0 ==> r is None,
            self@.len() > 0 ==> r == Some(((self@[0].0 + PRUNE_DELAY_MICROS) as u64, self@[0].1)),
    {
        if self.timeouts.len() == 0 {
            None
        } else {
            let (t, peer) = self.timeouts[0];
            Some((t + PRUNE_DELAY_MICROS, peer))
        }
    }

    /// Removes and returns, in order, the leading timeouts that come before
    /// `now`.
    pub fn prune_expired(&mut self, now: u64) -> (expired: Vec<PeerTimeout>)
        ensures
            expired@ == old(self)@.take(count_before(old(self)@, now)),
            final(self)@ == old(self)@.skip(count_before(old(self)@, now)),
            timeouts_wf(old(self)@) ==> timeouts_wf(final(self)@),
            timeouts_wf(old(self)@) ==> forall|i: int|
                0 <= i < final(self)@.len() ==> (#[trigger] final(self)@[i]).0 >= now,
            forall|i: int| 0 <= i < expired@.len() ==> (#[trigger] expired@[i]).0 < now,
    {
        let k = self.count_before(now);
        let ghost s = self@;
        proof {
            lemma_first_index_spec(s, not_before(now));
        }
        let mut expired: Vec<PeerTimeout> = Vec::new();
        let mut rest: Vec<PeerTimeout> = Vec::new();
        let mut i: usize = 0;
        while i < self.timeouts.len()
            invariant
                i <= s.len(),
                k <= s.len(),
                s == self@,
                expired@ == s.take(if i < k {
                    i as int
                } else {
                    k as int
                }),
                rest@ == if i < k {
                    Seq::<PeerTimeout>::empty()
                } else {
                    s.subrange(k as int, i as int)
                },
            decreases self.timeouts.len() - i,
        {
            let x = self.timeouts[i];
            if i < k {
                expired.push(x);
                assert(s.take(i + 1) =~= s.take(i as int).push(x));
            } else {
                rest.push(x);
                assert(s.subrange(k as int, i + 1) =~= s.subrange(k as int, i as int).push(x));
            }
            i = i + 1;
        }
        proof {
            assert(s.subrange(k as int, s.len() as int) =~= s.skip(k as int));
            if k == s.len() {
                assert(s.skip(k as int) =~= Seq::<PeerTimeout>::empty());
            }
            if timeouts_wf(s) {
                let r = s.skip(k as int);
                assert forall|i: int| 0 <= i < r.len() implies (#[trigger] r[i]).0 >= now by {
                    assert(r[i] == s[i + k]);
                    assert(s[k as int].0 >= now);
                }
                assert forall|a: int, b: int| 0 <= a < b < r.len() implies (#[trigger] r[a]).0 <= (
                #[trigger] r[b]).0 by {
                    assert(r[a] == s[a + k] && r[b] == s[b + k]);
                }
                assert forall|a: int, b: int| 0 <= a < b < r.len() implies (#[trigger] r[a]).1 != (
                #[trigger] r[b]).1 by {
                    assert(r[a] == s[a + k] && r[b] == s[b + k]);
                }
                assert forall|i: int| 0 <= i < r.len() implies (#[trigger] r[i]).0 + PRUNE_DELAY_MICROS
                    <= u64::MAX by {
                    assert(r[i] == s[i + k]);
                }
            }
        }
        self.timeouts = rest;
        expired
    }

    pub fn is_empty(&self) -> (r: bool)
        ensures
            r == (self@.len() == 0),
    {
        self.timeouts.len() == 0
    }
}

impl Default for PeerTimeouts {
    fn default() -> (t: Self)
        ensures
            t@ == Seq::<PeerTimeout>::empty(),
    {
        PeerTimeouts::new()
    }
}

/// Filtering by a predicate that every element satisfies keeps them all.
proof fn lemma_filter_all<A>(s: Seq<A>, p: spec_fn(A) -> bool)
    requires
        forall|i: int| 0 <= i < s.len() ==> p(#[trigger] s[i]),
    ensures
        s.filter(p) == s,
    decreases s.len(),
{
    reveal(Seq::filter);
    if s.len() > 0 {
        lemma_filter_all(s.drop_last(), p);
        assert(s.drop_last().push(s.last()) =~= s);
    }
}

} // verus!

//! Round-trip times kept to estimate the network quality of a peer.
//!
//! Each announcement carries a ping; the matching pong yields a round-trip
//! time, in microseconds. The filter keeps a sliding window of the last
//! `MAX_SIZE` of them, from which the quality score is computed.
use vstd::prelude::*;

verus! {

/// How many round-trip times the window holds.
pub const MAX_SIZE: usize = 10;

/// The ten slots after the round-trip times `h` were pushed, in order, into
/// an empty filter: each push takes the next slot, round and round.
pub open spec fn slots_after(h: Seq<i64>) -> Seq<i64>
    decreases h.len(),
{
    if h.len() == 0 {
        Seq::new(10, |j: int| 0i64)
    } else {
        slots_after(h.drop_last()).update((h.len() - 1) % 10, h.last())
    }
}

/// The index in `h` of the push that slot `j` last took, when `n` times
/// have been pushed and `j < n`.
pub open spec fn last_push_into(n: int, j: int) -> int {
    n - 1 - (n - 1 - j) % 10
}

/// A sliding window of the last `MAX_SIZE` round-trip times.
pub struct NetworkMetricsFilter {
    ping_pong_times: [i64; 10],
    current_index: usize,
    count: usize,
    pushed: Ghost<Seq<i64>>,
}

impl NetworkMetricsFilter {
    /// The round-trip times pushed so far, oldest first.
    pub closed spec fn history(&self) -> Seq<i64> {
        self.pushed@
    }

    /// The invariant: the slots are what the pushes put there.
    pub closed spec fn wf(&self) -> bool {
        &&& self.ping_pong_times@ == slots_after(self.pushed@)
        &&& self.current_index == self.pushed@.len() % 10
        &&& self.count == if self.pushed@.len() < 10 {
            self.pushed@.len()
        } else {
            10
        }
    }

    pub fn new() -> (f: Self)
        ensures
            f.wf(),
            f.history() == Seq::<i64>::empty(),
    {
        let f = NetworkMetricsFilter {
            ping_pong_times: [0i64; 10],
            current_index: 0,
            count: 0,
            pushed: Ghost(Seq::empty()),
        };
        assert(f.ping_pong_times@ =~= slots_after(Seq::<i64>::empty()));
        f
    }

    /// Records a round-trip time.
    pub fn push(&mut self, time: i64)
        requires
            old(self).wf(),
        ensures
            final(self).wf(),
            final(self).history() == old(self).history().push(time),
    {
        let ghost h = self.pushed@.push(time);
        self.ping_pong_times[self.current_index] = time;
        self.current_index = (self.current_index + 1) % MAX_SIZE;
        if self.count < MAX_SIZE {
            self.count = self.count + 1;
        }
        self.pushed = Ghost(h);
        proof {
            assert(h.drop_last() =~= old(self).pushed@);
            assert(self.ping_pong_times@ =~= slots_after(h));
        }
    }

    /// The number of round-trip times in the window.
    pub fn count(&self) -> (n: usize)
        requires
            self.wf(),
        ensures
            n == if self.history().len() < 10 {
                self.history().len()
            } else {
                10
            },
    {
        self.count
    }

    /// The round-trip times in the window, slot by slot.
    pub fn samples(&self) -> (v: Vec<i64>)
        requires
            self.wf(),
        ensures
            v@ == slots_after(self.history()).take(
                if self.history().len() < 10 {
                    self.history().len() as int
                } else {
                    10
                },
            ),
    {
        let mut v: Vec<i64> = Vec::new();
        let mut i: usize = 0;
        while i < self.count
            invariant
                i <= self.count <= 10,
                self.wf(),
                v@ == self.ping_pong_times@.take(i as int),
            decreases self.count - i,
        {
            v.push(self.ping_pong_times[i]);
            assert(self.ping_pong_times@.take(i + 1) =~= self.ping_pong_times@.take(i as int).push(
                self.ping_pong_times@[i as int],
            ));
            i = i + 1;
        }
        v
    }
}

impl Clone for NetworkMetricsFilter {
    fn clone(&self) -> (c: Self)
        ensures
            c.history() == self.history(),
            c.wf() == self.wf(),
    {
        NetworkMetricsFilter {
            ping_pong_times: self.ping_pong_times,
            current_index: self.current_index,
            count: self.count,
            pushed: Ghost(self.pushed@),
        }
    }
}

impl Default for NetworkMetricsFilter {
    fn default() -> (f: Self)
        ensures
            f.wf(),
            f.history() == Seq::<i64>::empty(),
    {
        NetworkMetricsFilter::new()
    }
}

/// The window is the last ten pushes: after the times `h` were pushed, slot
/// `j` holds the latest of them that went to it, which is among the last
/// ten, and the slots not yet reached hold zero.
pub proof fn lemma_window_is_recent(h: Seq<i64>)
    ensures
        slots_after(h).len() == 10,
        forall|j: int|
            0 <= j < 10 ==> #[trigger] slots_after(h)[j] == if j < h.len() {
                h[last_push_into(h.len() as int, j)]
            } else {
                0
            },
        forall|j: int|
            0 <= j < 10 && j < h.len() ==> h.len() - 10 <= #[trigger] last_push_into(h.len() as int, j)
                < h.len(),
    decreases h.len(),
{
    if h.len() > 0 {
        let d = h.drop_last();
        let n = h.len() as int;
        lemma_window_is_recent(d);
        assert forall|j: int| 0 <= j < 10 implies #[trigger] slots_after(h)[j] == if j < h.len() {
            h[last_push_into(n, j)]
        } else {
            0
        } by {
            if j == (n - 1) % 10 {
                assert((n - 1 - j) % 10 == 0);
            } else if j < n {
                assert(j < n - 1);
                assert((n - 1 - j) % 10 == (n - 2 - j) % 10 + 1);
                assert(d[last_push_into(n - 1, j)] == h[last_push_into(n, j)]);
            }
        }
    }
}

} // verus!

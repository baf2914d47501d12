//! The set of peers currently requesting a sink's channel.
//!
//! Requests carry a time to live and are refreshed periodically by the
//! requesting peer; entries that are not refreshed in time are pruned. The
//! set is kept sorted by expiry, with one entry per peer. Times are
//! microseconds on the caller's monotonic clock.
use vstd::prelude::*;

use crate::link::measurement::Ipv4Endpoint;
use crate::link::node::NodeId;
use crate::seqs::{
    first_index, lemma_filter_pairwise, lemma_filter_step, lemma_first_index_prefix,
    lemma_first_index_spec, lemma_first_index_step,
};

use super::channels::{contains_id, MICROS_PER_SECOND, PRUNE_PADDING_MICROS};
use super::payload::{ChannelRequest, ChannelStopRequest, Id};

verus! {

/// A peer that requested the channel: where to send to it, if known, and
/// when its request expires.
#[derive(Debug, Clone, Copy)]
pub struct Receiver {
    pub peer_id: Id,
    pub endpoint: Option<Ipv4Endpoint>,
    pub expires_at: u64,
}

/// Each receiver expires no later than the ones after it.
pub open spec fn sorted_by_expiry(s: Seq<Receiver>) -> bool {
    forall|a: int, b: int| 0 <= a < b < s.len() ==> (#[trigger] s[a]).expires_at <= (#[trigger] s[b]).expires_at
}

/// No peer has two receivers.
pub open spec fn one_per_peer(s: Seq<Receiver>) -> bool {
    forall|a: int, b: int| 0 <= a < b < s.len() ==> (#[trigger] s[a]).peer_id != (#[trigger] s[b]).peer_id
}

/// The invariant of a set of receivers.
pub open spec fn receivers_wf(s: Seq<Receiver>) -> bool {
    sorted_by_expiry(s) && one_per_peer(s)
}

pub open spec fn expires_after(e: u64) -> spec_fn(Receiver) -> bool {
    |r: Receiver| r.expires_at > e
}

/// Where a receiver that expires at `e` goes: after every receiver that
/// expires no later.
pub open spec fn insertion_point(s: Seq<Receiver>, e: u64) -> int {
    match first_index(s, expires_after(e)) {
        Some(i) => i,
        None => s.len() as int,
    }
}

pub open spec fn other_peer(peer: NodeId) -> spec_fn(Receiver) -> bool {
    |r: Receiver| r.peer_id != peer
}

/// The endpoints of the receivers that have one, in order.
pub open spec fn endpoints_of(s: Seq<Receiver>) -> Seq<Ipv4Endpoint>
    decreases s.len(),
{
    if s.len() == 0 {
        seq![]
    } else {
        match s.last().endpoint {
            Some(e) => endpoints_of(s.drop_last()).push(e),
            None => endpoints_of(s.drop_last()),
        }
    }
}

/// The receivers with the endpoint of `peer` replaced by `endpoint`.
pub open spec fn with_endpoint(s: Seq<Receiver>, peer: NodeId, endpoint: Option<Ipv4Endpoint>) -> Seq<Receiver> {
    s.map_values(
        |r: Receiver|
            if r.peer_id == peer {
                Receiver { peer_id: r.peer_id, endpoint, expires_at: r.expires_at }
            } else {
                r
            },
    )
}

/// Which receivers a removal keeps.
enum Keep<'a> {
    OtherThan(Id),
    NotExpired(u64),
    OfPeers(&'a [Id]),
}

impl<'a> Keep<'a> {
    spec fn pred(&self) -> spec_fn(Receiver) -> bool {
        match *self {
            Keep::OtherThan(peer) => other_peer(peer),
            Keep::NotExpired(now) => |r: Receiver| r.expires_at + PRUNE_PADDING_MICROS > now,
            Keep::OfPeers(peers) => |r: Receiver| peers@.contains(r.peer_id),
        }
    }

    fn keeps(&self, r: &Receiver) -> (b: bool)
        ensures
            b == (self.pred())(*r),
    {
        match self {
            Keep::OtherThan(peer) => !(r.peer_id == *peer),
            Keep::NotExpired(now) => r.expires_at > *now || *now - r.expires_at < PRUNE_PADDING_MICROS,
            Keep::OfPeers(peers) => contains_id(peers, &r.peer_id),
        }
    }
}

/// The peers currently requesting a channel, sorted by expiry.
#[derive(Debug)]
pub struct Receivers {
    receivers: Vec<Receiver>,
}

impl View for Receivers {
    type V = Seq<Receiver>;

    closed spec fn view(&self) -> Seq<Receiver> {
        self.receivers@
    }
}

/// Removing receivers keeps the invariant.
pub proof fn lemma_removal_keeps_receivers_wf(s: Seq<Receiver>, p: spec_fn(Receiver) -> bool)
    requires
        receivers_wf(s),
    ensures
        receivers_wf(s.filter(p)),
{
    lemma_filter_pairwise(s, p, |x: Receiver, y: Receiver| x.expires_at <= y.expires_at);
    lemma_filter_pairwise(s, p, |x: Receiver, y: Receiver| x.peer_id != y.peer_id);
}

impl Receivers {
    pub fn new() -> (r: Self)
        ensures
            r@ == Seq::<Receiver>::empty(),
    {
        Receivers { receivers: Vec::new() }
    }

    /// Keeps the receivers that `rule` keeps, in order.
    fn retain(&mut self, rule: &Keep)
        ensures
            final(self)@ == old(self)@.filter(rule.pred()),
    {
        let ghost s = self@;
        let mut out: Vec<Receiver> = Vec::new();
        let mut i: usize = 0;
        while i < self.receivers.len()
            invariant
                i <= s.len(),
                s == self@,
                s == old(self)@,
                out@ == s.take(i as int).filter(rule.pred()),
            decreases self.receivers.len() - i,
        {
            proof {
                lemma_filter_step(s, rule.pred(), i as int);
            }
            let r = self.receivers[i];
            if rule.keeps(&r) {
                out.push(r);
            }
            i = i + 1;
        }
        proof {
            assert(s.take(s.len() as int) =~= s);
        }
        self.receivers = out;
    }

    /// Registers or refreshes the request of a peer, received at time `now`
    /// with a time to live of `ttl` seconds: any earlier request of the peer
    /// is dropped, and the new one goes after every receiver that expires no
    /// later. A repeated request refreshes, never duplicates: afterwards the
    /// peer has exactly one receiver, the new one, the receivers of other
    /// peers are those of before, in their order, and there is one receiver
    /// more only if the peer had none.
    pub fn receive_channel_request(
        &mut self,
        request: &ChannelRequest,
        ttl: u8,
        endpoint: Option<Ipv4Endpoint>,
        now: u64,
    )
        requires
            now + ttl * MICROS_PER_SECOND <= u64::MAX,
        ensures
            ({
                let rest = old(self)@.filter(other_peer(request.peer_id));
                let r = Receiver {
                    peer_id: request.peer_id,
                    endpoint,
                    expires_at: (now + ttl * MICROS_PER_SECOND) as u64,
                };
                final(self)@ == rest.insert(insertion_point(rest, r.expires_at), r)
            }),
            receivers_wf(old(self)@) ==> receivers_wf(final(self)@),
            receivers_wf(old(self)@) ==> ({
                let rest = old(self)@.filter(other_peer(request.peer_id));
                let k = insertion_point(rest, (now + ttl * MICROS_PER_SECOND) as u64);
                let t = final(self)@;
                &&& 0 <= k < t.len()
                &&& t[k] == (Receiver {
                    peer_id: request.peer_id,
                    endpoint,
                    expires_at: (now + ttl * MICROS_PER_SECOND) as u64,
                })
                &&& forall|i: int| 0 <= i < t.len() ==> ((#[trigger] t[i]).peer_id == request.peer_id <==> i == k)
                &&& t.remove(k) == rest
                &&& t.len() == old(self)@.len() + (if has_peer(old(self)@, request.peer_id) {
                    0int
                } else {
                    1int
                })
            }),
    {
        self.retain(&Keep::OtherThan(request.peer_id));
        let ghost rest = self@;
        let receiver = Receiver {
            peer_id: request.peer_id,
            endpoint,
            expires_at: now + (ttl as u64) * MICROS_PER_SECOND,
        };
        let ghost p = expires_after(receiver.expires_at);
        let mut index: usize = 0;
        while index < self.receivers.len() && self.receivers[index].expires_at <= receiver.expires_at
            invariant
                index <= rest.len(),
                rest == self@,
                p == expires_after(receiver.expires_at),
                first_index(rest.take(index as int), p) is None,
            decreases self.receivers.len() - index,
        {
            proof {
                lemma_first_index_step(rest, p, index as int);
            }
            index = index + 1;
        }
        proof {
            if index < rest.len() {
                lemma_first_index_step(rest, p, index as int);
                lemma_first_index_prefix(rest, p, index + 1);
            } else {
                assert(rest.take(rest.len() as int) =~= rest);
            }
            assert(insertion_point(rest, receiver.expires_at) == index);
        }
        self.receivers.insert(index, receiver);
        proof {
            if receivers_wf(old(self)@) {
                lemma_removal_keeps_receivers_wf(old(self)@, other_peer(request.peer_id));
                let t = self@;
                lemma_first_index_spec(rest, p);
                assert forall|a: int, b: int| 0 <= a < b < t.len() implies (#[trigger] t[a]).expires_at
                    <= (#[trigger] t[b]).expires_at by {
                    if b < index {
                    } else if b == index {
                        assert(!p(rest[a]));
                    } else if a < index {
                        assert(rest[b - 1].expires_at > receiver.expires_at || rest[b - 1].expires_at
                            >= rest[index as int].expires_at);
                        assert(!p(rest[a]));
                    } else if a == index {
                        assert(rest[b - 1].expires_at >= rest[index as int].expires_at);
                    } else {
                        assert(rest[a - 1].expires_at <= rest[b - 1].expires_at);
                    }
                }
                assert forall|a: int, b: int| 0 <= a < b < t.len() implies (#[trigger] t[a]).peer_id
                    != (#[trigger] t[b]).peer_id by {
                    if a == index {
                        lemma_filtered_others(old(self)@, request.peer_id, b - 1);
                    } else if b == index {
                        lemma_filtered_others(old(self)@, request.peer_id, a);
                    }
                }
                lemma_request_refreshes(old(self)@, receiver);
            }
        }
    }

    /// Removes a peer that asked to stop receiving the channel.
    pub fn receive_channel_stop_request(&mut self, request: &ChannelStopRequest)
        ensures
            final(self)@ == old(self)@.filter(other_peer(request.peer_id)),
            receivers_wf(old(self)@) ==> receivers_wf(final(self)@),
    {
        self.retain(&Keep::OtherThan(request.peer_id));
        proof {
            if receivers_wf(old(self)@) {
                lemma_removal_keeps_receivers_wf(old(self)@, other_peer(request.peer_id));
            }
        }
    }

    /// Drops the receivers whose requests were not refreshed by time `now`.
    pub fn prune_expired(&mut self, now: u64)
        ensures
            final(self)@ == old(self)@.filter(|r: Receiver| r.expires_at + PRUNE_PADDING_MICROS > now),
            receivers_wf(old(self)@) ==> receivers_wf(final(self)@),
    {
        let rule = Keep::NotExpired(now);
        self.retain(&rule);
        proof {
            assert(rule.pred() =~= (|r: Receiver| r.expires_at + PRUNE_PADDING_MICROS > now));
            if receivers_wf(old(self)@) {
                lemma_removal_keeps_receivers_wf(old(self)@, rule.pred());
            }
        }
    }

    /// Removes the receivers that are no longer session peers.
    pub fn retain_peers(&mut self, peers: &[Id])
        ensures
            final(self)@ == old(self)@.filter(|r: Receiver| peers@.contains(r.peer_id)),
            receivers_wf(old(self)@) ==> receivers_wf(final(self)@),
    {
        let rule = Keep::OfPeers(peers);
        self.retain(&rule);
        proof {
            assert(rule.pred() =~= (|r: Receiver| peers@.contains(r.peer_id)));
            if receivers_wf(old(self)@) {
                lemma_removal_keeps_receivers_wf(old(self)@, rule.pred());
            }
        }
    }

    /// Updates the endpoint used to reach a peer, e.g. after its
    /// announcement arrived on a better gateway.
    pub fn set_endpoint(&mut self, peer_id: Id, endpoint: Option<Ipv4Endpoint>)
        ensures
            final(self)@ == with_endpoint(old(self)@, peer_id, endpoint),
            receivers_wf(old(self)@) ==> receivers_wf(final(self)@),
    {
        let ghost s = self@;
        let mut out: Vec<Receiver> = Vec::new();
        let mut i: usize = 0;
        while i < self.receivers.len()
            invariant
                i <= s.len(),
                s == self@,
                out@ == with_endpoint(s.take(i as int), peer_id, endpoint),
            decreases self.receivers.len() - i,
        {
            let r = self.receivers[i];
            let updated = if r.peer_id == peer_id {
                Receiver { peer_id: r.peer_id, endpoint, expires_at: r.expires_at }
            } else {
                r
            };
            let ghost before = out@;
            out.push(updated);
            proof {
                assert(out@ =~= with_endpoint(s.take(i + 1), peer_id, endpoint));
            }
            i = i + 1;
        }
        proof {
            assert(s.take(s.len() as int) =~= s);
        }
        self.receivers = out;
    }

    /// The endpoints audio should be sent to.
    pub fn endpoints(&self) -> (v: Vec<Ipv4Endpoint>)
        ensures
            v@ == endpoints_of(self@),
    {
        let ghost s = self@;
        let mut out: Vec<Ipv4Endpoint> = Vec::new();
        let mut i: usize = 0;
        while i < self.receivers.len()
            invariant
                i <= s.len(),
                s == self@,
                out@ == endpoints_of(s.take(i as int)),
            decreases self.receivers.len() - i,
        {
            proof {
                assert(s.take(i + 1).drop_last() =~= s.take(i as int));
            }
            match self.receivers[i].endpoint {
                Some(e) => out.push(e),
                None => {},
            }
            i = i + 1;
        }
        proof {
            assert(s.take(s.len() as int) =~= s);
        }
        out
    }

    pub fn is_empty(&self) -> (r: bool)
        ensures
            r == (self@.len() == 0),
    {
        self.receivers.len() == 0
    }

    pub fn len(&self) -> (n: usize)
        ensures
            n == self@.len(),
    {
        self.receivers.len()
    }
}

impl Default for Receivers {
    fn default() -> (r: Self)
        ensures
            r@ == Seq::<Receiver>::empty(),
    {
        Receivers::new()
    }
}

/// What is left after dropping a peer's receivers belongs to other peers.
proof fn lemma_filtered_others(s: Seq<Receiver>, peer: NodeId, i: int)
    requires
        0 <= i < s.filter(other_peer(peer)).len(),
    ensures
        s.filter(other_peer(peer))[i].peer_id != peer,
{
    broadcast use vstd::seq_lib::group_filter_ensures;

}

/// Whether some receiver of `s` belongs to `peer`.
pub open spec fn has_peer(s: Seq<Receiver>, peer: NodeId) -> bool {
    exists|i: int| 0 <= i < s.len() && (#[trigger] s[i]).peer_id == peer
}

/// With one receiver per peer, dropping a peer's receivers drops one
/// receiver if it has one, none otherwise.
proof fn lemma_drop_peer_len(s: Seq<Receiver>, peer: NodeId)
    requires
        one_per_peer(s),
    ensures
        s.filter(other_peer(peer)).len() + (if has_peer(s, peer) {
            1int
        } else {
            0int
        }) == s.len(),
    decreases s.len(),
{
    reveal(Seq::filter);
    if s.len() > 0 {
        let d = s.drop_last();
        assert forall|a: int, b: int| 0 <= a < b < d.len() implies (#[trigger] d[a]).peer_id
            != (#[trigger] d[b]).peer_id by {
            assert(d[a] == s[a] && d[b] == s[b]);
        }
        lemma_drop_peer_len(d, peer);
        if s.last().peer_id == peer {
            assert(has_peer(s, peer));
            if has_peer(d, peer) {
                let i = choose|i: int| 0 <= i < d.len() && (#[trigger] d[i]).peer_id == peer;
                assert(s[i].peer_id == s[s.len() - 1].peer_id);
            }
        } else {
            if has_peer(s, peer) {
                let i = choose|i: int| 0 <= i < s.len() && (#[trigger] s[i]).peer_id == peer;
                assert(d[i].peer_id == peer);
            }
            if has_peer(d, peer) {
                let i = choose|i: int| 0 <= i < d.len() && (#[trigger] d[i]).peer_id == peer;
                assert(s[i].peer_id == peer);
            }
        }
    }
}

/// A channel request refreshes, never duplicates: after the request of
/// `r.peer_id`, the receivers hold exactly one receiver of that peer, which
/// is `r`; the receivers of other peers stay as they were, in order; and
/// there is one receiver more only if the peer had none.
pub proof fn lemma_request_refreshes(s: Seq<Receiver>, r: Receiver)
    requires
        receivers_wf(s),
    ensures
        ({
            let rest = s.filter(other_peer(r.peer_id));
            let k = insertion_point(rest, r.expires_at);
            let t = rest.insert(k, r);
            &&& 0 <= k <= rest.len()
            &&& t[k] == r
            &&& forall|i: int| 0 <= i < t.len() ==> ((#[trigger] t[i]).peer_id == r.peer_id <==> i == k)
            &&& t.remove(k) == rest
            &&& t.len() == s.len() + (if has_peer(s, r.peer_id) {
                0int
            } else {
                1int
            })
        }),
{
    broadcast use vstd::seq_lib::group_filter_ensures;

    let rest = s.filter(other_peer(r.peer_id));
    lemma_first_index_spec(rest, expires_after(r.expires_at));
    let k = insertion_point(rest, r.expires_at);
    let t = rest.insert(k, r);
    assert forall|i: int| 0 <= i < t.len() implies ((#[trigger] t[i]).peer_id == r.peer_id <==> i == k) by {
        if i < k {
            assert(t[i] == rest[i]);
            assert(other_peer(r.peer_id)(rest[i]));
        } else if i > k {
            assert(t[i] == rest[i - 1]);
            assert(other_peer(r.peer_id)(rest[i - 1]));
        }
    }
    assert(t.remove(k) =~= rest);
    lemma_drop_peer_len(s, r.peer_id);
}

} // verus!

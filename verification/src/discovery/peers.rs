//! The peers that discovery has seen.
use vstd::prelude::*;

use crate::link::measurement::Ipv4Endpoint;
use crate::link::node::NodeId;
use crate::link::payload::PeerState;
use crate::link::sessions::{lex_less, node_id_less, SessionId};
use crate::link::state::StartStopState;
use crate::link::timeline::Timeline;
use crate::seqs::{first_index, lemma_filter_step, lemma_first_index_push};

verus! {

#[derive(Debug, Clone, Copy)]
pub struct ControllerPeer {
    pub peer_state: PeerState,
}

/// The peers of `peers` in session `session_id`, in order.
pub open spec fn session_peers(session_id: SessionId, peers: Seq<ControllerPeer>) -> Seq<ControllerPeer>
    decreases peers.len(),
{
    if peers.len() == 0 {
        seq![]
    } else {
        let rest = session_peers(session_id, peers.drop_last());
        if peers.last().peer_state.node_state.session_id == session_id {
            rest.push(peers.last())
        } else {
            rest
        }
    }
}

/// The number of entries of `ps` that do not repeat the identity of the
/// entry just before them.
pub open spec fn count_distinct_runs(ps: Seq<ControllerPeer>) -> nat
    decreases ps.len(),
{
    if ps.len() == 0 {
        0
    } else if ps.len() >= 2 && ps.last().peer_state.node_state.node_id
        == ps[ps.len() - 2].peer_state.node_state.node_id {
        count_distinct_runs(ps.drop_last())
    } else {
        count_distinct_runs(ps.drop_last()) + 1
    }
}

proof fn lemma_count_distinct_runs_bound(ps: Seq<ControllerPeer>)
    ensures
        count_distinct_runs(ps) <= ps.len(),
    decreases ps.len(),
{
    if ps.len() > 0 {
        lemma_count_distinct_runs_bound(ps.drop_last());
    }
}

proof fn lemma_session_peers_bound(session_id: SessionId, peers: Seq<ControllerPeer>)
    ensures
        session_peers(session_id, peers).len() <= peers.len(),
    decreases peers.len(),
{
    if peers.len() > 0 {
        lemma_session_peers_bound(session_id, peers.drop_last());
    }
}

/// The number of peers in session `session_id`, where consecutive peers
/// with the same identity count once.
pub fn unique_session_peer_count(session_id: SessionId, peers: &[ControllerPeer]) -> (n: usize)
    ensures
        n == count_distinct_runs(session_peers(session_id, peers@)),
{
    let mut count: usize = 0;
    let mut last: Option<NodeId> = None;
    let mut i: usize = 0;
    while i < peers.len()
        invariant
            i <= peers@.len(),
            count == count_distinct_runs(session_peers(session_id, peers@.take(i as int))),
            count <= i,
            match last {
                None => session_peers(session_id, peers@.take(i as int)).len() == 0,
                Some(id) => {
                    let s = session_peers(session_id, peers@.take(i as int));
                    s.len() > 0 && s.last().peer_state.node_state.node_id == id
                },
            },
        decreases peers@.len() - i,
    {
        let p = &peers[i];
        let ghost prefix = peers@.take(i + 1);
        assert(prefix.drop_last() =~= peers@.take(i as int));
        assert(prefix.last() == peers@[i as int]);
        proof {
            lemma_count_distinct_runs_bound(session_peers(session_id, peers@.take(i as int)));
        }
        if p.peer_state.node_state.session_id == session_id {
            let id = p.peer_state.node_state.node_id;
            let repeat = match last {
                Some(prev) => prev == id,
                None => false,
            };
            proof {
                let s = session_peers(session_id, peers@.take(i as int));
                let ps = session_peers(session_id, prefix);
                assert(ps == s.push(*p));
                assert(ps.drop_last() =~= s);
                if s.len() > 0 {
                    assert(ps[ps.len() - 2] == s.last());
                }
            }
            if !repeat {
                count = count + 1;
            }
            last = Some(id);
        } else {
            assert(session_peers(session_id, prefix) == session_peers(session_id, peers@.take(i as int)));
        }
        i = i + 1;
    }
    assert(peers@.take(i as int) =~= peers@);
    count
}

/// A change among the peers that the controller acts on.
#[derive(Debug, Clone, Copy)]
pub enum PeerStateChange {
    SessionMembership,
    SessionTimeline(SessionId, Timeline),
    SessionStartStopState(SessionId, StartStopState),
    /// A peer left or timed out.
    PeerLeft,
    /// A peer's LinkAudio endpoint appeared, changed or went away.
    AudioEndpoint(NodeId, Option<Ipv4Endpoint>),
}

/// Whether some peer of `peers` satisfies `p`.
pub open spec fn any_peer(peers: Seq<ControllerPeer>, p: spec_fn(ControllerPeer) -> bool) -> bool {
    exists|i: int| 0 <= i < peers.len() && p(#[trigger] peers[i])
}

/// Whether some peer of `peers` satisfies the rule `rule`.
fn peers_any(peers: &Vec<ControllerPeer>, rule: PeerMatch) -> (r: bool)
    ensures
        r == any_peer(peers@, rule.pred()),
{
    let mut i: usize = 0;
    while i < peers.len()
        invariant
            i <= peers@.len(),
            forall|j: int| 0 <= j < i ==> !(rule.pred())(#[trigger] peers@[j]),
        decreases peers.len() - i,
    {
        if rule.matches(&peers[i]) {
            assert((rule.pred())(peers@[i as int]));
            return true;
        }
        i = i + 1;
    }
    false
}

/// The questions asked of the peers when one is seen.
#[derive(Clone, Copy)]
enum PeerMatch {
    SessionTimeline(SessionId, Timeline),
    StartStopState(StartStopState),
    Ident(NodeId),
    OtherSession(SessionId),
}

impl PeerMatch {
    spec fn pred(self) -> spec_fn(ControllerPeer) -> bool {
        match self {
            PeerMatch::SessionTimeline(sid, tl) => |p: ControllerPeer|
                p.peer_state.node_state.session_id == sid && p.peer_state.node_state.timeline == tl,
            PeerMatch::StartStopState(sss) => |p: ControllerPeer| p.peer_state.node_state.start_stop_state
                == sss,
            PeerMatch::Ident(id) => |p: ControllerPeer| p.peer_state.node_state.node_id == id,
            PeerMatch::OtherSession(sid) => |p: ControllerPeer| p.peer_state.node_state.session_id != sid,
        }
    }

    fn matches(&self, p: &ControllerPeer) -> (r: bool)
        ensures
            r == (self.pred())(*p),
    {
        let ns = &p.peer_state.node_state;
        match self {
            PeerMatch::SessionTimeline(sid, tl) => ns.session_id == *sid && ns.timeline == *tl,
            PeerMatch::StartStopState(sss) => ns.start_stop_state == *sss,
            PeerMatch::Ident(id) => ns.node_id == *id,
            PeerMatch::OtherSession(sid) => !(ns.session_id == *sid),
        }
    }
}

/// The peers after `peer_state` was seen: a peer of a new identity is added.
pub open spec fn peers_after_seen(peers: Seq<ControllerPeer>, peer_state: PeerState) -> Seq<ControllerPeer> {
    if any_peer(peers, |p: ControllerPeer| p.peer_state.node_state.node_id == peer_state.node_state.node_id) {
        peers
    } else {
        peers.push(ControllerPeer { peer_state })
    }
}

/// What changes the controller hears of when `peer_state` is seen among
/// `peers`: the peer's session timeline if no peer had it for that session,
/// its start/stop state if no peer had it, and the session membership when
/// a new peer, or a known peer while some peer is in another session, leaves
/// the count of peers in `session_id` at zero while `old_count` was not.
pub open spec fn changes_when_seen(
    peers: Seq<ControllerPeer>,
    peer_state: PeerState,
    session_id: SessionId,
    old_count: usize,
) -> Seq<PeerStateChange> {
    let ns = peer_state.node_state;
    let new_timeline = !any_peer(
        peers,
        |p: ControllerPeer|
            p.peer_state.node_state.session_id == ns.session_id && p.peer_state.node_state.timeline
                == ns.timeline,
    );
    let new_start_stop = !any_peer(
        peers,
        |p: ControllerPeer| p.peer_state.node_state.start_stop_state == ns.start_stop_state,
    );
    let is_new_peer = !any_peer(peers, |p: ControllerPeer| p.peer_state.node_state.node_id == ns.node_id);
    let membership_changed = is_new_peer || any_peer(
        peers,
        |p: ControllerPeer| p.peer_state.node_state.session_id != ns.session_id,
    );
    let count = count_distinct_runs(session_peers(session_id, peers_after_seen(peers, peer_state)));
    (if new_timeline {
        seq![PeerStateChange::SessionTimeline(ns.session_id, ns.timeline)]
    } else {
        seq![]
    }) + (if new_start_stop {
        seq![PeerStateChange::SessionStartStopState(ns.session_id, ns.start_stop_state)]
    } else {
        seq![]
    }) + (if membership_changed && count != old_count && count == 0 {
        seq![PeerStateChange::SessionMembership]
    } else {
        seq![]
    })
}

/// Takes in a peer that discovery saw: adds it if its identity is new, and
/// returns the changes the controller hears of. `old_count` is the number
/// of peers in `session_id` that the controller last knew of. A session
/// timeline, or a start/stop state, is reported exactly when no known peer
/// has it, whether the peer is new or known.
pub fn saw_peer(
    peers: &mut Vec<ControllerPeer>,
    peer_state: PeerState,
    session_id: SessionId,
    old_count: usize,
) -> (changes: Vec<PeerStateChange>)
    ensures
        final(peers)@ == peers_after_seen(old(peers)@, peer_state),
        changes@ == changes_when_seen(old(peers)@, peer_state, session_id, old_count),
        (forall|i: int|
            0 <= i < old(peers)@.len() ==> !((#[trigger] old(peers)@[i]).peer_state.node_state.session_id
                == peer_state.node_state.session_id && old(peers)@[i].peer_state.node_state.timeline
                == peer_state.node_state.timeline)) <==> changes@.contains(
            PeerStateChange::SessionTimeline(peer_state.node_state.session_id, peer_state.node_state.timeline),
        ),
        (forall|i: int|
            0 <= i < old(peers)@.len() ==> (#[trigger] old(peers)@[i]).peer_state.node_state.start_stop_state
                != peer_state.node_state.start_stop_state) <==> changes@.contains(
            PeerStateChange::SessionStartStopState(
                peer_state.node_state.session_id,
                peer_state.node_state.start_stop_state,
            ),
        ),
{
    let ns = peer_state.node_state;
    let rule_tl = PeerMatch::SessionTimeline(ns.session_id, ns.timeline);
    let rule_sss = PeerMatch::StartStopState(ns.start_stop_state);
    let rule_id = PeerMatch::Ident(ns.node_id);
    let rule_other = PeerMatch::OtherSession(ns.session_id);
    let is_new_session_timeline = !peers_any(peers, rule_tl);
    let is_new_start_stop_state = !peers_any(peers, rule_sss);
    let known = peers_any(peers, rule_id);
    proof {
        assert(rule_tl.pred() =~= (|p: ControllerPeer|
            p.peer_state.node_state.session_id == ns.session_id && p.peer_state.node_state.timeline
                == ns.timeline));
        assert(rule_sss.pred() =~= (|p: ControllerPeer| p.peer_state.node_state.start_stop_state
            == ns.start_stop_state));
        assert(rule_id.pred() =~= (|p: ControllerPeer| p.peer_state.node_state.node_id == ns.node_id));
        assert(rule_other.pred() =~= (|p: ControllerPeer| p.peer_state.node_state.session_id
            != ns.session_id));
    }
    let did_session_membership_change = if !known {
        peers.push(ControllerPeer { peer_state });
        true
    } else {
        peers_any(peers, rule_other)
    };
    let mut changes: Vec<PeerStateChange> = Vec::new();
    if is_new_session_timeline {
        changes.push(PeerStateChange::SessionTimeline(ns.session_id, ns.timeline));
    }
    if is_new_start_stop_state {
        changes.push(PeerStateChange::SessionStartStopState(ns.session_id, ns.start_stop_state));
    }
    if did_session_membership_change {
        let count = unique_session_peer_count(session_id, peers.as_slice());
        if old_count != count {
            if count == 0 {
                changes.push(PeerStateChange::SessionMembership);
            }
        }
    }
    proof {
        let a = if is_new_session_timeline {
            seq![PeerStateChange::SessionTimeline(ns.session_id, ns.timeline)]
        } else {
            seq![]
        };
        let b = if is_new_start_stop_state {
            seq![PeerStateChange::SessionStartStopState(ns.session_id, ns.start_stop_state)]
        } else {
            seq![]
        };
        let c = if changes@.len() > a.len() + b.len() {
            seq![PeerStateChange::SessionMembership]
        } else {
            seq![]
        };
        assert(changes@ =~= a + b + c);
        lemma_new_session_timeline_reported(old(peers)@, peer_state, session_id, old_count);
        lemma_new_start_stop_state_reported(old(peers)@, peer_state, session_id, old_count);
    }
    changes
}

/// Removes the peer `node_id` that left; returns whether it was known.
pub fn peer_left(peers: &mut Vec<ControllerPeer>, node_id: NodeId) -> (changed: bool)
    ensures
        final(peers)@ == old(peers)@.filter(|p: ControllerPeer| p.peer_state.node_state.node_id != node_id),
        changed == (final(peers)@.len() != old(peers)@.len()),
{
    let rule = PeerMatch::Ident(node_id);
    let changed = retain_peers(peers, rule, false);
    proof {
        assert((|p: ControllerPeer| (rule.pred())(p) == false) =~= (|p: ControllerPeer|
            p.peer_state.node_state.node_id != node_id));
    }
    changed
}

/// Forgets the peers of session `session_id`.
pub fn forget_session(peers: &mut Vec<ControllerPeer>, session_id: SessionId)
    ensures
        final(peers)@ == old(peers)@.filter(|p: ControllerPeer| p.peer_state.node_state.session_id != session_id),
{
    let rule = PeerMatch::OtherSession(session_id);
    retain_peers(peers, rule, true);
    proof {
        assert((|p: ControllerPeer| (rule.pred())(p) == true) =~= (|p: ControllerPeer|
            p.peer_state.node_state.session_id != session_id));
    }
}

/// Keeps the peers that `rule` matches, or those it does not match.
fn retain_peers(peers: &mut Vec<ControllerPeer>, rule: PeerMatch, keep_matching: bool) -> (changed: bool)
    ensures
        final(peers)@ == old(peers)@.filter(|p: ControllerPeer| (rule.pred())(p) == keep_matching),
        changed == (final(peers)@.len() != old(peers)@.len()),
{
    let ghost s = peers@;
    let ghost keep = |p: ControllerPeer| (rule.pred())(p) == keep_matching;
    let mut out: Vec<ControllerPeer> = Vec::new();
    let mut i: usize = 0;
    while i < peers.len()
        invariant
            i <= s.len(),
            s == peers@,
            keep == (|p: ControllerPeer| (rule.pred())(p) == keep_matching),
            out@ == s.take(i as int).filter(keep),
        decreases peers.len() - i,
    {
        proof {
            lemma_filter_step(s, keep, i as int);
        }
        if rule.matches(&peers[i]) == keep_matching {
            out.push(peers[i]);
        }
        i = i + 1;
    }
    proof {
        assert(s.take(s.len() as int) =~= s);
    }
    let changed = out.len() != peers.len();
    *peers = out;
    changed
}

/// Gives every peer of session `session_id` the timeline `timeline`.
pub fn set_session_timeline(peers: &mut Vec<ControllerPeer>, session_id: SessionId, timeline: Timeline)
    ensures
        final(peers)@.len() == old(peers)@.len(),
        forall|i: int|
            0 <= i < old(peers)@.len() ==> (#[trigger] final(peers)@[i]) == if old(peers)@[i].peer_state.node_state.session_id
                == session_id {
                with_timeline(old(peers)@[i], timeline)
            } else {
                old(peers)@[i]
            },
{
    let ghost s = peers@;
    let mut out: Vec<ControllerPeer> = Vec::new();
    let mut i: usize = 0;
    while i < peers.len()
        invariant
            i <= s.len(),
            s == peers@,
            out@.len() == i,
            forall|j: int|
                0 <= j < i ==> (#[trigger] out@[j]) == if s[j].peer_state.node_state.session_id == session_id {
                    with_timeline(s[j], timeline)
                } else {
                    s[j]
                },
        decreases peers.len() - i,
    {
        let p = peers[i];
        if p.peer_state.node_state.session_id == session_id {
            let mut q = p;
            q.peer_state.node_state.timeline = timeline;
            out.push(q);
        } else {
            out.push(p);
        }
        i = i + 1;
    }
    *peers = out;
}

/// `p` with the timeline of its node replaced by `timeline`.
pub open spec fn with_timeline(p: ControllerPeer, timeline: Timeline) -> ControllerPeer {
    ControllerPeer {
        peer_state: PeerState {
            node_state: crate::link::node::NodeState {
                node_id: p.peer_state.node_state.node_id,
                session_id: p.peer_state.node_state.session_id,
                timeline,
                start_stop_state: p.peer_state.node_state.start_stop_state,
            },
            measurement_endpoint: p.peer_state.measurement_endpoint,
        },
    }
}

/// Of the peers `s`, the index of the first one with the least identity.
pub open spec fn first_least_index(s: Seq<ControllerPeer>) -> int
    decreases s.len(),
{
    if s.len() <= 1 {
        0
    } else {
        let k = first_least_index(s.drop_last());
        if lex_less(s.last().peer_state.node_state.node_id.0@, s[k].peer_state.node_state.node_id.0@) {
            s.len() - 1
        } else {
            k
        }
    }
}

proof fn lemma_first_least_index_bound(s: Seq<ControllerPeer>)
    ensures
        s.len() > 0 ==> 0 <= first_least_index(s) < s.len(),
    decreases s.len(),
{
    if s.len() > 1 {
        lemma_first_least_index_bound(s.drop_last());
    }
}

pub open spec fn founded_by(id: NodeId) -> spec_fn(ControllerPeer) -> bool {
    |p: ControllerPeer| p.peer_state.node_state.node_id == id
}

/// The peer to measure session `session_id` with: of its peers, the one
/// that founded it, else the one with the least identity (the first, among
/// equals).
pub open spec fn measurement_target_spec(peers: Seq<ControllerPeer>, session_id: SessionId) -> Option<PeerState> {
    let s = session_peers(session_id, peers);
    match first_index(s, founded_by(session_id.0)) {
        Some(i) => Some(s[i].peer_state),
        None => if s.len() == 0 {
            None
        } else {
            Some(s[first_least_index(s)].peer_state)
        },
    }
}

/// The peer to measure session `session_id` with, if it has any.
pub fn measurement_target(peers: &[ControllerPeer], session_id: SessionId) -> (r: Option<PeerState>)
    ensures
        r == measurement_target_spec(peers@, session_id),
{
    let ghost p = founded_by(session_id.0);
    let mut founder: Option<PeerState> = None;
    let mut least: Option<PeerState> = None;
    let mut least_id = NodeId::default();
    let mut i: usize = 0;
    while i < peers.len()
        invariant
            i <= peers@.len(),
            p == founded_by(session_id.0),
            ({
                let s = session_peers(session_id, peers@.take(i as int));
                &&& match first_index(s, p) {
                    Some(k) => 0 <= k < s.len() && founder == Some(s[k].peer_state),
                    None => founder is None,
                }
                &&& if s.len() == 0 {
                    least is None
                } else {
                    0 <= first_least_index(s) < s.len() && least == Some(s[first_least_index(s)].peer_state)
                        && least_id == s[first_least_index(s)].peer_state.node_state.node_id
                }
            }),
        decreases peers.len() - i,
    {
        let q = peers[i];
        let ghost s = session_peers(session_id, peers@.take(i as int));
        proof {
            assert(peers@.take(i + 1).drop_last() =~= peers@.take(i as int));
            lemma_first_least_index_bound(s);
        }
        if q.peer_state.node_state.session_id == session_id {
            let ghost t = s.push(q);
            proof {
                assert(session_peers(session_id, peers@.take(i + 1)) == t);
                lemma_first_index_push(s, p, q);
                assert(t.drop_last() =~= s);
            }
            if founder.is_none() && q.peer_state.node_state.node_id == session_id.0 {
                founder = Some(q.peer_state);
            }
            match least {
                None => {
                    least = Some(q.peer_state);
                    least_id = q.peer_state.node_state.node_id;
                },
                Some(_) => {
                    if node_id_less(&q.peer_state.node_state.node_id, &least_id) {
                        least = Some(q.peer_state);
                        least_id = q.peer_state.node_state.node_id;
                    }
                },
            }
        }
        i = i + 1;
    }
    proof {
        assert(peers@.take(peers@.len() as int) =~= peers@);
    }
    match founder {
        Some(f) => Some(f),
        None => least,
    }
}

/// A peer's session timeline is reported exactly when no known peer has
/// that timeline for that session, whether or not the peer itself is known
/// already: a known peer that changed its tempo has its new timeline
/// reported.
pub proof fn lemma_new_session_timeline_reported(
    peers: Seq<ControllerPeer>,
    peer_state: PeerState,
    session_id: SessionId,
    old_count: usize,
)
    ensures
        ({
            let ns = peer_state.node_state;
            (forall|i: int|
                0 <= i < peers.len() ==> !((#[trigger] peers[i]).peer_state.node_state.session_id == ns.session_id
                    && peers[i].peer_state.node_state.timeline == ns.timeline)) <==> changes_when_seen(
                peers,
                peer_state,
                session_id,
                old_count,
            ).contains(PeerStateChange::SessionTimeline(ns.session_id, ns.timeline))
        }),
{
    let ns = peer_state.node_state;
    let cs = changes_when_seen(peers, peer_state, session_id, old_count);
    let tl = PeerStateChange::SessionTimeline(ns.session_id, ns.timeline);
    if forall|i: int|
        0 <= i < peers.len() ==> !((#[trigger] peers[i]).peer_state.node_state.session_id == ns.session_id
            && peers[i].peer_state.node_state.timeline == ns.timeline) {
        assert(cs[0] == tl);
    } else {
        let i = choose|i: int|
            0 <= i < peers.len() && ((#[trigger] peers[i]).peer_state.node_state.session_id == ns.session_id
                && peers[i].peer_state.node_state.timeline == ns.timeline);
        assert(any_peer(
            peers,
            |p: ControllerPeer|
                p.peer_state.node_state.session_id == ns.session_id && p.peer_state.node_state.timeline
                    == ns.timeline,
        )) by {
            let f = |p: ControllerPeer|
                p.peer_state.node_state.session_id == ns.session_id && p.peer_state.node_state.timeline
                    == ns.timeline;
            assert(f(peers[i]));
        }
        assert forall|j: int| 0 <= j < cs.len() implies cs[j] != tl by {}
    }
}

/// A peer's start/stop state is reported exactly when no known peer has it.
pub proof fn lemma_new_start_stop_state_reported(
    peers: Seq<ControllerPeer>,
    peer_state: PeerState,
    session_id: SessionId,
    old_count: usize,
)
    ensures
        ({
            let ns = peer_state.node_state;
            (forall|i: int|
                0 <= i < peers.len() ==> (#[trigger] peers[i]).peer_state.node_state.start_stop_state
                    != ns.start_stop_state) <==> changes_when_seen(peers, peer_state, session_id, old_count).contains(
                PeerStateChange::SessionStartStopState(ns.session_id, ns.start_stop_state),
            )
        }),
{
    let ns = peer_state.node_state;
    let cs = changes_when_seen(peers, peer_state, session_id, old_count);
    let st = PeerStateChange::SessionStartStopState(ns.session_id, ns.start_stop_state);
    let f = |p: ControllerPeer| p.peer_state.node_state.start_stop_state == ns.start_stop_state;
    if forall|i: int|
        0 <= i < peers.len() ==> (#[trigger] peers[i]).peer_state.node_state.start_stop_state
            != ns.start_stop_state {
        assert(!any_peer(peers, f)) by {
            if any_peer(peers, f) {
                let i = choose|i: int| 0 <= i < peers.len() && f(#[trigger] peers[i]);
                assert(peers[i].peer_state.node_state.start_stop_state != ns.start_stop_state);
            }
        }
        let a = changes_when_seen(peers, peer_state, session_id, old_count);
        if a.len() > 0 && a[0] is SessionTimeline {
            assert(a[1] == st);
        } else {
            assert(a[0] == st);
        }
    } else {
        let i = choose|i: int|
            0 <= i < peers.len() && (#[trigger] peers[i]).peer_state.node_state.start_stop_state
                == ns.start_stop_state;
        assert(f(peers[i]));
        assert(any_peer(peers, f));
        assert forall|j: int| 0 <= j < cs.len() implies cs[j] != st by {}
    }
}

} // verus!

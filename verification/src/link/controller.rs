//! The controller's decisions on plain values.
use vstd::prelude::*;

use crate::discovery::peers::{
    count_distinct_runs, session_peers, unique_session_peer_count, ControllerPeer, PeerStateChange,
};

use super::measurement::Ipv4Endpoint;
use super::node::NodeId;
use super::sessions::SessionId;
use super::state::{ClientStartStopState, StartStopState};
use super::timeline::Timeline;

verus! {

/// The number of peers in this node's session that the controller last
/// knew of.
#[derive(Debug, Default)]
pub struct SessionPeerCounter {
    pub session_peer_count: usize,
}

impl SessionPeerCounter {
    /// Records the number of peers in the session now; returns whether the
    /// session just emptied, which resets this node's state.
    pub fn record(&mut self, count: usize) -> (emptied: bool)
        ensures
            final(self).session_peer_count == count,
            emptied == (old(self).session_peer_count != count && count == 0),
    {
        let old_count = self.session_peer_count;
        self.session_peer_count = count;
        old_count != count && count == 0
    }
}

/// Of the client's current start/stop state and a new one, the one with the
/// later timestamp; the current one on a tie.
pub fn select_preferred_start_stop_state(
    current_start_stop_state: ClientStartStopState,
    start_stop_state: ClientStartStopState,
) -> (r: ClientStartStopState)
    ensures
        r == if start_stop_state.timestamp > current_start_stop_state.timestamp {
            start_stop_state
        } else {
            current_start_stop_state
        },
{
    if start_stop_state.timestamp > current_start_stop_state.timestamp {
        return start_stop_state;
    }
    current_start_stop_state
}

// ---------------------------------------------------------------------------
// The peer-state change loop
// ---------------------------------------------------------------------------

/// What the controller does about a batch of peer state changes, in order.
#[derive(Debug, Clone, Copy)]
pub enum ControllerAction {
    /// The session emptied: start a temporary session of this node's own,
    /// with a default start/stop state, and forget the peers.
    ResetState,
    /// Take in the start/stop state of this node's session.
    AdoptStartStop(StartStopState),
    /// A session's timeline was seen: record it and update the timing.
    UpdateTiming(SessionId, Timeline),
    /// Tell the audio side that a peer's LinkAudio endpoint changed.
    DispatchAudioEndpoint(NodeId, Option<Ipv4Endpoint>),
}

/// What the change loop keeps between batches: a delayed audio endpoint
/// change, with the dispatch gate's epoch at the time it was delayed.
#[derive(Debug, Clone, Copy)]
pub struct ChangeLoop {
    pub deferred: Option<(u64, NodeId, Option<Ipv4Endpoint>)>,
}

/// The state that a batch of changes is decided on, as it stands between
/// two changes.
pub struct ChangeModel {
    /// The held endpoint change.
    pub deferred: Option<(u64, NodeId, Option<Ipv4Endpoint>)>,
    /// The session peer count the counter holds.
    pub count: usize,
    /// This node's session.
    pub session: SessionId,
    /// The timestamp of this node's session's start/stop state.
    pub timestamp: i64,
    /// Whether a reset in this batch forgot the peers.
    pub cleared: bool,
    /// Whether a membership change of this batch could not be applied.
    pub abandoned: bool,
}

/// The number of peers in `session`: none once the peers were forgotten.
pub open spec fn peer_count(m: ChangeModel, peers: Seq<ControllerPeer>) -> nat {
    if m.cleared {
        0
    } else {
        count_distinct_runs(session_peers(m.session, peers))
    }
}

/// The model after the session peer count became `count`: when that
/// empties the session, a reset, which moves this node to a session of its
/// own (`ident`), with a default start/stop state and no peers.
pub open spec fn recount(m: ChangeModel, count: nat, ident: NodeId) -> (ChangeModel, Seq<ControllerAction>) {
    if m.count != count && count == 0 {
        (
            ChangeModel {
                count: count as usize,
                session: SessionId(ident),
                timestamp: 0,
                cleared: true,
                ..m
            },
            seq![ControllerAction::ResetState],
        )
    } else {
        (ChangeModel { count: count as usize, ..m }, seq![])
    }
}

/// One change, decided on the model `m`; `applied` says whether the state
/// the change reads could be read.
/// - A membership change recounts the session's peers (a reset when the
///   session empties), then releases a held endpoint change; one that
///   cannot be applied marks the batch as abandoned.
/// - A timeline is always recorded.
/// - A start/stop state is adopted when it comes from this node's session
///   with a later timestamp.
/// - A peer leaving recounts the session's peers.
/// - An endpoint change is dispatched, or held back (the latest held one
///   wins) when a membership change before it in the batch was abandoned.
pub open spec fn change_step(
    m: ChangeModel,
    change: PeerStateChange,
    applied: bool,
    epoch: u64,
    ident: NodeId,
    peers: Seq<ControllerPeer>,
) -> (ChangeModel, Seq<ControllerAction>) {
    match change {
        PeerStateChange::SessionMembership => if applied {
            let (r, a) = recount(m, peer_count(m, peers), ident);
            match r.deferred {
                Some((_, peer, endpoint)) => (
                    ChangeModel { deferred: None, ..r },
                    a.push(ControllerAction::DispatchAudioEndpoint(peer, endpoint)),
                ),
                None => (r, a),
            }
        } else {
            (ChangeModel { abandoned: true, ..m }, seq![])
        },
        PeerStateChange::SessionTimeline(session, timeline) => (
            m,
            seq![ControllerAction::UpdateTiming(session, timeline)],
        ),
        PeerStateChange::SessionStartStopState(session, state) => if applied && session == m.session
            && state.timestamp > m.timestamp {
            (ChangeModel { timestamp: state.timestamp, ..m }, seq![ControllerAction::AdoptStartStop(state)])
        } else {
            (m, seq![])
        },
        PeerStateChange::PeerLeft => if applied {
            recount(m, peer_count(m, peers), ident)
        } else {
            (m, seq![])
        },
        PeerStateChange::AudioEndpoint(peer, endpoint) => if m.abandoned {
            (ChangeModel { deferred: Some((epoch, peer, endpoint)), ..m }, seq![])
        } else {
            (m, seq![ControllerAction::DispatchAudioEndpoint(peer, endpoint)])
        },
    }
}

/// The changes `cs`, decided in order from the model `m`: the model after
/// them and the actions, in order.
pub open spec fn run_changes(
    m: ChangeModel,
    cs: Seq<(PeerStateChange, bool)>,
    epoch: u64,
    ident: NodeId,
    peers: Seq<ControllerPeer>,
) -> (ChangeModel, Seq<ControllerAction>)
    decreases cs.len(),
{
    if cs.len() == 0 {
        (m, seq![])
    } else {
        let (m1, a1) = run_changes(m, cs.drop_last(), epoch, ident, peers);
        let (m2, a2) = change_step(m1, cs.last().0, cs.last().1, epoch, ident, peers);
        (m2, a1 + a2)
    }
}

/// The model a batch of gate epoch `epoch` starts from: a change held in
/// another epoch is dropped.
pub open spec fn batch_start(
    deferred: Option<(u64, NodeId, Option<Ipv4Endpoint>)>,
    epoch: u64,
    count: usize,
    session: SessionId,
    timestamp: i64,
) -> ChangeModel {
    ChangeModel {
        deferred: match deferred {
            Some((e, _, _)) => if e == epoch {
                deferred
            } else {
                None
            },
            None => None,
        },
        count,
        session,
        timestamp,
        cleared: false,
        abandoned: false,
    }
}

/// The changes paired with whether each could be applied.
pub open spec fn paired(changes: Seq<PeerStateChange>, applied: Seq<bool>) -> Seq<(PeerStateChange, bool)> {
    Seq::new(changes.len(), |i: int| (changes[i], applied[i]))
}

/// Decides a batch of peer state changes of gate epoch `epoch`, for the node
/// `ident` in session `own_session`, whose session start/stop state has
/// timestamp `own_start_stop_timestamp`, with the known `peers`; `applied`
/// says, change by change, whether the state it reads could be read. Gives
/// the actions in order, and updates the held endpoint change and the
/// session peer count.
pub fn on_peer_state_changes(
    loop_state: &mut ChangeLoop,
    counter: &mut SessionPeerCounter,
    epoch: u64,
    changes: &[PeerStateChange],
    applied: &[bool],
    ident: NodeId,
    own_session: SessionId,
    own_start_stop_timestamp: i64,
    peers: &[ControllerPeer],
) -> (actions: Vec<ControllerAction>)
    requires
        applied@.len() == changes@.len(),
    ensures
        ({
            let start = batch_start(
                old(loop_state).deferred,
                epoch,
                old(counter).session_peer_count,
                own_session,
                own_start_stop_timestamp,
            );
            let (end, acts) = run_changes(start, paired(changes@, applied@), epoch, ident, peers@);
            &&& actions@ == acts
            &&& final(loop_state).deferred == end.deferred
            &&& final(counter).session_peer_count == end.count
        }),
{
    let ghost cs = paired(changes@, applied@);
    let mut deferred = loop_state.deferred;
    match deferred {
        Some((e, _, _)) => {
            if e != epoch {
                deferred = None;
            }
        },
        None => {},
    }
    let mut count = counter.session_peer_count;
    let mut session = own_session;
    let mut timestamp = own_start_stop_timestamp;
    let mut cleared = false;
    let mut abandoned = false;
    let mut actions: Vec<ControllerAction> = Vec::new();
    let ghost start = batch_start(loop_state.deferred, epoch, counter.session_peer_count, own_session, own_start_stop_timestamp);
    let mut i: usize = 0;
    while i < changes.len()
        invariant
            i <= changes@.len(),
            applied@.len() == changes@.len(),
            cs == paired(changes@, applied@),
            ({
                let (m, a) = run_changes(start, cs.take(i as int), epoch, ident, peers@);
                &&& m.deferred == deferred
                &&& m.count == count
                &&& m.session == session
                &&& m.timestamp == timestamp
                &&& m.cleared == cleared
                &&& m.abandoned == abandoned
                &&& a == actions@
            }),
        decreases changes@.len() - i,
    {
        proof {
            assert(cs.take(i + 1).drop_last() =~= cs.take(i as int));
            assert(cs.take(i + 1).last() == (changes@[i as int], applied@[i as int]));
        }
        let ghost before = actions@;
        match changes[i] {
            PeerStateChange::SessionMembership => {
                if applied[i] {
                    let now = if cleared {
                        0
                    } else {
                        unique_session_peer_count(session, peers)
                    };
                    if count != now && now == 0 {
                        actions.push(ControllerAction::ResetState);
                        session = SessionId(ident);
                        timestamp = 0;
                        cleared = true;
                    }
                    count = now;
                    match deferred {
                        Some((_, peer, endpoint)) => {
                            actions.push(ControllerAction::DispatchAudioEndpoint(peer, endpoint));
                            deferred = None;
                        },
                        None => {},
                    }
                } else {
                    abandoned = true;
                }
            },
            PeerStateChange::SessionTimeline(s, timeline) => {
                actions.push(ControllerAction::UpdateTiming(s, timeline));
            },
            PeerStateChange::SessionStartStopState(s, state) => {
                if applied[i] && s == session && state.timestamp > timestamp {
                    actions.push(ControllerAction::AdoptStartStop(state));
                    timestamp = state.timestamp;
                }
            },
            PeerStateChange::PeerLeft => {
                if applied[i] {
                    let now = if cleared {
                        0
                    } else {
                        unique_session_peer_count(session, peers)
                    };
                    if count != now && now == 0 {
                        actions.push(ControllerAction::ResetState);
                        session = SessionId(ident);
                        timestamp = 0;
                        cleared = true;
                    }
                    count = now;
                }
            },
            PeerStateChange::AudioEndpoint(peer, endpoint) => {
                if abandoned {
                    deferred = Some((epoch, peer, endpoint));
                } else {
                    actions.push(ControllerAction::DispatchAudioEndpoint(peer, endpoint));
                }
            },
        }
        proof {
            let (m, a) = run_changes(start, cs.take(i as int), epoch, ident, peers@);
            let (m2, a2) = change_step(m, changes@[i as int], applied@[i as int], epoch, ident, peers@);
            assert(actions@ =~= before + a2);
        }
        i = i + 1;
    }
    proof {
        assert(cs.take(i as int) =~= cs);
    }
    loop_state.deferred = deferred;
    counter.session_peer_count = count;
    actions
}

// ---------------------------------------------------------------------------
// Joining a session
// ---------------------------------------------------------------------------

/// What joining a session asks of the controller, besides taking the
/// session's timing.
#[derive(Debug, Clone, Copy, PartialEq, Eq, Structural)]
pub struct JoinDecision {
    /// The session changed: the start/stop state starts over.
    pub reset_start_stop: bool,
    /// The new session has no peers after all: reset the state.
    pub reset_state: bool,
}

/// The decisions of a node in session `own_session` joining the session
/// `joined`, with the known `peers`: when the session changes, the
/// start/stop state starts over and the session's peers are recounted,
/// and an emptied session resets the state; joining the same session
/// changes neither.
pub fn join_session_step(
    counter: &mut SessionPeerCounter,
    own_session: SessionId,
    joined: SessionId,
    peers: &[ControllerPeer],
) -> (d: JoinDecision)
    ensures
        d.reset_start_stop == (own_session != joined),
        own_session != joined ==> {
            let count = count_distinct_runs(session_peers(joined, peers@));
            &&& final(counter).session_peer_count == count
            &&& d.reset_state == (old(counter).session_peer_count != count && count == 0)
        },
        own_session == joined ==> final(counter).session_peer_count == old(counter).session_peer_count
            && !d.reset_state,
{
    if own_session == joined {
        return JoinDecision { reset_start_stop: false, reset_state: false };
    }
    let count = unique_session_peer_count(joined, peers);
    let emptied = counter.record(count);
    JoinDecision { reset_start_stop: true, reset_state: emptied }
}

/// Whether some peer of `peers` is in `session`.
pub open spec fn has_session_peer(session: SessionId, peers: Seq<ControllerPeer>) -> bool {
    exists|i: int| 0 <= i < peers.len() && (#[trigger] peers[i]).peer_state.node_state.session_id == session
}

proof fn lemma_session_peers_empty(session: SessionId, peers: Seq<ControllerPeer>)
    ensures
        session_peers(session, peers).len() == 0 <==> !has_session_peer(session, peers),
    decreases peers.len(),
{
    if peers.len() > 0 {
        let d = peers.drop_last();
        lemma_session_peers_empty(session, d);
        if has_session_peer(session, d) {
            let i = choose|i: int| 0 <= i < d.len() && (#[trigger] d[i]).peer_state.node_state.session_id == session;
            assert(peers[i] == d[i]);
        }
        if has_session_peer(session, peers) {
            let i = choose|i: int| 0 <= i < peers.len() && (#[trigger] peers[i]).peer_state.node_state.session_id
                == session;
            if i < peers.len() - 1 {
                assert(d[i] == peers[i]);
            }
        }
    }
}

proof fn lemma_count_distinct_runs_zero(ps: Seq<ControllerPeer>)
    ensures
        count_distinct_runs(ps) == 0 <==> ps.len() == 0,
    decreases ps.len(),
{
    if ps.len() > 0 {
        lemma_count_distinct_runs_zero(ps.drop_last());
    }
}

/// The number of peers that the controller counts in `session` is zero
/// exactly when no known peer is in it.
pub proof fn lemma_session_count_zero(session: SessionId, peers: Seq<ControllerPeer>)
    ensures
        count_distinct_runs(session_peers(session, peers)) == 0 <==> !has_session_peer(session, peers),
{
    lemma_session_peers_empty(session, peers);
    lemma_count_distinct_runs_zero(session_peers(session, peers));
}

/// A session that empties resets the node: when a peer leaving, or a
/// membership change, is applied while the controller counted peers in this
/// node's session and none of the known peers is in it any more (or the
/// peers were forgotten), the first action is a reset, the node moves to a
/// session of its own, `SessionId(ident)`, whose start/stop timestamp is
/// zero, and the count becomes zero.
pub proof fn lemma_emptied_session_resets(
    m: ChangeModel,
    change: PeerStateChange,
    epoch: u64,
    ident: NodeId,
    peers: Seq<ControllerPeer>,
)
    requires
        change is PeerLeft || change is SessionMembership,
        m.count != 0,
        m.cleared || !has_session_peer(m.session, peers),
    ensures
        ({
            let (m2, a) = change_step(m, change, true, epoch, ident, peers);
            &&& a.len() >= 1
            &&& a[0] is ResetState
            &&& m2.session == SessionId(ident)
            &&& m2.timestamp == 0
            &&& m2.count == 0
        }),
{
    lemma_session_count_zero(m.session, peers);
}

/// A session that keeps a peer, or that the controller already counted as
/// empty, does not reset the node: a peer leaving or a membership change
/// then leaves this node in its session with its start/stop timestamp, and
/// no action is a reset.
pub proof fn lemma_kept_session_does_not_reset(
    m: ChangeModel,
    change: PeerStateChange,
    applied: bool,
    epoch: u64,
    ident: NodeId,
    peers: Seq<ControllerPeer>,
)
    requires
        change is PeerLeft || change is SessionMembership,
        m.count == 0 || (!m.cleared && has_session_peer(m.session, peers)),
    ensures
        ({
            let (m2, a) = change_step(m, change, applied, epoch, ident, peers);
            &&& forall|i: int| 0 <= i < a.len() ==> !(#[trigger] a[i] is ResetState)
            &&& m2.session == m.session
            &&& m2.timestamp == m.timestamp
        }),
{
    lemma_session_count_zero(m.session, peers);
    let (m2, a) = change_step(m, change, applied, epoch, ident, peers);
    assert forall|i: int| 0 <= i < a.len() implies !(#[trigger] a[i] is ResetState) by {
        if change is SessionMembership && applied {
            let (r, a0) = recount(m, peer_count(m, peers), ident);
            assert(a0.len() == 0);
        }
    }
}

} // verus!

use rusty_link::discovery::peers::{ControllerPeer, PeerStateChange};
use rusty_link::link::beats::Beats;
use rusty_link::link::controller::{
    join_session_step, on_peer_state_changes, ChangeLoop, ControllerAction, JoinDecision, SessionPeerCounter,
};
use rusty_link::link::measurement::Ipv4Endpoint;
use rusty_link::link::node::{NodeId, NodeState};
use rusty_link::link::payload::PeerState;
use rusty_link::link::sessions::SessionId;
use rusty_link::link::state::StartStopState;
use rusty_link::link::timeline::Timeline;

fn id(n: u8) -> NodeId {
    NodeId::from_array([n; 8])
}

fn timeline() -> Timeline {
    Timeline { micros_per_beat: 500_000, beat_origin: Beats::from_microbeats(0), time_origin: 0 }
}

fn peer(node: u8, session: u8) -> ControllerPeer {
    ControllerPeer {
        peer_state: PeerState {
            node_state: NodeState {
                node_id: id(node),
                session_id: SessionId(id(session)),
                timeline: timeline(),
                start_stop_state: StartStopState::default(),
            },
            measurement_endpoint: None,
        },
    }
}

fn start_stop(timestamp: i64) -> StartStopState {
    StartStopState { is_playing: true, beats: Beats::from_microbeats(0), timestamp }
}

fn endpoint(port: u16) -> Option<Ipv4Endpoint> {
    Some(Ipv4Endpoint { ip: 0x0a000001, port })
}

#[test]
fn the_session_emptying_resets_the_state() {
    let mut state = ChangeLoop { deferred: None };
    let mut counter = SessionPeerCounter { session_peer_count: 2 };
    let peers = [peer(2, 9)];
    let actions = on_peer_state_changes(
        &mut state,
        &mut counter,
        1,
        &[PeerStateChange::SessionMembership],
        &[true],
        id(1),
        SessionId(id(5)),
        0,
        &peers,
    );
    assert!(matches!(actions.as_slice(), [ControllerAction::ResetState]));
    assert_eq!(counter.session_peer_count, 0);

    // A recount that finds peers only records them.
    let mut counter = SessionPeerCounter { session_peer_count: 0 };
    let peers = [peer(2, 5), peer(3, 5), peer(3, 5)];
    let actions = on_peer_state_changes(
        &mut state, &mut counter, 1, &[PeerStateChange::PeerLeft], &[true], id(1), SessionId(id(5)), 0, &peers,
    );
    assert!(actions.is_empty());
    assert_eq!(counter.session_peer_count, 2);
}

#[test]
fn start_stop_states_are_adopted_from_the_own_session_when_later() {
    let mut state = ChangeLoop { deferred: None };
    let mut counter = SessionPeerCounter { session_peer_count: 1 };
    let changes = [
        PeerStateChange::SessionStartStopState(SessionId(id(7)), start_stop(500)),
        PeerStateChange::SessionStartStopState(SessionId(id(5)), start_stop(50)),
        PeerStateChange::SessionStartStopState(SessionId(id(5)), start_stop(500)),
        PeerStateChange::SessionStartStopState(SessionId(id(5)), start_stop(400)),
        PeerStateChange::SessionStartStopState(SessionId(id(5)), start_stop(600)),
    ];
    let actions = on_peer_state_changes(
        &mut state,
        &mut counter,
        1,
        &changes,
        &[true, true, true, true, false],
        id(1),
        SessionId(id(5)),
        100,
        &[peer(2, 5)],
    );
    assert_eq!(actions.len(), 1);
    assert!(matches!(actions[0], ControllerAction::AdoptStartStop(s) if s.timestamp == 500));
}

#[test]
fn endpoint_changes_wait_for_an_abandoned_membership_change() {
    let mut state = ChangeLoop { deferred: None };
    let mut counter = SessionPeerCounter { session_peer_count: 1 };
    let peers = [peer(2, 5)];
    // The membership change cannot be applied: the endpoint changes behind
    // it are held, the latest winning; a timeline still goes through.
    let actions = on_peer_state_changes(
        &mut state,
        &mut counter,
        3,
        &[
            PeerStateChange::AudioEndpoint(id(2), endpoint(1)),
            PeerStateChange::SessionMembership,
            PeerStateChange::AudioEndpoint(id(2), endpoint(2)),
            PeerStateChange::AudioEndpoint(id(2), endpoint(3)),
            PeerStateChange::SessionTimeline(SessionId(id(5)), timeline()),
        ],
        &[true, false, true, true, true],
        id(1),
        SessionId(id(5)),
        0,
        &peers,
    );
    assert_eq!(actions.len(), 2);
    assert!(matches!(actions[0], ControllerAction::DispatchAudioEndpoint(p, e) if p == id(2) && e == endpoint(1)));
    assert!(matches!(actions[1], ControllerAction::UpdateTiming(s, _) if s == SessionId(id(5))));
    assert!(matches!(state.deferred, Some((3, p, e)) if p == id(2) && e == endpoint(3)));

    // The next applied membership change releases it.
    let actions = on_peer_state_changes(
        &mut state, &mut counter, 3, &[PeerStateChange::SessionMembership], &[true], id(1), SessionId(id(5)), 0, &peers,
    );
    assert_eq!(actions.len(), 1);
    assert!(matches!(actions[0], ControllerAction::DispatchAudioEndpoint(p, e) if p == id(2) && e == endpoint(3)));
    assert!(state.deferred.is_none());
}

#[test]
fn held_endpoint_changes_of_another_epoch_are_dropped() {
    let mut state = ChangeLoop { deferred: Some((3, id(2), endpoint(3))) };
    let mut counter = SessionPeerCounter { session_peer_count: 1 };
    let actions = on_peer_state_changes(
        &mut state, &mut counter, 4, &[PeerStateChange::SessionMembership], &[true], id(1), SessionId(id(5)), 0,
        &[peer(2, 5)],
    );
    assert!(actions.is_empty());
    assert!(state.deferred.is_none());
}

#[test]
fn joining_another_session_recounts_its_peers() {
    let mut counter = SessionPeerCounter { session_peer_count: 3 };
    let peers = [peer(2, 7), peer(3, 7), peer(4, 5)];
    let d = join_session_step(&mut counter, SessionId(id(5)), SessionId(id(7)), &peers);
    assert_eq!(d, JoinDecision { reset_start_stop: true, reset_state: false });
    assert_eq!(counter.session_peer_count, 2);

    // A joined session without peers resets the state.
    let d = join_session_step(&mut counter, SessionId(id(7)), SessionId(id(9)), &peers);
    assert_eq!(d, JoinDecision { reset_start_stop: true, reset_state: true });
    assert_eq!(counter.session_peer_count, 0);

    // Joining the same session again changes nothing.
    let d = join_session_step(&mut counter, SessionId(id(9)), SessionId(id(9)), &peers);
    assert_eq!(d, JoinDecision { reset_start_stop: false, reset_state: false });
    assert_eq!(counter.session_peer_count, 0);
}

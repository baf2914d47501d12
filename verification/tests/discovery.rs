use rusty_link::encoding::encode_to_vec;
use rusty_link::link::beats::Beats;
use rusty_link::link::node::{NodeId, NodeState};
use rusty_link::link::payload::{Payload, PeerState};
use rusty_link::link::sessions::SessionId;
use rusty_link::link::state::StartStopState;
use rusty_link::link::timeline::Timeline;
use rusty_link::discovery::gateway::PeerTimeouts;
use rusty_link::discovery::messages::{
    alive_message, byebye_message, message_type_name, parse_message_header, parse_payload,
    protocol_header, response_message, MessageHeader, ALIVE, BYEBYE, INVALID, RESPONSE,
};
use rusty_link::discovery::peers::{
    forget_session, measurement_target, peer_left, saw_peer, set_session_timeline,
    unique_session_peer_count, ControllerPeer, PeerStateChange,
};

#[test]
fn test_parse_message_header() {
    let header = MessageHeader {
        ttl: 10,
        ..Default::default()
    };

    let mut encoded = encode_to_vec(&protocol_header()).unwrap();
    encoded.append(&mut encode_to_vec(&header).unwrap());

    let (decoded_header, _) = parse_message_header(&encoded).unwrap();
    assert_eq!(decoded_header, header);
}

#[test]
fn alive_message_roundtrip() {
    let node_id = NodeId::from_array([1, 2, 3, 4, 5, 6, 7, 8]);
    let session_id = SessionId(node_id);
    // 120 bpm: a beat of 500000 microseconds.
    let node_state = NodeState {
        node_id,
        session_id,
        timeline: Timeline {
            micros_per_beat: 500_000,
            beat_origin: Beats::from_microbeats(0),
            time_origin: 0,
        },
        start_stop_state: StartStopState::default(),
    };
    let payload = Payload::from_node_state(node_state);
    let msg = alive_message(node_id, 5, &payload, 0).unwrap();

    let (header, offset) = parse_message_header(&msg).unwrap();
    assert_eq!(header.message_type, ALIVE);
    assert_eq!(header.ttl, 5);
    assert_eq!(header.ident, node_id);

    let decoded_payload = parse_payload(&msg[offset..]).unwrap();
    assert!(!decoded_payload.entries.is_empty());
}

#[test]
fn response_message_roundtrip() {
    let node_id = NodeId::from_array([10, 20, 30, 40, 50, 60, 70, 80]);
    let payload = Payload::default();
    let msg = response_message(node_id, 3, &payload, 42).unwrap();

    let (header, _) = parse_message_header(&msg).unwrap();
    assert_eq!(header.message_type, RESPONSE);
    assert_eq!(header.ttl, 3);
    assert_eq!(header.group_id, 42);
    assert_eq!(header.ident, node_id);
}

#[test]
fn byebye_message_roundtrip() {
    let node_id = NodeId::from_array([99, 88, 77, 66, 55, 44, 33, 22]);
    let msg = byebye_message(node_id).unwrap();

    let (header, _) = parse_message_header(&msg).unwrap();
    assert_eq!(header.message_type, BYEBYE);
    assert_eq!(header.ttl, 0);
    assert_eq!(header.ident, node_id);
}

#[test]
fn message_type_constants() {
    assert_eq!(INVALID, 0);
    assert_eq!(ALIVE, 1);
    assert_eq!(RESPONSE, 2);
    assert_eq!(BYEBYE, 3);
}

#[test]
fn protocol_header_format() {
    assert_eq!(&protocol_header()[..6], b"_asdp_");
    assert_eq!(protocol_header()[6], b'v');
    assert_eq!(protocol_header()[7], 1); // Version 1
}

#[test]
fn message_types_labels() {
    assert_eq!(message_type_name(INVALID), "INVALID");
    assert_eq!(message_type_name(ALIVE), "ALIVE");
    assert_eq!(message_type_name(RESPONSE), "RESPONSE");
    assert_eq!(message_type_name(BYEBYE), "BYEBYE");
}

#[test]
fn parse_payload_empty() {
    let payload = parse_payload(&[]).unwrap();
    assert!(payload.entries.is_empty());
}

#[test]
fn byebye_message_bytes() {
    let msg = byebye_message(NodeId::from_array([1, 2, 3, 4, 5, 6, 7, 8])).unwrap();
    assert_eq!(
        msg,
        [b'_', b'a', b's', b'd', b'p', b'_', b'v', 1, 3, 0, 0, 0, 1, 2, 3, 4, 5, 6, 7, 8]
    );
}

fn sid(n: u8) -> SessionId {
    SessionId(NodeId::from_array([n; 8]))
}

fn timeline(origin: i64) -> Timeline {
    Timeline { micros_per_beat: 500_000, beat_origin: Beats::from_microbeats(origin), time_origin: 0 }
}

fn peer_state(node: u8, session: u8, origin: i64) -> PeerState {
    PeerState {
        node_state: NodeState {
            node_id: NodeId::from_array([node; 8]),
            session_id: sid(session),
            timeline: timeline(origin),
            start_stop_state: StartStopState::default(),
        },
        measurement_endpoint: None,
    }
}

#[test]
fn a_new_peer_is_added_and_its_timeline_reported() {
    let mut peers: Vec<ControllerPeer> = Vec::new();
    let changes = saw_peer(&mut peers, peer_state(1, 1, 0), sid(1), 0);
    assert_eq!(peers.len(), 1);
    assert_eq!(changes.len(), 2);
    assert!(matches!(changes[0], PeerStateChange::SessionTimeline(s, _) if s == sid(1)));
    assert!(matches!(changes[1], PeerStateChange::SessionStartStopState(_, _)));
    // Seen again with the same state: nothing new.
    let changes = saw_peer(&mut peers, peer_state(1, 1, 0), sid(1), 1);
    assert_eq!(peers.len(), 1);
    assert!(changes.is_empty());
}

#[test]
fn membership_change_is_reported_when_the_session_empties() {
    let mut peers: Vec<ControllerPeer> = Vec::new();
    let changes = saw_peer(&mut peers, peer_state(1, 2, 0), sid(1), 3);
    assert!(matches!(changes.last(), Some(PeerStateChange::SessionMembership)));
}

#[test]
fn peers_leave_and_sessions_are_forgotten() {
    let mut peers: Vec<ControllerPeer> = Vec::new();
    saw_peer(&mut peers, peer_state(1, 1, 0), sid(1), 0);
    saw_peer(&mut peers, peer_state(2, 2, 0), sid(1), 0);
    saw_peer(&mut peers, peer_state(3, 2, 0), sid(1), 0);
    assert_eq!(unique_session_peer_count(sid(2), &peers), 2);
    assert!(peer_left(&mut peers, NodeId::from_array([2; 8])));
    assert!(!peer_left(&mut peers, NodeId::from_array([2; 8])));
    forget_session(&mut peers, sid(2));
    assert_eq!(peers.len(), 1);
    assert_eq!(peers[0].peer_state.node_state.node_id, NodeId::from_array([1; 8]));
}

#[test]
fn session_timelines_are_set_on_its_peers() {
    let mut peers: Vec<ControllerPeer> = Vec::new();
    saw_peer(&mut peers, peer_state(1, 1, 0), sid(1), 0);
    saw_peer(&mut peers, peer_state(2, 2, 0), sid(1), 0);
    set_session_timeline(&mut peers, sid(1), timeline(9));
    assert_eq!(peers[0].peer_state.node_state.timeline, timeline(9));
    assert_eq!(peers[1].peer_state.node_state.timeline, timeline(0));
}

#[test]
fn the_founder_of_a_session_is_measured_first() {
    let mut peers: Vec<ControllerPeer> = Vec::new();
    saw_peer(&mut peers, peer_state(7, 5, 0), sid(1), 0);
    saw_peer(&mut peers, peer_state(5, 5, 0), sid(1), 0);
    saw_peer(&mut peers, peer_state(6, 5, 0), sid(1), 0);
    let target = measurement_target(&peers, sid(5)).unwrap();
    assert_eq!(target.node_state.node_id, NodeId::from_array([5; 8]));
    // Without the founder, the peer with the least identity.
    peer_left(&mut peers, NodeId::from_array([5; 8]));
    let target = measurement_target(&peers, sid(5)).unwrap();
    assert_eq!(target.node_state.node_id, NodeId::from_array([6; 8]));
    assert!(measurement_target(&peers, sid(9)).is_none());
}

#[test]
fn session_peers_empty_when_no_match() {
    let peers: Vec<ControllerPeer> = Vec::new();
    let session_id = SessionId(NodeId::from_array([1, 2, 3, 4, 5, 6, 7, 8]));
    assert!(measurement_target(&peers, session_id).is_none());
    assert_eq!(unique_session_peer_count(session_id, &peers), 0);
}

const SECOND: u64 = 1_000_000;

#[test]
fn peer_timeouts_are_capped_and_sorted() {
    let mut timeouts = PeerTimeouts::new();
    let now = 100 * SECOND;
    timeouts.on_peer_state(NodeId::from_array([1; 8]), 10, now);
    timeouts.on_peer_state(NodeId::from_array([2; 8]), 1, now);
    // The first peer's time to live is capped at three seconds.
    assert_eq!(
        timeouts.next_pruning(),
        Some((now + SECOND + 100_000, NodeId::from_array([2; 8])))
    );
    let expired = timeouts.prune_expired(now + 2 * SECOND);
    assert_eq!(expired, vec![(now + SECOND, NodeId::from_array([2; 8]))]);
    assert_eq!(
        timeouts.next_pruning(),
        Some((now + 3 * SECOND + 100_000, NodeId::from_array([1; 8])))
    );
}

#[test]
fn a_byebye_forgets_a_known_peer() {
    let mut timeouts = PeerTimeouts::new();
    timeouts.on_peer_state(NodeId::from_array([1; 8]), 5, 0);
    assert!(timeouts.find_peer(&NodeId::from_array([1; 8])));
    assert!(timeouts.on_byebye(NodeId::from_array([1; 8])));
    assert!(!timeouts.on_byebye(NodeId::from_array([1; 8])));
    assert!(timeouts.is_empty());
    assert_eq!(timeouts.next_pruning(), None);
}

#[test]
fn a_refreshed_peer_has_one_timeout() {
    let mut timeouts = PeerTimeouts::new();
    timeouts.on_peer_state(NodeId::from_array([1; 8]), 3, 0);
    timeouts.on_peer_state(NodeId::from_array([2; 8]), 3, 0);
    timeouts.on_peer_state(NodeId::from_array([1; 8]), 3, SECOND);
    let expired = timeouts.prune_expired(10 * SECOND);
    assert_eq!(
        expired,
        vec![(3 * SECOND, NodeId::from_array([2; 8])), (4 * SECOND, NodeId::from_array([1; 8]))]
    );
}

use rusty_link::discovery::messenger::{on_datagram, reads_peer_state, DatagramAction};
use rusty_link::link::measurement::{Ipv4Endpoint, MeasurementEndpointV4};
use rusty_link::link::payload::PayloadEntry;

fn alive_from(node: u8, group: u16) -> Vec<u8> {
    let node_id = NodeId::from_array([node; 8]);
    let payload = Payload {
        entries: vec![
            PayloadEntry::MeasurementEndpointV4(MeasurementEndpointV4 {
                endpoint: Some(Ipv4Endpoint { ip: 0x0a000001, port: 9 }),
            }),
            PayloadEntry::MeasurementEndpointV4(MeasurementEndpointV4 {
                endpoint: Some(Ipv4Endpoint { ip: 0x0a000002, port: 10 }),
            }),
        ],
    };
    alive_message(node_id, 5, &payload, group).unwrap()
}

#[test]
fn alive_messages_are_answered_and_read() {
    let msg = alive_from(3, 0);
    match on_datagram(&msg, NodeId::from_array([1; 8]), 0, true) {
        DatagramAction::PeerState { respond, message } => {
            assert!(respond);
            assert_eq!(message.ttl, 5);
            assert_eq!(message.node_state.node_id, NodeId::from_array([3; 8]));
            assert_eq!(
                message.measurement_endpoint,
                Some(Ipv4Endpoint { ip: 0x0a000001, port: 9 })
            );
        }
        other => panic!("unexpected {:?}", other),
    }
}

#[test]
fn own_messages_and_disabled_link_are_ignored() {
    let msg = alive_from(1, 0);
    assert!(matches!(on_datagram(&msg, NodeId::from_array([1; 8]), 0, true), DatagramAction::Ignore));
    // Another group: not this node's own message.
    let msg = alive_from(1, 7);
    assert!(matches!(
        on_datagram(&msg, NodeId::from_array([1; 8]), 0, true),
        DatagramAction::PeerState { .. }
    ));
    let msg = alive_from(3, 0);
    assert!(matches!(on_datagram(&msg, NodeId::from_array([1; 8]), 0, false), DatagramAction::Ignore));
}

#[test]
fn peer_states_are_read_only_from_others_while_enabled() {
    let own = NodeId::from_array([1; 8]);
    assert!(reads_peer_state(&alive_from(3, 0), own, 0, true));
    assert!(reads_peer_state(&alive_from(1, 7), own, 0, true));
    assert!(!reads_peer_state(&alive_from(1, 0), own, 0, true));
    assert!(!reads_peer_state(&alive_from(3, 0), own, 0, false));
    let bye = byebye_message(NodeId::from_array([4; 8])).unwrap();
    assert!(!reads_peer_state(&bye, own, 0, true));
}

#[test]
fn goodbyes_are_taken_in_even_when_disabled() {
    let msg = byebye_message(NodeId::from_array([4; 8])).unwrap();
    assert!(matches!(
        on_datagram(&msg, NodeId::from_array([1; 8]), 0, false),
        DatagramAction::ByeBye(id) if id == NodeId::from_array([4; 8])
    ));
}

#[test]
fn responses_are_read_without_an_answer() {
    let msg = response_message(NodeId::from_array([3; 8]), 2, &Payload::default(), 0).unwrap();
    match on_datagram(&msg, NodeId::from_array([1; 8]), 0, true) {
        DatagramAction::PeerState { respond, message } => {
            assert!(!respond);
            assert_eq!(message.measurement_endpoint, None);
            assert_eq!(message.node_state.session_id, SessionId::default());
        }
        other => panic!("unexpected {:?}", other),
    }
}

use rusty_link::discovery::messenger::{broadcast_timing, ingress_interface, interface_changes, Ipv4Interface};

#[test]
fn broadcasts_wait_out_the_minimum_period() {
    // ttl 5 s with 20 broadcasts per ttl: every 250 ms.
    assert_eq!(broadcast_timing(5, 20, 1000), (250, true));
    assert_eq!(broadcast_timing(5, 20, 50), (250, true));
    assert_eq!(broadcast_timing(5, 20, 10), (40, false));
    assert_eq!(broadcast_timing(5, 20, 0), (50, false));
    assert_eq!(broadcast_timing(2, 3, 100), (666, true));
}

fn iface(last: u8, index: u32) -> Ipv4Interface {
    Ipv4Interface { addr: u32::from_be_bytes([192, 168, 1, last]), index }
}

#[test]
fn interface_scans_report_what_went_and_came() {
    let known = [iface(1, 1), iface(2, 2), iface(3, 3)];
    let current = [iface(3, 3), iface(4, 4), iface(1, 1)];
    let changes = interface_changes(&known, &current);
    assert_eq!(changes.stale, vec![iface(2, 2)]);
    assert_eq!(changes.added, vec![iface(4, 4)]);
    assert!(changes.changed);

    let same = interface_changes(&known, &known);
    assert!(same.stale.is_empty() && same.added.is_empty() && !same.changed);

    // The first scan finds everything new: one change.
    let first = interface_changes(&[], &current);
    assert_eq!(first.added, current.to_vec());
    assert!(first.changed);
}

#[test]
fn answers_go_through_the_interface_addressed() {
    let registered = [(iface(9, 2), false), (iface(5, 2), false), (iface(7, 2), false), (iface(1, 3), false)];
    // The destination's own address wins.
    assert_eq!(ingress_interface(&registered, 2, Some(iface(7, 2).addr)), Some(iface(7, 2)));
    // Otherwise the lowest address of that interface index.
    assert_eq!(ingress_interface(&registered, 2, None), Some(iface(5, 2)));
    assert_eq!(ingress_interface(&registered, 2, Some(iface(1, 3).addr)), Some(iface(5, 2)));
    // Cancelled registrations and other indexes are never used.
    let cancelled = [(iface(5, 2), true), (iface(9, 2), false)];
    assert_eq!(ingress_interface(&cancelled, 2, Some(iface(5, 2).addr)), Some(iface(9, 2)));
    assert_eq!(ingress_interface(&cancelled, 4, None), None);
}

use rusty_link::link::beats::Beats;
use rusty_link::link::node::{NodeId, NodeState};
use rusty_link::link::payload::{HostTime, Payload, PayloadEntry};
use rusty_link::link::sessions::{SessionId, SessionMembership};
use rusty_link::link::state::StartStopState;
use rusty_link::link::timeline::Timeline;

#[test]
fn node_id_from_array() {
    let arr = [1u8, 2, 3, 4, 5, 6, 7, 8];
    let id = NodeId::from_array(arr);
    assert_eq!(id.0, arr);
}

#[test]
fn node_id_new_is_random() {
    let id1 = NodeId::new();
    let id2 = NodeId::new();
    // Extremely unlikely to be equal
    assert_ne!(id1, id2);
}

#[test]
fn node_id_display_is_hex() {
    let id = NodeId::from_array([0x41, 0x42, 0x43, 0x44, 0x45, 0x46, 0x47, 0x48]);
    assert_eq!(id.to_string(), "4142434445464748");
}

#[test]
fn node_id_new_uses_printable_bytes() {
    for _ in 0..20 {
        let id = NodeId::new();
        assert!(id.0.iter().all(|b| (33..127).contains(b)));
    }
}

#[test]
fn node_id_hex_is_lower_case() {
    let id = NodeId::from_array([0xab, 0xcd, 0xef, 0x01, 0x23, 0x45, 0x67, 0x89]);
    assert_eq!(id.to_string(), "abcdef0123456789");
}

#[test]
fn node_state_new_has_defaults() {
    let session_id = SessionId(NodeId::from_array([1, 2, 3, 4, 5, 6, 7, 8]));
    let ns = NodeState::new(session_id);
    assert_eq!(ns.session_id, session_id);
    assert_eq!(ns.timeline, Timeline::default());
    assert_eq!(ns.start_stop_state, StartStopState::default());
    // node_id should be randomly generated
    assert_ne!(ns.node_id, NodeId::default());
}

#[test]
fn node_state_ident_returns_node_id() {
    let session_id = SessionId(NodeId::from_array([1, 2, 3, 4, 5, 6, 7, 8]));
    let ns = NodeState::new(session_id);
    assert_eq!(ns.ident(), ns.node_id);
}

#[test]
fn node_state_from_payload_extracts_all_fields() {
    let node_id = NodeId::from_array([10, 20, 30, 40, 50, 60, 70, 80]);
    let session_id = SessionId(NodeId::from_array([1, 2, 3, 4, 5, 6, 7, 8]));
    // 130 bpm: a beat of 461538 microseconds.
    let timeline = Timeline {
        micros_per_beat: 461538,
        beat_origin: Beats::from_microbeats(2_000_000),
        time_origin: 500_000,
    };
    let sss = StartStopState {
        is_playing: true,
        beats: Beats::from_microbeats(3_000_000),
        timestamp: 1_000_000,
    };

    let payload = Payload {
        entries: vec![
            PayloadEntry::Timeline(timeline),
            PayloadEntry::SessionMembership(SessionMembership::from(session_id)),
            PayloadEntry::StartStopState(sss),
        ],
    };

    let ns = NodeState::from_payload(node_id, &payload);
    assert_eq!(ns.node_id, node_id);
    assert_eq!(ns.session_id, session_id);
    assert_eq!(ns.timeline.micros_per_beat, 461538);
    assert!(ns.start_stop_state.is_playing);
}

#[test]
fn node_state_from_payload_ignores_extra_entries() {
    let node_id = NodeId::from_array([1, 1, 1, 1, 1, 1, 1, 1]);
    let payload = Payload {
        entries: vec![PayloadEntry::HostTime(HostTime::new(0))],
    };
    let ns = NodeState::from_payload(node_id, &payload);
    assert_eq!(ns.node_id, node_id);
    assert_eq!(ns.session_id, SessionId::default());
    assert_eq!(ns.timeline, Timeline::default());
}

#[test]
fn node_state_from_payload_takes_the_last_entry_of_a_kind() {
    let node_id = NodeId::from_array([2; 8]);
    let first = SessionId(NodeId::from_array([3; 8]));
    let second = SessionId(NodeId::from_array([4; 8]));
    let payload = Payload {
        entries: vec![
            PayloadEntry::SessionMembership(SessionMembership::from(first)),
            PayloadEntry::SessionMembership(SessionMembership::from(second)),
        ],
    };
    let ns = NodeState::from_payload(node_id, &payload);
    assert_eq!(ns.session_id, second);
}

use rusty_link::link::beats::Beats;
use rusty_link::link::encoding::PayloadEntryHeader;
use rusty_link::link::node::{NodeId, NodeState};
use rusty_link::link::payload::{
    check_payload, decode, GhostTime, HostTime, Payload, PayloadEntry, PrevGhostTime,
    GHOST_TIME_HEADER_KEY, GHOST_TIME_SIZE, HOST_TIME_HEADER_KEY, HOST_TIME_SIZE,
    PREV_GHOST_TIME_HEADER_KEY, PREV_GHOST_TIME_SIZE,
};
use rusty_link::link::sessions::{SessionId, SessionMembership};
use rusty_link::link::state::StartStopState;
use rusty_link::link::timeline::Timeline;

#[test]
fn host_time_header() {
    assert_eq!(HOST_TIME_HEADER_KEY, 0x5f5f6874, "unexpected byte order");
    assert_eq!(HOST_TIME_SIZE, 8, "unexpected size");
}

#[test]
fn ghost_time_header() {
    assert_eq!(GHOST_TIME_HEADER_KEY, 0x5f5f6774, "unexpected byte order");
    assert_eq!(GHOST_TIME_SIZE, 8, "unexpected size");
}

#[test]
fn prev_ghost_time_header() {
    assert_eq!(
        PREV_GHOST_TIME_HEADER_KEY, 0x5f706774,
        "unexpected byte order"
    );
    assert_eq!(PREV_GHOST_TIME_SIZE, 8, "unexpected size");
}

#[test]
fn roundtrip_timeline_payload() {
    // 120 bpm: a beat of 500000 microseconds.
    let timeline = Timeline {
        micros_per_beat: 500_000,
        beat_origin: Beats::from_microbeats(4_000_000),
        time_origin: 1_000_000,
    };
    let payload = Payload {
        entries: vec![PayloadEntry::Timeline(timeline)],
    };
    let encoded = payload.encode().unwrap();
    let mut decoded_payload = Payload::default();
    decode(&mut decoded_payload, &encoded).unwrap();

    assert_eq!(decoded_payload.entries.len(), 1);
    if let PayloadEntry::Timeline(tl) = &decoded_payload.entries[0] {
        assert_eq!(tl.micros_per_beat, 500_000);
        assert_eq!(tl.beat_origin, Beats::from_microbeats(4_000_000));
        assert_eq!(tl.time_origin, 1_000_000);
    } else {
        panic!("expected Timeline entry");
    }
}

#[test]
fn roundtrip_start_stop_state_payload() {
    let sss = StartStopState {
        is_playing: true,
        beats: Beats::from_microbeats(8_500_000),
        timestamp: 2_000_000,
    };
    let payload = Payload {
        entries: vec![PayloadEntry::StartStopState(sss)],
    };
    let encoded = payload.encode().unwrap();
    let mut decoded_payload = Payload::default();
    decode(&mut decoded_payload, &encoded).unwrap();

    assert_eq!(decoded_payload.entries.len(), 1);
    if let PayloadEntry::StartStopState(decoded) = &decoded_payload.entries[0] {
        assert!(decoded.is_playing);
        assert_eq!(decoded.beats, Beats::from_microbeats(8_500_000));
        assert_eq!(decoded.timestamp, 2_000_000);
    } else {
        panic!("expected StartStopState entry");
    }
}

#[test]
fn roundtrip_host_time_payload() {
    let ht = HostTime::new(9_876_543);
    let payload = Payload {
        entries: vec![PayloadEntry::HostTime(ht)],
    };
    let encoded = payload.encode().unwrap();
    let mut decoded_payload = Payload::default();
    decode(&mut decoded_payload, &encoded).unwrap();

    assert_eq!(decoded_payload.entries.len(), 1);
    if let PayloadEntry::HostTime(decoded) = &decoded_payload.entries[0] {
        assert_eq!(decoded.time, 9_876_543);
    } else {
        panic!("expected HostTime entry");
    }
}

#[test]
fn roundtrip_ghost_time_payload() {
    let gt = GhostTime::new(1_234_567);
    let payload = Payload {
        entries: vec![PayloadEntry::GhostTime(gt)],
    };
    let encoded = payload.encode().unwrap();
    let mut decoded_payload = Payload::default();
    decode(&mut decoded_payload, &encoded).unwrap();

    assert_eq!(decoded_payload.entries.len(), 1);
    if let PayloadEntry::GhostTime(decoded) = &decoded_payload.entries[0] {
        assert_eq!(decoded.time, 1_234_567);
    } else {
        panic!("expected GhostTime entry");
    }
}

#[test]
fn roundtrip_prev_ghost_time_payload() {
    let pgt = PrevGhostTime::new(7_654_321);
    let payload = Payload {
        entries: vec![PayloadEntry::PrevGhostTime(pgt)],
    };
    let encoded = payload.encode().unwrap();
    let mut decoded_payload = Payload::default();
    decode(&mut decoded_payload, &encoded).unwrap();

    assert_eq!(decoded_payload.entries.len(), 1);
    if let PayloadEntry::PrevGhostTime(decoded) = &decoded_payload.entries[0] {
        assert_eq!(decoded.time, 7_654_321);
    } else {
        panic!("expected PrevGhostTime entry");
    }
}

#[test]
fn roundtrip_multi_entry_payload() {
    // 140 bpm: a beat of 428571 microseconds.
    let timeline = Timeline {
        micros_per_beat: 428_571,
        beat_origin: Beats::from_microbeats(1_000_000),
        time_origin: 500_000,
    };
    let sss = StartStopState {
        is_playing: false,
        beats: Beats::from_microbeats(0),
        timestamp: 0,
    };
    let session_membership = SessionMembership {
        session_id: SessionId(NodeId::from_array([1, 2, 3, 4, 5, 6, 7, 8])),
    };
    let payload = Payload {
        entries: vec![
            PayloadEntry::Timeline(timeline),
            PayloadEntry::SessionMembership(session_membership),
            PayloadEntry::StartStopState(sss),
        ],
    };
    let encoded = payload.encode().unwrap();
    let mut decoded_payload = Payload::default();
    decode(&mut decoded_payload, &encoded).unwrap();

    assert_eq!(decoded_payload.entries.len(), 3);
    assert!(matches!(
        &decoded_payload.entries[0],
        PayloadEntry::Timeline(_)
    ));
    assert!(matches!(
        &decoded_payload.entries[1],
        PayloadEntry::SessionMembership(_)
    ));
    assert!(matches!(
        &decoded_payload.entries[2],
        PayloadEntry::StartStopState(_)
    ));
}

#[test]
fn roundtrip_node_state_payload() {
    let node_id = NodeId::from_array([10, 20, 30, 40, 50, 60, 70, 80]);
    let session_id = SessionId(NodeId::from_array([1, 2, 3, 4, 5, 6, 7, 8]));
    // 100 bpm: a beat of 600000 microseconds.
    let node_state = NodeState {
        node_id,
        session_id,
        timeline: Timeline {
            micros_per_beat: 600_000,
            beat_origin: Beats::from_microbeats(2_000_000),
            time_origin: 3_000_000,
        },
        start_stop_state: StartStopState {
            is_playing: true,
            beats: Beats::from_microbeats(5_000_000),
            timestamp: 4_000_000,
        },
    };
    let payload = Payload::from_node_state(node_state);
    let encoded = payload.encode().unwrap();
    let mut decoded_payload = Payload::default();
    decode(&mut decoded_payload, &encoded).unwrap();

    let recovered = NodeState::from_payload(node_id, &decoded_payload);
    assert_eq!(recovered.node_id, node_id);
    assert_eq!(recovered.session_id, session_id);
    assert_eq!(recovered.timeline.micros_per_beat, 600_000);
    assert!(recovered.start_stop_state.is_playing);
}

#[test]
fn unknown_entry_type_skipped_gracefully() {
    // Build a valid HostTime entry followed by a fake unknown entry, then a GhostTime entry
    let ht = HostTime::new(42);
    let gt = GhostTime::new(99);

    let mut data = Vec::new();
    data.extend_from_slice(&ht.encode().unwrap());

    // Fabricate an unknown entry: key=0xDEADBEEF, size=4, payload=4 zero bytes
    let unknown_header = PayloadEntryHeader {
        key: 0xDEADBEEF,
        size: 4,
    };
    data.extend_from_slice(&unknown_header.encode().unwrap());
    data.extend_from_slice(&[0u8; 4]);

    data.extend_from_slice(&gt.encode().unwrap());

    let mut decoded_payload = Payload::default();
    decode(&mut decoded_payload, &data).unwrap();

    // Should have decoded the HostTime and GhostTime, skipping the unknown entry
    assert_eq!(decoded_payload.entries.len(), 2);
    assert!(matches!(
        &decoded_payload.entries[0],
        PayloadEntry::HostTime(_)
    ));
    assert!(matches!(
        &decoded_payload.entries[1],
        PayloadEntry::GhostTime(_)
    ));
}

#[test]
fn empty_payload_decode() {
    let mut decoded_payload = Payload::default();
    decode(&mut decoded_payload, &[]).unwrap();
    assert!(decoded_payload.entries.is_empty());
}

#[test]
fn payload_too_short_for_header_is_ok() {
    // Data shorter than an entry header should just return Ok with no entries
    let mut decoded_payload = Payload::default();
    decode(&mut decoded_payload, &[0u8; 3]).unwrap();
    assert!(decoded_payload.entries.is_empty());
}

#[test]
fn payload_size_matches_encoded_length() {
    let timeline = Timeline {
        micros_per_beat: 500_000,
        beat_origin: Beats::from_microbeats(0),
        time_origin: 0,
    };
    let payload = Payload {
        entries: vec![PayloadEntry::Timeline(timeline)],
    };
    let encoded = payload.encode().unwrap();
    assert_eq!(payload.size() as usize, encoded.len());
}

#[test]
fn empty_payload_encode() {
    let payload = Payload::default();
    let encoded = payload.encode().unwrap();
    assert!(encoded.is_empty());
    assert_eq!(payload.size(), 0);
}

#[test]
fn host_time_entry_bytes() {
    let encoded = HostTime::new(1).encode().unwrap();
    assert_eq!(encoded, [0x5f, 0x5f, 0x68, 0x74, 0, 0, 0, 8, 0, 0, 0, 0, 0, 0, 0, 1]);
}

#[test]
fn decoding_stops_at_the_first_bad_entry() {
    // A start/stop state whose flag byte is not a bool.
    let mut data = HostTime::new(5).encode().unwrap();
    data.extend_from_slice(&[0x73, 0x74, 0x73, 0x74, 0, 0, 0, 17, 2]);
    data.extend_from_slice(&[0u8; 16]);
    let mut decoded_payload = Payload::default();
    assert!(check_payload(&data) == false);
    assert!(decode(&mut decoded_payload, &data).is_err());
    assert_eq!(decoded_payload.entries.len(), 1);
}

#[test]
fn check_payload_accepts_well_formed_data() {
    let payload = Payload {
        entries: vec![PayloadEntry::HostTime(HostTime::new(3)), PayloadEntry::GhostTime(GhostTime::new(4))],
    };
    let encoded = payload.encode().unwrap();
    assert!(check_payload(&encoded));
    // A known entry cut short cannot be read.
    assert!(!check_payload(&encoded[..encoded.len() - 1]));
}

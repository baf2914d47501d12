use rusty_link::encoding::{decode_from_slice, encode_to_vec};
use rusty_link::link::beats::Beats;
use rusty_link::link::controller::select_preferred_start_stop_state;
use rusty_link::link::state::{
    ClientStartStopState, StartStopState, START_STOP_STATE_HEADER_KEY, START_STOP_STATE_SIZE,
};
use rusty_link::link::timeline::{Timeline, TIMELINE_HEADER_KEY, TIMELINE_SIZE};

#[test]
fn state_test_key() {
    assert_eq!(START_STOP_STATE_HEADER_KEY, 0x73747374);
    println!("size: {}", START_STOP_STATE_SIZE);
}

#[test]
fn state_roundtrip() {
    let start_stop_state = StartStopState {
        beats: Beats { value: 123 },
        is_playing: true,
        timestamp: 0,
    };

    let encoded = encode_to_vec(&start_stop_state).unwrap();

    let (decoded, _) = decode_from_slice::<StartStopState>(&encoded[..]).unwrap();

    assert_eq!(decoded, start_stop_state);
}

#[test]
fn start_stop_state_default_is_not_playing() {
    let sss = StartStopState::default();
    assert!(!sss.is_playing);
    assert_eq!(sss.beats, Beats { value: 0 });
    assert_eq!(sss.timestamp, 0);
}

#[test]
fn start_stop_state_roundtrip_not_playing() {
    let sss = StartStopState {
        is_playing: false,
        beats: Beats::from_microbeats(16_000_000),
        timestamp: 5_000_000,
    };
    let encoded = encode_to_vec(&sss).unwrap();
    let (decoded, _) = decode_from_slice::<StartStopState>(&encoded).unwrap();
    assert_eq!(decoded, sss);
}

#[test]
fn start_stop_state_playing_transition() {
    let stopped = StartStopState::default();
    assert!(!stopped.is_playing);

    let playing = StartStopState {
        is_playing: true,
        beats: Beats::from_microbeats(0),
        timestamp: 1_000_000,
    };
    assert!(playing.is_playing);

    // Simulate stopping again
    let stopped_again = StartStopState {
        is_playing: false,
        beats: playing.beats,
        timestamp: 2_000_000,
    };
    assert!(!stopped_again.is_playing);
    assert!(stopped_again.timestamp > playing.timestamp);
}

#[test]
fn start_stop_state_with_header_roundtrip() {
    let sss = StartStopState {
        is_playing: true,
        beats: Beats::from_microbeats(4_000_000),
        timestamp: 999_999,
    };
    let encoded = sss.encode().unwrap();
    // The encoded data includes the header
    assert!(encoded.len() > START_STOP_STATE_SIZE as usize);
    assert_eq!(encoded.len(), 8 + START_STOP_STATE_SIZE as usize);
}

#[test]
fn client_start_stop_state_default() {
    let css = ClientStartStopState::default();
    assert!(!css.is_playing);
    assert_eq!(css.time, 0);
    assert_eq!(css.timestamp, 0);
}

#[test]
fn start_stop_state_wire_layout() {
    let sss = StartStopState {
        is_playing: true,
        beats: Beats::from_microbeats(2),
        timestamp: 3,
    };
    let encoded = encode_to_vec(&sss).unwrap();
    assert_eq!(encoded, [1, 0, 0, 0, 0, 0, 0, 0, 2, 0, 0, 0, 0, 0, 0, 0, 3]);
}

#[test]
fn timeline_wire_layout() {
    assert_eq!(TIMELINE_HEADER_KEY, 0x746d6c6e);
    assert_eq!(TIMELINE_SIZE, 24);
    let t = Timeline {
        micros_per_beat: 500_000,
        beat_origin: Beats::from_microbeats(1),
        time_origin: -1,
    };
    let encoded = t.encode().unwrap();
    assert_eq!(encoded.len(), 32);
    assert_eq!(&encoded[..8], &[0x74, 0x6d, 0x6c, 0x6e, 0, 0, 0, 24]);
    assert_eq!(&encoded[8..16], &500_000i64.to_be_bytes());
    assert_eq!(&encoded[16..24], &1i64.to_be_bytes());
    assert_eq!(&encoded[24..32], &(-1i64).to_be_bytes());
    let (decoded, n) = decode_from_slice::<Timeline>(&encoded[8..]).unwrap();
    assert_eq!(decoded, t);
    assert_eq!(n, 24);
}

#[test]
fn the_later_client_start_stop_state_is_preferred() {
    let older = ClientStartStopState { is_playing: false, time: 0, timestamp: 10 };
    let newer = ClientStartStopState { is_playing: true, time: 5, timestamp: 20 };
    assert_eq!(select_preferred_start_stop_state(older, newer), newer);
    assert_eq!(select_preferred_start_stop_state(newer, older), newer);
    let tie = ClientStartStopState { is_playing: true, time: 0, timestamp: 10 };
    assert_eq!(select_preferred_start_stop_state(older, tie), older);
}

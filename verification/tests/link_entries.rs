use rusty_link::encoding::decode_from_slice;
use rusty_link::link::audio_endpoint::{
    AudioEndpointV4, AUDIO_ENDPOINT_V4_HEADER_KEY, AUDIO_ENDPOINT_V4_SIZE,
    AUDIO_ENDPOINT_V6_HEADER_KEY,
};
use rusty_link::link::measurement::{
    Ipv4Endpoint, MeasurementEndpointV4, MEASUREMENT_ENDPOINT_V4_HEADER_KEY,
};
use rusty_link::link::node::NodeId;
use rusty_link::link::payload::{
    decode, GhostTime, HostTime, Payload, PayloadEntry, PrevGhostTime,
};
use rusty_link::link::pingresponder::{
    encode_message, parse_message_header, pong_for_ping, protocol_header, PING, PONG,
};
use rusty_link::link::sessions::SessionId;
use rusty_link::link::triple_buffer::TripleBuffer;

#[test]
fn audio_endpoint_v4_key_is_aep4() {
    assert_eq!(AUDIO_ENDPOINT_V4_HEADER_KEY, 0x61657034);
    assert_eq!(AUDIO_ENDPOINT_V6_HEADER_KEY, 0x61657036);
}

#[test]
fn audio_endpoint_v4_roundtrip() {
    // 192.168.1.5:40404
    let entry = AudioEndpointV4 {
        endpoint: Some(Ipv4Endpoint { ip: 0xc0a80105, port: 40404 }),
    };
    let encoded = entry.encode().unwrap();
    assert_eq!(encoded.len(), 8 + AUDIO_ENDPOINT_V4_SIZE as usize);

    let (decoded, _) = decode_from_slice::<AudioEndpointV4>(&encoded[8..]).unwrap();
    assert_eq!(decoded, entry);
}

#[test]
fn unspecified_endpoint_decodes_to_none() {
    let entry = AudioEndpointV4 { endpoint: None };
    let encoded = entry.encode().unwrap();
    let (decoded, _) = decode_from_slice::<AudioEndpointV4>(&encoded[8..]).unwrap();
    assert_eq!(decoded.endpoint, None);
}

#[test]
fn measurement_endpoint_wire_layout() {
    assert_eq!(MEASUREMENT_ENDPOINT_V4_HEADER_KEY, 0x6d657034);
    let entry = MeasurementEndpointV4 {
        endpoint: Some(Ipv4Endpoint { ip: 0x7f000001, port: 0x1234 }),
    };
    let encoded = entry.encode().unwrap();
    assert_eq!(encoded, [0x6d, 0x65, 0x70, 0x34, 0, 0, 0, 6, 127, 0, 0, 1, 0x12, 0x34]);
    let (decoded, n) = decode_from_slice::<MeasurementEndpointV4>(&encoded[8..]).unwrap();
    assert_eq!(decoded, entry);
    assert_eq!(n, 6);
    let missing = MeasurementEndpointV4 { endpoint: None }.encode().unwrap();
    assert_eq!(&missing[8..], &[0, 0, 0, 0, 0, 0]);
}

#[test]
fn pingresponder_roundtrip() {
    let payload = Payload {
        entries: vec![PayloadEntry::HostTime(HostTime::default())],
    };

    let message = encode_message(PING, &payload).unwrap();
    let (header, offset) = parse_message_header(&message).unwrap();
    assert_eq!(header.message_type, PING);
    assert_eq!(offset, 9);
}

#[test]
fn measurement_protocol_header_is_link_v1() {
    assert_eq!(&protocol_header()[..7], b"_link_v");
    assert_eq!(protocol_header()[7], 1);
}

#[test]
fn pongs_echo_host_and_previous_ghost_times() {
    let ping = Payload {
        entries: vec![
            PayloadEntry::HostTime(HostTime::new(11)),
            PayloadEntry::PrevGhostTime(PrevGhostTime::new(13)),
        ],
    };
    let message = encode_message(PING, &ping).unwrap();
    let session = SessionId(NodeId::from_array([4; 8]));
    let pong = pong_for_ping(&message, session, 77).unwrap();
    let (header, offset) = parse_message_header(&pong).unwrap();
    assert_eq!(header.message_type, PONG);
    let mut decoded = Payload::default();
    decode(&mut decoded, &pong[offset..]).unwrap();
    assert_eq!(decoded.entries.len(), 4);
    assert!(matches!(decoded.entries[0], PayloadEntry::HostTime(HostTime { time: 11 })));
    assert!(matches!(decoded.entries[1], PayloadEntry::PrevGhostTime(PrevGhostTime { time: 13 })));
    match decoded.entries[2] {
        PayloadEntry::SessionMembership(m) => assert_eq!(m.session_id, session),
        _ => panic!("expected the session"),
    }
    assert!(matches!(decoded.entries[3], PayloadEntry::GhostTime(GhostTime { time: 77 })));
}

#[test]
fn pongs_do_not_echo_ghost_times() {
    let ping = Payload {
        entries: vec![
            PayloadEntry::GhostTime(GhostTime::new(12)),
            PayloadEntry::HostTime(HostTime::new(11)),
        ],
    };
    let message = encode_message(PING, &ping).unwrap();
    let session = SessionId(NodeId::from_array([4; 8]));
    let pong = pong_for_ping(&message, session, 5).unwrap();
    let mut decoded = Payload::default();
    decode(&mut decoded, &pong[9..]).unwrap();
    assert_eq!(decoded.entries.len(), 3);
    assert!(matches!(decoded.entries[0], PayloadEntry::HostTime(HostTime { time: 11 })));
    assert!(matches!(decoded.entries[2], PayloadEntry::GhostTime(GhostTime { time: 5 })));
}

#[test]
fn oversized_pings_get_no_pong() {
    let ping = Payload {
        entries: vec![
            PayloadEntry::HostTime(HostTime::new(1)),
            PayloadEntry::HostTime(HostTime::new(2)),
            PayloadEntry::HostTime(HostTime::new(3)),
        ],
    };
    let message = encode_message(PING, &ping).unwrap();
    assert_eq!(message.len() - 9, 48);
    let session = SessionId(NodeId::from_array([4; 8]));
    assert!(pong_for_ping(&message, session, 0).is_none());
}

#[test]
fn test_triple_buffer_basic() {
    let mut buffer = TripleBuffer::new_with_initial(42i32);

    // Initial read should return the initial value
    assert_eq!(buffer.read(), 42);

    // Write a new value
    buffer.write(123);

    // Read should return the new value
    assert_eq!(buffer.read(), 123);
}

#[test]
fn test_triple_buffer_new_detection() {
    let mut buffer = TripleBuffer::new_with_initial(0i32);

    // Initially no new data
    assert_eq!(buffer.read_new(), None);

    // Write data
    buffer.write(42);

    // Should detect new data
    assert_eq!(buffer.read_new(), Some(42));

    // Second read should not detect new data
    assert_eq!(buffer.read_new(), None);
}

#[test]
fn triple_buffer_last_write_wins() {
    let mut buffer = TripleBuffer::<i32>::new();
    assert_eq!(buffer.read(), 0);
    buffer.write(1);
    buffer.write(2);
    buffer.write(3);
    assert_eq!(buffer.read_new(), Some(3));
    assert_eq!(buffer.read(), 3);
}

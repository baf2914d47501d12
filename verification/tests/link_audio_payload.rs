use rusty_link::link::beats::Beats;
use rusty_link::link::node::NodeId;
use rusty_link::link::sessions::SessionId;
use rusty_link::link_audio::encoding::{ByteStreamReader, ByteStreamWrite};
use rusty_link::link_audio::error::AudioError;
use rusty_link::link_audio::messages::MAX_NAME_SIZE;
use rusty_link::link_audio::payload::{
    parse_payload, truncate_name, AudioBuffer, ChannelAnnouncement, ChannelAnnouncements,
    ChannelBye, ChannelByes, ChannelRequest, ChannelStopRequest, Chunk, Codec, Entry, HostTime,
    Id, PeerAnnouncement, PeerInfo, AUDIO_BUFFER_KEY, CHANNEL_ANNOUNCEMENTS_KEY,
    CHANNEL_BYES_KEY, CHANNEL_ID_KEY, HOST_TIME_KEY, PEER_INFO_KEY,
};

fn id(n: u8) -> Id {
    NodeId::from_array([n; 8])
}

/// The body of the last entry of `payload` with key `key`.
fn body_of(payload: &[u8], key: u32) -> Option<Vec<u8>> {
    let entries = parse_payload(payload).unwrap();
    entries
        .iter()
        .filter(|(k, _)| *k == key)
        .last()
        .map(|(_, body)| body.to_vec())
}

#[test]
fn keys_match_upstream_fourcc() {
    assert_eq!(PEER_INFO_KEY, 0x5f5f_7069);
    assert_eq!(CHANNEL_ID_KEY, 0x6368_6964);
    assert_eq!(CHANNEL_ANNOUNCEMENTS_KEY, 0x6175_6361);
    assert_eq!(CHANNEL_BYES_KEY, 0x6175_6362);
    assert_eq!(AUDIO_BUFFER_KEY, 0x5f61_6275);
}

#[test]
fn peer_info_roundtrip() {
    let info = PeerInfo::new("rusthut");
    let encoded = info.to_payload();
    assert_eq!(encoded.len(), info.size_in_byte_stream() as usize);

    let body = body_of(&encoded, PEER_INFO_KEY).unwrap();
    let decoded = PeerInfo::decode_body(&mut ByteStreamReader::new(&body)).unwrap();
    assert_eq!(decoded.name, info.name);
}

#[test]
fn long_names_are_truncated() {
    let name = "a".repeat(MAX_NAME_SIZE + 100);
    assert_eq!(PeerInfo::new(&name).name.len(), MAX_NAME_SIZE);
}

#[test]
fn truncation_respects_utf8_boundaries() {
    let name = "é".repeat(MAX_NAME_SIZE);
    let truncated = truncate_name(&name);
    assert!(truncated.len() <= MAX_NAME_SIZE);
    assert!(name.starts_with(&truncated));
    assert_eq!(truncated.len(), MAX_NAME_SIZE);
}

#[test]
fn short_names_are_kept() {
    assert_eq!(truncate_name("drums"), "drums");
}

#[test]
fn channel_announcements_roundtrip() {
    let announcements = ChannelAnnouncements {
        channels: vec![
            ChannelAnnouncement {
                name: "left".to_string(),
                id: id(1),
            },
            ChannelAnnouncement {
                name: "right".to_string(),
                id: id(2),
            },
        ],
    };
    let encoded = announcements.to_payload();
    assert_eq!(encoded.len(), announcements.size_in_byte_stream() as usize);

    let body = body_of(&encoded, CHANNEL_ANNOUNCEMENTS_KEY).unwrap();
    let decoded = ChannelAnnouncements::decode_body(&mut ByteStreamReader::new(&body)).unwrap();
    assert_eq!(decoded.channels.len(), 2);
    assert_eq!(decoded.channels[0].name, "left");
    assert_eq!(decoded.channels[0].id, id(1));
    assert_eq!(decoded.channels[1].name, "right");
    assert_eq!(decoded.channels[1].id, id(2));
}

#[test]
fn channel_byes_roundtrip() {
    let byes = ChannelByes {
        byes: vec![ChannelBye { id: id(7) }, ChannelBye { id: id(8) }],
    };
    let encoded = byes.to_payload();
    assert_eq!(encoded.len(), byes.size_in_byte_stream() as usize);

    let body = body_of(&encoded, CHANNEL_BYES_KEY).unwrap();
    let decoded = ChannelByes::decode_body(&mut ByteStreamReader::new(&body)).unwrap();
    assert_eq!(decoded.byes.len(), 2);
    assert_eq!(decoded.byes[0].id, id(7));
    assert_eq!(decoded.byes[1].id, id(8));
}

#[test]
fn peer_announcement_roundtrip() {
    let announcement = PeerAnnouncement {
        node_id: id(3),
        session_id: SessionId(id(4)),
        peer_info: PeerInfo::new("peer"),
        channels: ChannelAnnouncements {
            channels: vec![ChannelAnnouncement {
                name: "main".to_string(),
                id: id(5),
            }],
        },
    };

    let payload = announcement.to_payload();
    assert_eq!(payload.len(), announcement.payload_size() as usize);

    let decoded = PeerAnnouncement::from_payload(id(3), &payload).unwrap();
    assert_eq!(decoded.node_id, announcement.node_id);
    assert_eq!(decoded.session_id, announcement.session_id);
    assert_eq!(decoded.peer_info.name, "peer");
    assert_eq!(decoded.channels.channels.len(), 1);
    assert_eq!(decoded.channels.channels[0].name, "main");
    assert_eq!(decoded.channels.channels[0].id, id(5));
}

#[test]
fn channel_request_roundtrip() {
    let request = ChannelRequest {
        peer_id: id(1),
        channel_id: id(2),
    };
    let decoded = ChannelRequest::from_payload(id(1), &request.to_payload()).unwrap();
    assert_eq!(decoded.peer_id, request.peer_id);
    assert_eq!(decoded.channel_id, request.channel_id);

    let stop = ChannelStopRequest {
        peer_id: id(1),
        channel_id: id(2),
    };
    let decoded = ChannelStopRequest::from_payload(id(1), &stop.to_payload()).unwrap();
    assert_eq!(decoded.peer_id, stop.peer_id);
    assert_eq!(decoded.channel_id, stop.channel_id);
}

#[test]
fn a_request_without_a_channel_names_the_zero_identity() {
    let decoded = ChannelRequest::from_payload(id(1), &[]).unwrap();
    assert_eq!(decoded.channel_id, NodeId::default());
}

fn chunk(count: u64, num_frames: u16, begin_beats: i64) -> Chunk {
    // 120 bpm: a beat of 500000 microseconds.
    Chunk {
        count,
        num_frames,
        begin_beats: Beats::from_microbeats(begin_beats),
        micros_per_beat: 500_000,
    }
}

#[test]
fn audio_buffer_roundtrip() {
    let buffer = AudioBuffer {
        channel_id: id(9),
        session_id: id(10),
        chunks: vec![chunk(42, 2, 1_500_000)],
        codec: Codec::PcmI16,
        sample_rate: 44100,
        num_channels: 2,
        // 2 frames * 2 channels * 2 bytes
        bytes: vec![0, 1, 0, 2, 0, 3, 0, 4],
    };

    let encoded = buffer.to_payload();
    assert_eq!(encoded.len(), buffer.size_in_byte_stream() as usize);

    let body = body_of(&encoded, AUDIO_BUFFER_KEY).unwrap();
    let decoded = AudioBuffer::decode_body(&mut ByteStreamReader::new(&body)).unwrap();

    assert_eq!(decoded.channel_id, buffer.channel_id);
    assert_eq!(decoded.session_id, buffer.session_id);
    assert_eq!(decoded.chunks.len(), 1);
    assert_eq!(decoded.chunks[0].count, 42);
    assert_eq!(decoded.chunks[0].num_frames, 2);
    assert_eq!(decoded.chunks[0].begin_beats, Beats::from_microbeats(1_500_000));
    assert_eq!(decoded.chunks[0].micros_per_beat, 500_000);
    assert_eq!(decoded.bytes, buffer.bytes);
    assert_eq!(decoded.num_frames(), 2);
}

#[test]
fn audio_buffer_rejects_frame_byte_mismatch() {
    let buffer = AudioBuffer {
        channel_id: id(1),
        session_id: id(2),
        chunks: vec![chunk(1, 4, 0)],
        codec: Codec::PcmI16,
        sample_rate: 44100,
        num_channels: 2,
        bytes: vec![0, 1],
    };

    let encoded = buffer.to_payload();
    let body = body_of(&encoded, AUDIO_BUFFER_KEY).unwrap();
    let err = AudioBuffer::decode_body(&mut ByteStreamReader::new(&body)).unwrap_err();
    assert!(matches!(err, AudioError::Invalid(_)));
}

#[test]
fn unknown_entries_are_skipped() {
    let mut payload = Vec::new();
    payload.write_u32(u32::from_be_bytes(*b"zzzz"));
    payload.write_u32(4);
    payload.extend_from_slice(&[1, 2, 3, 4]);
    PeerInfo::new("after").encode(&mut payload);

    let mut name = String::new();
    for (key, body) in parse_payload(&payload).unwrap() {
        if key == PEER_INFO_KEY {
            name = PeerInfo::decode_body(&mut ByteStreamReader::new(body)).unwrap().name;
        }
    }
    assert_eq!(name, "after");
}

#[test]
fn host_time_roundtrip() {
    let ht = HostTime { time: 1_234_567 };
    let encoded = ht.to_payload();
    let body = body_of(&encoded, HOST_TIME_KEY).unwrap();
    let decoded = HostTime::decode_body(&mut ByteStreamReader::new(&body)).unwrap();
    assert_eq!(decoded, ht);
}

#[test]
fn an_entry_running_past_the_end_is_an_error() {
    let mut payload = Vec::new();
    payload.write_u32(PEER_INFO_KEY);
    payload.write_u32(100);
    payload.extend_from_slice(&[0, 0]);
    assert!(matches!(parse_payload(&payload), Err(AudioError::Range(_))));
}

#[test]
fn codec_numbers() {
    assert_eq!(Codec::PcmI16.to_u8(), 1);
    assert_eq!(Codec::Invalid.to_u8(), 0);
    assert_eq!(Codec::from_u8(1), Codec::PcmI16);
    assert_eq!(Codec::from_u8(7), Codec::Invalid);
}

use rusty_link::link::node::NodeId;
use rusty_link::link::sessions::SessionId;
use rusty_link::link_audio::channels::Channel;
use rusty_link::link_audio::engine::{find_entry, published_channels, read_audio_message, AudioMessage};
use rusty_link::link_audio::messages::{
    encode_message, AUDIO_BUFFER, CHANNEL_BYES, CHANNEL_REQUEST, PEER_ANNOUNCEMENT, PONG,
    STOP_CHANNEL_REQUEST,
};
use rusty_link::link_audio::payload::{
    AudioBuffer, ChannelAnnouncement, ChannelAnnouncements, ChannelBye, ChannelByes, ChannelRequest,
    ChannelStopRequest, Chunk, Codec, Entry, HostTime, PeerAnnouncement, PeerInfo, AUDIO_BUFFER_KEY,
    HOST_TIME_KEY,
};
use rusty_link::link::beats::Beats;

fn me() -> NodeId {
    NodeId::from_array([1; 8])
}

fn peer() -> NodeId {
    NodeId::from_array([2; 8])
}

fn announcement() -> PeerAnnouncement {
    PeerAnnouncement {
        node_id: peer(),
        session_id: SessionId(NodeId::from_array([5; 8])),
        peer_info: PeerInfo { name: "bass".to_string() },
        channels: ChannelAnnouncements {
            channels: vec![ChannelAnnouncement { name: "low".to_string(), id: NodeId::from_array([6; 8]) }],
        },
    }
}

#[test]
fn own_and_malformed_messages_are_ignored() {
    let payload = HostTime { time: 7 }.to_payload();
    let own = encode_message(me(), 5, PONG, &payload).unwrap();
    assert!(matches!(read_audio_message(&own, me()), AudioMessage::Ignore));
    assert!(matches!(read_audio_message(&own[..10], peer()), AudioMessage::Ignore));
    let mut bad = own.clone();
    bad[0] = b'x';
    assert!(matches!(read_audio_message(&bad, peer()), AudioMessage::Ignore));
    let unknown = encode_message(peer(), 5, 42, &payload).unwrap();
    assert!(matches!(read_audio_message(&unknown, me()), AudioMessage::Ignore));
}

#[test]
fn announcements_are_read_with_their_ping() {
    let mut payload = announcement().to_payload();
    payload.extend(HostTime { time: 1234 }.to_payload());
    let msg = encode_message(peer(), 5, PEER_ANNOUNCEMENT, &payload).unwrap();
    match read_audio_message(&msg, me()) {
        AudioMessage::PeerAnnouncement { peer_id, ttl, announcement: Some(a), ping } => {
            assert_eq!(peer_id, peer());
            assert_eq!(ttl, 5);
            assert_eq!(a.session_id, SessionId(NodeId::from_array([5; 8])));
            assert_eq!(a.peer_info.name, "bass");
            assert_eq!(a.channels.channels.len(), 1);
            assert_eq!(a.channels.channels[0].name, "low");
            assert_eq!(ping, Some(HostTime { time: 1234 }));
        }
        other => panic!("unexpected {:?}", other),
    }
}

#[test]
fn the_last_host_time_counts_and_a_broken_one_stops_the_walk() {
    let mut payload = HostTime { time: 1 }.to_payload();
    payload.extend(HostTime { time: 2 }.to_payload());
    assert_eq!(find_entry::<HostTime>(&payload, HOST_TIME_KEY), Some(HostTime { time: 2 }));
    // An entry of the same kind whose body is too short ends the walk.
    let mut broken = HostTime { time: 3 }.to_payload();
    broken.extend([0x5f, 0x5f, 0x68, 0x74, 0, 0, 0, 2, 9, 9]);
    broken.extend(HostTime { time: 4 }.to_payload());
    assert_eq!(find_entry::<HostTime>(&broken, HOST_TIME_KEY), Some(HostTime { time: 3 }));
    // A truncated entry ends the walk but keeps what came before.
    let mut truncated = HostTime { time: 5 }.to_payload();
    truncated.extend([0, 0, 0, 1, 0, 0, 0, 50, 1]);
    assert_eq!(find_entry::<HostTime>(&truncated, HOST_TIME_KEY), Some(HostTime { time: 5 }));
    assert_eq!(find_entry::<HostTime>(&[], HOST_TIME_KEY), None);
}

#[test]
fn pongs_carry_the_send_time() {
    let msg = encode_message(peer(), 5, PONG, &HostTime { time: 99 }.to_payload()).unwrap();
    assert!(matches!(read_audio_message(&msg, me()), AudioMessage::Pong(Some(99))));
    let empty = encode_message(peer(), 5, PONG, &[]).unwrap();
    assert!(matches!(read_audio_message(&empty, me()), AudioMessage::Pong(None)));
}

#[test]
fn byes_are_read_as_identities() {
    let byes = ChannelByes {
        byes: vec![ChannelBye { id: NodeId::from_array([7; 8]) }, ChannelBye { id: NodeId::from_array([8; 8]) }],
    };
    let msg = encode_message(peer(), 5, CHANNEL_BYES, &byes.to_payload()).unwrap();
    match read_audio_message(&msg, me()) {
        AudioMessage::ChannelByes(ids) => {
            assert_eq!(ids, vec![NodeId::from_array([7; 8]), NodeId::from_array([8; 8])])
        }
        other => panic!("unexpected {:?}", other),
    }
    let none = encode_message(peer(), 5, CHANNEL_BYES, &[]).unwrap();
    match read_audio_message(&none, me()) {
        AudioMessage::ChannelByes(ids) => assert!(ids.is_empty()),
        other => panic!("unexpected {:?}", other),
    }
}

#[test]
fn requests_name_their_channel() {
    let request = ChannelRequest { peer_id: peer(), channel_id: NodeId::from_array([6; 8]) };
    let msg = encode_message(peer(), 3, CHANNEL_REQUEST, &request.to_payload()).unwrap();
    match read_audio_message(&msg, me()) {
        AudioMessage::ChannelRequest { request, ttl } => {
            assert_eq!(request.peer_id, peer());
            assert_eq!(request.channel_id, NodeId::from_array([6; 8]));
            assert_eq!(ttl, 3);
        }
        other => panic!("unexpected {:?}", other),
    }
    let stop = ChannelStopRequest { peer_id: peer(), channel_id: NodeId::from_array([6; 8]) };
    let msg = encode_message(peer(), 3, STOP_CHANNEL_REQUEST, &stop.to_payload()).unwrap();
    match read_audio_message(&msg, me()) {
        AudioMessage::ChannelStopRequest(request) => {
            assert_eq!(request.channel_id, NodeId::from_array([6; 8]))
        }
        other => panic!("unexpected {:?}", other),
    }
    // A request whose entry runs past the end is ignored.
    let msg = encode_message(peer(), 3, CHANNEL_REQUEST, &[0, 0, 0, 1, 0, 0, 0, 9]).unwrap();
    assert!(matches!(read_audio_message(&msg, me()), AudioMessage::Ignore));
}

#[test]
fn audio_buffers_are_decoded() {
    let buffer = AudioBuffer {
        channel_id: NodeId::from_array([6; 8]),
        session_id: NodeId::from_array([5; 8]),
        chunks: vec![Chunk { count: 1, num_frames: 2, begin_beats: Beats::from_microbeats(0), micros_per_beat: 500_000 }],
        codec: Codec::PcmI16,
        sample_rate: 44100,
        num_channels: 1,
        bytes: vec![0, 1, 0, 2],
    };
    let msg = encode_message(peer(), 0, AUDIO_BUFFER, &buffer.to_payload()).unwrap();
    match read_audio_message(&msg, me()) {
        AudioMessage::AudioBuffer(b) => {
            assert_eq!(b.channel_id, NodeId::from_array([6; 8]));
            assert_eq!(b.sample_rate, 44100);
            assert_eq!(b.bytes, vec![0, 1, 0, 2]);
        }
        other => panic!("unexpected {:?}", other),
    }
    assert!(find_entry::<AudioBuffer>(&buffer.to_payload(), AUDIO_BUFFER_KEY).is_some());
    let empty = encode_message(peer(), 0, AUDIO_BUFFER, &[]).unwrap();
    assert!(matches!(read_audio_message(&empty, me()), AudioMessage::Ignore));
}

fn chan(id: u8, session: u8) -> Channel {
    Channel {
        id: NodeId::from_array([id; 8]),
        name: format!("c{}", id),
        peer_id: peer(),
        peer_name: "p".to_string(),
        session_id: SessionId(NodeId::from_array([session; 8])),
    }
}

#[test]
fn own_session_channels_are_listed_first() {
    let channels = vec![chan(1, 9), chan(2, 5), chan(3, 9), chan(4, 5)];
    let listed = published_channels(&channels, SessionId(NodeId::from_array([5; 8])));
    let ids: Vec<u8> = listed.iter().map(|c| c.id.0[0]).collect();
    assert_eq!(ids, vec![2, 4, 1, 3]);
}

use rusty_link::link::beats::Beats;
use rusty_link::link::measurement::Ipv4Endpoint;
use rusty_link::link::node::NodeId;
use rusty_link::link_audio::channels::Channels;
use rusty_link::link_audio::engine::{process_sink, process_step, read_audio_message, AudioMessage};
use rusty_link::link_audio::payload::{AudioBuffer, ChannelRequest, Chunk, Codec};
use rusty_link::link_audio::receivers::Receivers;

fn id(n: u8) -> NodeId {
    NodeId::from_array([n; 8])
}

fn at(port: u16) -> Ipv4Endpoint {
    Ipv4Endpoint { ip: 0x0a000001, port }
}

fn buffer(sample_rate: u32, bytes: Vec<u8>) -> AudioBuffer {
    AudioBuffer {
        channel_id: id(6),
        session_id: id(5),
        chunks: vec![Chunk {
            count: 1,
            num_frames: (bytes.len() / 2) as u16,
            begin_beats: Beats::from_microbeats(0),
            micros_per_beat: 500_000,
        }],
        codec: Codec::PcmI16,
        sample_rate,
        num_channels: 1,
        bytes,
    }
}

const SECOND: u64 = 1_000_000;

#[test]
fn each_buffer_goes_to_each_receiver() {
    let mut receivers = Receivers::new();
    receivers.receive_channel_request(&ChannelRequest { peer_id: id(2), channel_id: id(6) }, 5, Some(at(1)), 0);
    receivers.receive_channel_request(&ChannelRequest { peer_id: id(3), channel_id: id(6) }, 5, Some(at(2)), 0);
    let outbox = [buffer(44100, vec![0, 1]), buffer(48000, vec![0, 2])];
    let (messages, connected) = process_sink(&mut receivers, SECOND, id(1), &outbox);
    assert!(connected);
    assert_eq!(messages.len(), 4);
    let targets: Vec<u16> = messages.iter().map(|m| m.1.port).collect();
    assert_eq!(targets, vec![1, 2, 1, 2]);
    assert_eq!(messages[0].0, messages[1].0);
    match read_audio_message(&messages[2].0, id(9)) {
        AudioMessage::AudioBuffer(b) => assert_eq!(b.sample_rate, 48000),
        other => panic!("unexpected {:?}", other),
    }
}

#[test]
fn nothing_is_sent_once_the_requests_expire() {
    let mut receivers = Receivers::new();
    receivers.receive_channel_request(&ChannelRequest { peer_id: id(2), channel_id: id(6) }, 1, Some(at(1)), 0);
    let (messages, connected) = process_sink(&mut receivers, 100 * SECOND, id(1), &[buffer(44100, vec![0, 1])]);
    assert!(!connected);
    assert!(messages.is_empty());
    assert!(receivers.is_empty());
}

#[test]
fn buffers_too_large_for_a_message_are_dropped() {
    let mut receivers = Receivers::new();
    receivers.receive_channel_request(&ChannelRequest { peer_id: id(2), channel_id: id(6) }, 5, Some(at(1)), 0);
    let (messages, _) = process_sink(&mut receivers, 0, id(1), &[buffer(44100, vec![0; 1200])]);
    assert!(messages.is_empty());
}

#[test]
fn the_list_is_published_when_a_name_changed() {
    let mut channels = Channels::new();
    assert!(process_step(&mut channels, 0, true));
    assert!(!process_step(&mut channels, 0, false));
}

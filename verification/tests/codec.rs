use rusty_link::link::beats::Beats;
use rusty_link::link::node::NodeId;
use rusty_link::link_audio::codec::{PcmDecoder, PcmEncoder, MAX_AUDIO_BYTES};
use rusty_link::link_audio::messages::HEADER_SIZE;
use rusty_link::link_audio::payload::{AudioBuffer, Chunk, Codec, Entry, AUDIO_BUFFER_KEY};
use rusty_link::link_audio::engine::find_entry;

fn id(n: u8) -> NodeId {
    NodeId::from_array([n; 8])
}

fn chunk(count: u64, num_frames: u16) -> Chunk {
    Chunk { count, num_frames, begin_beats: Beats::from_microbeats(0), micros_per_beat: 500_000 }
}

#[test]
fn max_audio_bytes_fits_the_payload_budget() {
    assert!(MAX_AUDIO_BYTES <= AudioBuffer::MAX_AUDIO_BYTES);
    assert_eq!(MAX_AUDIO_BYTES, 576 - HEADER_SIZE - 50);
}

#[test]
fn a_new_encoder_holds_an_empty_buffer() {
    let encoder = PcmEncoder::new(id(1));
    let out = encoder.output();
    assert_eq!(out.channel_id, id(1));
    assert_eq!(out.session_id, NodeId::from_array([0; 8]));
    assert!(out.chunks.is_empty());
    assert_eq!(out.codec, Codec::Invalid);
    assert!(out.bytes.is_empty());
}

#[test]
fn encoded_samples_decode_back() {
    let mut encoder = PcmEncoder::new(id(1));
    let samples: Vec<i16> = (0..8).map(|i| (i as i16 - 4) * 1000).collect();
    assert!(encoder.flush(&samples, &[chunk(1, 2), chunk(2, 2)], 2, 44100, id(2)));
    let out = encoder.output();
    assert_eq!(out.channel_id, id(1));
    assert_eq!(out.session_id, id(2));
    assert_eq!(out.codec, Codec::PcmI16);
    assert_eq!(out.sample_rate, 44100);
    assert_eq!(out.num_channels, 2);
    assert_eq!(out.bytes.len(), 16);
    assert_eq!(&out.bytes[..4], &[0xf0, 0x60, 0xf4, 0x48]);

    // Through the wire and back.
    let payload = out.to_payload();
    let received = find_entry::<AudioBuffer>(&payload, AUDIO_BUFFER_KEY).unwrap();
    let mut decoder = PcmDecoder::new(4);
    let ranges = decoder.decode(&received);
    assert_eq!(ranges, vec![(0, 4), (4, 4)]);
    let mut decoded = Vec::new();
    for (offset, len) in ranges {
        decoded.extend_from_slice(&decoder.samples()[offset..offset + len]);
    }
    assert_eq!(decoded, samples);
}

#[test]
fn too_few_samples_are_not_ready_to_send() {
    let mut encoder = PcmEncoder::new(id(1));
    let samples = [1i16, 2, 3];
    assert!(!encoder.flush(&samples, &[chunk(1, 2)], 2, 48000, id(2)));
    // What there was is encoded all the same.
    assert_eq!(encoder.output().bytes, vec![0, 1, 0, 2, 0, 3]);
    // The buffer is reused: a later block replaces the earlier one.
    assert!(encoder.flush(&samples, &[chunk(2, 1)], 3, 48000, id(3)));
    assert_eq!(encoder.output().bytes, vec![0, 1, 0, 2, 0, 3]);
    assert_eq!(encoder.output().num_channels, 3);
    assert_eq!(encoder.output().chunks[0].count, 2);
}

#[test]
fn the_channel_count_keeps_its_low_byte() {
    let mut encoder = PcmEncoder::new(id(1));
    assert!(encoder.flush(&[], &[], 258, 48000, id(2)));
    assert_eq!(encoder.output().num_channels, 2);
}

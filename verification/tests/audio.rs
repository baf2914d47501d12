use rusty_link::link::beats::Beats;
use rusty_link::link::node::NodeId;
use rusty_link::link_audio::codec::PcmDecoder;
use rusty_link::link_audio::network_metrics::{NetworkMetricsFilter, MAX_SIZE};
use rusty_link::link_audio::payload::{AudioBuffer, Chunk, Codec};
use rusty_link::platform::clock::{ClockTrait, OptimizedClock, SafeClock};

fn chunk(num_frames: u16) -> Chunk {
    Chunk {
        count: 1,
        num_frames,
        begin_beats: Beats::from_microbeats(0),
        micros_per_beat: 500_000,
    }
}

fn buffer(chunks: Vec<Chunk>, num_channels: u8, samples: &[i16]) -> AudioBuffer {
    let mut bytes = Vec::new();
    for s in samples {
        bytes.extend_from_slice(&s.to_be_bytes());
    }
    AudioBuffer {
        channel_id: NodeId::from_array([1; 8]),
        session_id: NodeId::from_array([2; 8]),
        chunks,
        codec: Codec::PcmI16,
        sample_rate: 48000,
        num_channels,
        bytes,
    }
}

#[test]
fn decoded_chunks_give_back_the_samples() {
    let samples: Vec<i16> = (0..8).map(|i| -i as i16).collect();
    let input = buffer(vec![chunk(2), chunk(2)], 2, &samples);
    let mut decoder = PcmDecoder::new(64);
    let ranges = decoder.decode(&input);
    assert_eq!(ranges, vec![(0, 4), (4, 4)]);
    let mut decoded = Vec::new();
    for (offset, len) in ranges {
        decoded.extend_from_slice(&decoder.samples()[offset..offset + len]);
    }
    assert_eq!(decoded, samples);
}

#[test]
fn invalid_codec_decodes_to_nothing() {
    let mut decoder = PcmDecoder::new(16);
    let mut input = buffer(vec![chunk(1)], 2, &[1, 2]);
    input.codec = Codec::Invalid;
    assert!(decoder.decode(&input).is_empty());
    assert_eq!(decoder.samples(), &[0i16; 16]);
}

#[test]
fn chunks_past_the_received_samples_are_not_delivered() {
    let input = buffer(vec![chunk(1), chunk(3)], 2, &[1, 2, 3, 4]);
    let mut decoder = PcmDecoder::new(0);
    assert_eq!(decoder.decode(&input), vec![(0, 2)]);
    // The cache grows to hold what was decoded.
    assert_eq!(decoder.samples(), &[1, 2, 3, 4]);
}

#[test]
fn a_new_decoder_is_zeroed() {
    assert_eq!(PcmDecoder::new(3).samples(), &[0, 0, 0]);
    assert_eq!(PcmDecoder::default().samples().len(), 4096);
}

#[test]
fn window_wraps_after_max_size() {
    let mut filter = NetworkMetricsFilter::new();
    for _ in 0..MAX_SIZE * 3 {
        filter.push(1000);
    }
    assert_eq!(filter.count(), MAX_SIZE);
    assert_eq!(filter.samples(), vec![1000; MAX_SIZE]);
}

#[test]
fn the_window_holds_the_last_ten_round_trips() {
    let mut filter = NetworkMetricsFilter::new();
    assert!(filter.samples().is_empty());
    for t in 1..=12 {
        filter.push(t);
    }
    // Slots 0 and 1 took the 11th and 12th times.
    assert_eq!(filter.samples(), vec![11, 12, 3, 4, 5, 6, 7, 8, 9, 10]);
}

#[test]
fn a_partial_window_holds_what_was_pushed() {
    let mut filter = NetworkMetricsFilter::new();
    filter.push(500);
    assert_eq!(filter.count(), 1);
    assert_eq!(filter.samples(), vec![500]);
}

#[test]
fn test_safe_clock_creation() {
    let clock = SafeClock::new();
    let _micros = clock.micros();
    // Clock should work without panicking
}

#[test]
fn test_safe_clock_monotonic() {
    let clock = SafeClock::new();
    let time1 = clock.micros();
    let mut time2 = clock.micros();
    while time2 < time1 + 1000 {
        time2 = clock.micros();
    }
    assert!(time2 > time1, "Clock should be monotonic");
}

#[test]
fn test_safe_clock_conversions() {
    let clock = SafeClock::new();
    let micros: i64 = 1000;
    let ticks = clock.micros_to_ticks(micros);
    let converted_back = clock.ticks_to_micros(ticks);
    assert_eq!(micros, converted_back);
}

#[test]
fn test_optimized_clock() {
    let clock = OptimizedClock::new();
    let time1 = clock.micros();
    let mut time2 = clock.micros();
    while time2 < time1 + 1000 {
        time2 = clock.micros();
    }
    assert!(time2 > time1, "OptimizedClock should be monotonic");
}

#[test]
fn test_clock_trait_conversions_roundtrip() {
    let clock = SafeClock::new();
    let test_values: Vec<u64> = vec![0, 1, 1000, 1_000_000, 60_000_000];
    for &val in &test_values {
        let micros = val as i64;
        let ticks = clock.micros_to_ticks(micros);
        let back = clock.ticks_to_micros(ticks);
        assert_eq!(micros, back, "Round-trip conversion failed for {val} microseconds");
    }
}

#[test]
fn test_espclock_trait_contract() {
    let clock = SafeClock::new();
    let test_values: Vec<u64> = vec![0, 1, 500, 1_000, 1_000_000, 3_600_000_000];
    for &val in &test_values {
        let micros = val as i64;
        let ticks = clock.micros_to_ticks(micros);
        let back = clock.ticks_to_micros(ticks);
        assert_eq!(micros, back, "Round-trip failed for {val} microseconds");
    }
    let zero = clock.ticks_to_micros(0);
    assert_eq!(zero, 0, "ticks_to_micros(0) must be zero");
    let one_hour_us: u64 = 3_600_000_000;
    let ticks = clock.micros_to_ticks(one_hour_us as i64);
    assert_eq!(ticks, one_hour_us);
    assert_eq!(clock.ticks_to_micros(ticks), one_hour_us as i64);
}

#[test]
fn test_optimized_clock_precision() {
    let clock = OptimizedClock::new();
    let start = clock.micros();
    let mut iterations = 0;
    while clock.micros() - start < 100 {
        iterations += 1;
        if iterations > 100000 {
            break;
        }
    }
    let elapsed = clock.micros() - start;
    assert!(elapsed >= 0, "Should measure positive elapsed time");
}

#[test]
fn negative_micros_wrap_to_ticks_and_back() {
    let clock = OptimizedClock::new();
    assert_eq!(clock.micros_to_ticks(-1), u64::MAX);
    assert_eq!(clock.ticks_to_micros(u64::MAX), -1);
    assert!(clock.ticks() < u64::MAX / 2);
}

use rusty_link::encoding::{decode_from_slice, encode_to_vec};
use rusty_link::link::beats::{Beats, BEATS_SIZE};

/// Beats from a floating-point count, rounded to microbeats.
fn beats(value: f64) -> Beats {
    Beats::from_microbeats((value * 1e6).round() as i64)
}

/// The floating-point count of `b`.
fn floating(b: Beats) -> f64 {
    b.micro_beats() as f64 / 1e6
}

#[test]
fn from_floating() {
    let b = beats(0.5);
    assert_eq!(b.micro_beats(), 500000);
    assert!((0.5 - floating(b)).abs() < 1e-10);
}

#[test]
fn from_micros() {
    let b = Beats::from_microbeats(100000);
    assert_eq!(b.micro_beats(), 100000);
    assert!((0.1 - floating(b)).abs() < 1e-10);
}

#[test]
fn size_bytes() {
    assert_eq!(BEATS_SIZE, 8);
}

#[test]
fn beats_neg() {
    let b = beats(3.0);
    assert_eq!(floating(-b), -3.0);
}

#[test]
fn beats_add() {
    let a = beats(1.5);
    let b = beats(2.5);
    assert_eq!(floating(a + b), 4.0);
}

#[test]
fn beats_sub() {
    let a = beats(5.0);
    let b = beats(2.0);
    assert_eq!(floating(a - b), 3.0);
}

#[test]
fn beats_abs() {
    assert_eq!(beats(-3.0).abs(), beats(3.0));
    assert_eq!(beats(3.0).abs(), beats(3.0));
    assert_eq!(beats(0.0).abs(), beats(0.0));
}

#[test]
fn beats_mod() {
    let a = beats(7.0);
    let b = beats(4.0);
    assert_eq!(floating(a.modulo(b)), 3.0);
}

#[test]
fn beats_into_f64() {
    let b = beats(2.5);
    let f: f64 = floating(b);
    assert!((f - 2.5).abs() < 1e-10);
}

#[test]
fn beats_default_is_zero() {
    let b = Beats::default();
    assert_eq!(b.value, 0);
    assert_eq!(floating(b), 0.0);
}

#[test]
fn beats_ordering() {
    assert!(beats(1.0) < beats(2.0));
    assert!(beats(2.0) > beats(1.0));
    assert_eq!(beats(1.0), beats(1.0));
}

#[test]
fn beats_order_follows_micro_beats() {
    let a = Beats::from_microbeats(-5);
    let b = Beats::from_microbeats(3);
    assert_eq!(a.partial_cmp(&b), Some(std::cmp::Ordering::Less));
    assert_eq!(b.partial_cmp(&a), Some(std::cmp::Ordering::Greater));
    assert_eq!(a.partial_cmp(&a), Some(std::cmp::Ordering::Equal));
    assert!(a <= a && a >= a && !(a < a));
    assert!(Beats::from_microbeats(i64::MIN) < Beats::from_microbeats(i64::MAX));
}

#[test]
fn beats_negative_value() {
    let b = beats(-2.5);
    assert_eq!(b.micro_beats(), -2_500_000);
    assert!((floating(b) - (-2.5)).abs() < 1e-10);
}

#[test]
fn modulo_truncates_toward_zero() {
    assert_eq!(Beats::from_microbeats(-7).modulo(Beats::from_microbeats(4)).micro_beats(), -3);
    assert_eq!(Beats::from_microbeats(7).modulo(Beats::from_microbeats(-4)).micro_beats(), 3);
}

#[test]
fn beats_wire_form_is_big_endian_microbeats() {
    let b = Beats::from_microbeats(0x0102030405060708);
    let enc = encode_to_vec(&b).unwrap();
    assert_eq!(enc, [1, 2, 3, 4, 5, 6, 7, 8]);
    assert_eq!(decode_from_slice::<Beats>(&enc).unwrap(), (b, 8));
}

use rusty_link::link::clock::Clock;

#[test]
fn link_clock_converts_ticks_one_to_one() {
    let clock = Clock::new();
    assert_eq!(clock.ticks_to_micros(5), 5);
    assert_eq!(clock.micros_to_ticks(7), 7);
    let a = clock.micros();
    let b = clock.micros();
    assert!(a >= 0 && b >= a);
}

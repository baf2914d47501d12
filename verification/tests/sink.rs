use rusty_link::link_audio::sink::{commit_fits, SINK_QUEUE_SIZE};

#[test]
fn commits_need_a_channel_and_room() {
    assert!(commit_fits(2, 2, 8));
    assert!(commit_fits(4, 2, 8));
    assert!(!commit_fits(5, 2, 8));
    assert!(!commit_fits(2, 0, 8));
    assert!(commit_fits(0, 1, 0));
    assert_eq!(SINK_QUEUE_SIZE, 128);
}

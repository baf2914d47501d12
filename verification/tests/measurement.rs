use rusty_link::link::measurement::on_pong;
use rusty_link::link::pingresponder::{encode_message, PING, PONG};
use rusty_link::link::controller::SessionPeerCounter;
use rusty_link::link::measurement::{
    first_ping, timer_sends_ping, NUMBER_MEASUREMENTS, measurement_is_done, ping_after_pong, pong_point_count, read_pong, PongTimes,
    NUMBER_DATA_POINTS,
};
use rusty_link::link::node::NodeId;
use rusty_link::link::payload::{GhostTime, HostTime, Payload, PayloadEntry, PrevGhostTime};
use rusty_link::link::sessions::{SessionId, SessionMembership};

#[test]
fn pongs_are_read_entry_by_entry() {
    let session = SessionId(NodeId::from_array([5; 8]));
    let payload = Payload {
        entries: vec![
            PayloadEntry::HostTime(HostTime::new(100)),
            PayloadEntry::SessionMembership(SessionMembership::from(session)),
            PayloadEntry::GhostTime(GhostTime::new(250)),
            PayloadEntry::GhostTime(GhostTime::new(300)),
        ],
    };
    let pong = read_pong(&payload);
    assert_eq!(pong.session_id, session);
    assert_eq!(pong.ghost_time, 300);
    assert_eq!(pong.prev_ghost_time, 0);
    assert_eq!(pong.prev_host_time, 100);
    assert_eq!(pong_point_count(&pong), 1);
}

#[test]
fn the_next_ping_carries_the_previous_ghost_time() {
    let pong = PongTimes {
        session_id: SessionId::default(),
        ghost_time: 1,
        prev_ghost_time: 42,
        prev_host_time: 2,
    };
    let ping = ping_after_pong(7, &pong);
    assert_eq!(ping.entries.len(), 2);
    assert!(matches!(ping.entries[0], PayloadEntry::HostTime(HostTime { time: 7 })));
    assert!(matches!(ping.entries[1], PayloadEntry::PrevGhostTime(PrevGhostTime { time: 42 })));
    assert_eq!(pong_point_count(&pong), 2);
}

#[test]
fn an_empty_pong_yields_no_points() {
    let pong = read_pong(&Payload::default());
    assert_eq!(pong.session_id, SessionId::default());
    assert_eq!(pong_point_count(&pong), 0);
}

#[test]
fn a_measurement_is_done_past_the_point_count() {
    assert!(!measurement_is_done(NUMBER_DATA_POINTS));
    assert!(measurement_is_done(NUMBER_DATA_POINTS + 1));
}

#[test]
fn the_peer_counter_reports_an_emptied_session() {
    let mut counter = SessionPeerCounter::default();
    assert!(!counter.record(0));
    assert!(!counter.record(3));
    assert!(counter.record(0));
    assert_eq!(counter.session_peer_count, 0);
}

#[test]
fn the_timer_pings_until_the_measurements_run_out() {
    assert!(timer_sends_ping(0));
    assert!(timer_sends_ping(NUMBER_MEASUREMENTS - 1));
    assert!(!timer_sends_ping(NUMBER_MEASUREMENTS));
    let ping = first_ping(77);
    assert_eq!(ping.entries.len(), 1);
    assert!(matches!(ping.entries[0], rusty_link::link::payload::PayloadEntry::HostTime(h) if h.time == 77));
}

#[test]
fn pongs_of_the_own_session_are_answered() {
    let session = SessionId(NodeId::from_array([5; 8]));
    let payload = Payload {
        entries: vec![
            PayloadEntry::SessionMembership(SessionMembership { session_id: session }),
            PayloadEntry::GhostTime(GhostTime { time: 1000 }),
            PayloadEntry::PrevGhostTime(PrevGhostTime { time: 900 }),
            PayloadEntry::HostTime(HostTime { time: 40 }),
        ],
    };
    let pong = encode_message(PONG, &payload).unwrap();
    let (ping, times) = on_pong(&pong, session, 77).unwrap();
    assert_eq!(times.ghost_time, 1000);
    assert_eq!(times.prev_ghost_time, 900);
    assert_eq!(times.prev_host_time, 40);
    assert_eq!(ping.entries.len(), 2);
    assert!(matches!(ping.entries[0], PayloadEntry::HostTime(h) if h.time == 77));
    assert!(matches!(ping.entries[1], PayloadEntry::PrevGhostTime(t) if t.time == 900));
    // Another session's pong, and a ping, are ignored.
    assert!(on_pong(&pong, SessionId(NodeId::from_array([6; 8])), 77).is_none());
    let ping_message = encode_message(PING, &payload).unwrap();
    assert!(on_pong(&ping_message, session, 77).is_none());
}

use rusty_link::link::beats::Beats;
use rusty_link::link::node::NodeId;
use rusty_link::link::sessions::{
    session_id_less, session_wins, update_timeline, MeasurementOutcome, Session, SessionId,
    SessionMeasurement, SessionMembership, Sessions, SESSION_MEMBERSHIP_HEADER_KEY,
};
use rusty_link::link::timeline::Timeline;

#[test]
fn sessions_test_key() {
    assert_eq!(SESSION_MEMBERSHIP_HEADER_KEY, 0x73657373);
}

#[test]
fn session_id_equality() {
    let id1 = SessionId(NodeId::from_array([1, 2, 3, 4, 5, 6, 7, 8]));
    let id2 = SessionId(NodeId::from_array([1, 2, 3, 4, 5, 6, 7, 8]));
    let id3 = SessionId(NodeId::from_array([8, 7, 6, 5, 4, 3, 2, 1]));
    assert_eq!(id1, id2);
    assert_ne!(id1, id3);
}

#[test]
fn session_id_ordering() {
    let id_low = SessionId(NodeId::from_array([0, 0, 0, 0, 0, 0, 0, 1]));
    let id_high = SessionId(NodeId::from_array([0, 0, 0, 0, 0, 0, 0, 2]));
    assert!(id_low < id_high);
    assert!(session_id_less(&id_low, &id_high));
    assert!(!session_id_less(&id_high, &id_low));
    assert!(!session_id_less(&id_low, &id_low));
}

#[test]
fn session_id_display() {
    let id = SessionId(NodeId::from_array([
        0xAA, 0xBB, 0xCC, 0xDD, 0x11, 0x22, 0x33, 0x44,
    ]));
    let display = id.to_string();
    assert_eq!(display, "0xaabbccdd11223344");
}

#[test]
fn session_membership_from_session_id() {
    let id = SessionId(NodeId::from_array([1, 2, 3, 4, 5, 6, 7, 8]));
    let membership = SessionMembership::from(id);
    assert_eq!(membership.session_id, id);
}

#[test]
fn session_membership_roundtrip_encode() {
    let id = SessionId(NodeId::from_array([10, 20, 30, 40, 50, 60, 70, 80]));
    let membership = SessionMembership::from(id);
    let encoded = membership.encode().unwrap();
    // Should include the header + SessionId bytes
    assert!(!encoded.is_empty());
    assert_eq!(
        encoded,
        [0x73, 0x65, 0x73, 0x73, 0, 0, 0, 8, 10, 20, 30, 40, 50, 60, 70, 80]
    );
}

fn sid(n: u8) -> SessionId {
    SessionId(NodeId::from_array([n; 8]))
}

fn timeline(beat_origin: i64) -> Timeline {
    Timeline {
        micros_per_beat: 500_000,
        beat_origin: Beats::from_microbeats(beat_origin),
        time_origin: 0,
    }
}

fn session(n: u8, beat_origin: i64) -> Session<u32> {
    Session {
        session_id: sid(n),
        timeline: timeline(beat_origin),
        measurement: SessionMeasurement { x_form: 0, timestamp: 0 },
    }
}

#[test]
fn a_session_ahead_in_ghost_time_wins() {
    assert!(session_wins(500_001, &sid(9), &sid(1)));
    assert!(!session_wins(500_000, &sid(1), &sid(9)));
    assert!(!session_wins(-500_000, &sid(9), &sid(1)));
}

#[test]
fn ties_are_broken_by_session_order() {
    assert!(session_wins(10, &sid(1), &sid(2)));
    assert!(!session_wins(-10, &sid(2), &sid(1)));
    assert!(!session_wins(499_999, &sid(2), &sid(1)));
}

#[test]
fn later_timelines_are_adopted() {
    let s = session(1, 4_000_000);
    assert_eq!(update_timeline(s, timeline(5_000_000)).timeline, timeline(5_000_000));
    assert_eq!(update_timeline(s, timeline(3_000_000)).timeline, timeline(4_000_000));
    assert_eq!(update_timeline(s, timeline(4_000_000)).timeline, timeline(4_000_000));
}

#[test]
fn new_sessions_are_added_and_returned_for_measurement() {
    let mut sessions = Sessions::new(session(1, 0));
    let unmeasured = SessionMeasurement { x_form: 0, timestamp: 0 };
    let (current, fresh) = sessions.saw_session_timeline(sid(2), timeline(1_000_000), unmeasured);
    assert_eq!(current, timeline(0));
    assert_eq!(fresh.unwrap().session_id, sid(2));
    assert_eq!(sessions.others.len(), 2);
    // Seen again: only its timeline may change.
    let (_, again) = sessions.saw_session_timeline(sid(2), timeline(2_000_000), unmeasured);
    assert!(again.is_none());
    assert_eq!(sessions.others[1].timeline, timeline(2_000_000));
}

#[test]
fn the_current_session_adopts_later_timelines_and_is_joined() {
    let mut sessions = Sessions::new(session(1, 1_000_000));
    let unmeasured = SessionMeasurement { x_form: 0, timestamp: 0 };
    assert!(!sessions.has_joined);
    let (current, fresh) = sessions.saw_session_timeline(sid(1), timeline(2_000_000), unmeasured);
    assert_eq!(current, timeline(2_000_000));
    assert!(fresh.is_none());
    assert!(sessions.has_joined);
}

#[test]
fn a_winning_measurement_switches_sessions() {
    let mut sessions = Sessions::new(session(5, 0));
    let unmeasured = SessionMeasurement { x_form: 0, timestamp: 0 };
    sessions.saw_session_timeline(sid(7), timeline(0), unmeasured);
    let measured = SessionMeasurement { x_form: 42, timestamp: 10 };
    match sessions.measurement_succeeded(sid(7), measured, 600_000) {
        MeasurementOutcome::Switch(s) => {
            assert_eq!(s.session_id, sid(7));
            assert_eq!(s.measurement.x_form, 42);
        }
        _ => panic!("expected a switch"),
    }
    assert_eq!(sessions.current.session_id, sid(7));
    assert_eq!(sessions.others[1].session_id, sid(5));
}

#[test]
fn a_losing_measurement_is_kept_but_does_not_switch() {
    let mut sessions = Sessions::new(session(1, 0));
    let unmeasured = SessionMeasurement { x_form: 0, timestamp: 0 };
    sessions.saw_session_timeline(sid(7), timeline(0), unmeasured);
    let measured = SessionMeasurement { x_form: 3, timestamp: 10 };
    assert!(matches!(
        sessions.measurement_succeeded(sid(7), measured, 0),
        MeasurementOutcome::Stay
    ));
    assert_eq!(sessions.current.session_id, sid(1));
    assert_eq!(sessions.others[1].measurement.x_form, 3);
}

#[test]
fn measuring_the_current_session_joins_it_again() {
    let mut sessions = Sessions::new(session(1, 0));
    let measured = SessionMeasurement { x_form: 9, timestamp: 10 };
    match sessions.measurement_succeeded(sid(1), measured, 0) {
        MeasurementOutcome::Join(s) => assert_eq!(s.measurement.x_form, 9),
        _ => panic!("expected a join"),
    }
}

#[test]
fn failed_measurements_forget_other_sessions() {
    let mut sessions = Sessions::new(session(1, 0));
    let unmeasured = SessionMeasurement { x_form: 0, timestamp: 0 };
    sessions.saw_session_timeline(sid(2), timeline(0), unmeasured);
    assert!(sessions.measurement_failed(sid(2)).is_none());
    assert_eq!(sessions.others.len(), 1);
    assert_eq!(sessions.measurement_failed(sid(1)).unwrap().session_id, sid(1));
}

#[test]
fn resetting_forgets_other_sessions() {
    let mut sessions = Sessions::new(session(1, 0));
    sessions.reset_session(session(3, 0));
    assert_eq!(sessions.current.session_id, sid(3));
    assert!(sessions.others.is_empty());
}

#[test]
fn reset_timeline_updates_the_current_sessions_entry() {
    let mut sessions = Sessions::new(session(1, 0));
    sessions.reset_timeline(timeline(7));
    assert_eq!(sessions.others[0].timeline, timeline(7));
}

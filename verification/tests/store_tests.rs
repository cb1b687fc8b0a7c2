use soham::error::AppError;
use soham::models::{EventType, TransitionType};
use soham::store::Store;

#[test]
fn create_and_end_session_sets_duration_from_start() {
    let mut store = Store::new();
    let sid = store.create_session(1000).unwrap();
    store.end_session(sid, 1500).unwrap();
    let s = &store.sessions[0];
    assert_eq!(s.start_time, 1000);
    assert_eq!(s.end_time, Some(1500));
    // duration is end - start, not a distance from any other clock
    assert_eq!(s.duration, Some(500));
}

#[test]
fn end_unknown_session_is_not_found() {
    let mut store = Store::new();
    match store.end_session(7, 1500) {
        Err(AppError::NotFound(_)) => {}
        other => panic!("expected NotFound, got {:?}", other.is_ok()),
    }
}

#[test]
fn session_end_before_start_is_rejected() {
    let mut store = Store::new();
    let sid = store.create_session(1000).unwrap();
    assert!(matches!(store.end_session(sid, 900), Err(AppError::InvalidInput(_))));
}

#[test]
fn out_of_range_timestamp_is_rejected() {
    let mut store = Store::new();
    assert!(matches!(store.create_session(-1), Err(AppError::InvalidInput(_))));
}

#[test]
fn insert_into_unknown_session_is_a_persistence_error() {
    let mut store = Store::new();
    let r = store.insert_window_activity(
        99,
        "App".to_string(),
        "w".to_string(),
        EventType::Focus,
        100,
        Some(2),
        None,
    );
    assert!(matches!(r, Err(AppError::Database(_))));
}

#[test]
fn negative_duration_is_rejected() {
    let mut store = Store::new();
    let sid = store.create_session(100).unwrap();
    let r = store.insert_window_activity(
        sid,
        "App".to_string(),
        "w".to_string(),
        EventType::Focus,
        100,
        Some(-5),
        None,
    );
    assert!(matches!(r, Err(AppError::InvalidInput(_))));
}

#[test]
fn row_ids_are_unique_and_increasing() {
    let mut store = Store::new();
    let sid = store.create_session(100).unwrap();
    let a = store
        .insert_window_activity(sid, "A".to_string(), "w".to_string(), EventType::Focus, 100, Some(2), None)
        .unwrap();
    let b = store
        .insert_app_transition(sid, "A".to_string(), "B".to_string(), TransitionType::AppSwitch, 102)
        .unwrap();
    let c = store
        .insert_screenshot(sid, "/p.png".to_string(), 104, 10, None, None)
        .unwrap();
    assert!(sid < a && a < b && b < c);
}

#[test]
fn delete_session_cascades() {
    let mut store = Store::new();
    let s1 = store.create_session(100).unwrap();
    let s2 = store.create_session(200).unwrap();
    store
        .insert_window_activity(s1, "A".to_string(), "w".to_string(), EventType::Focus, 100, Some(2), None)
        .unwrap();
    store
        .insert_window_activity(s2, "B".to_string(), "w".to_string(), EventType::Focus, 200, Some(2), None)
        .unwrap();
    store
        .insert_app_transition(s1, "A".to_string(), "B".to_string(), TransitionType::AppSwitch, 101)
        .unwrap();
    store.insert_screenshot(s1, "/p.png".to_string(), 102, 10, None, None).unwrap();
    store.insert_audit(103, "info".to_string(), "m".to_string()).unwrap();

    store.delete_session(s1).unwrap();

    assert_eq!(store.sessions.len(), 1);
    assert_eq!(store.sessions[0].id, s2);
    assert_eq!(store.activities.len(), 1);
    assert_eq!(store.activities[0].session_id, s2);
    assert_eq!(store.transitions.len(), 0);
    assert_eq!(store.screenshots.len(), 0);
    // the audit trail is not session-scoped and survives
    assert_eq!(store.audits.len(), 1);

    assert!(matches!(store.delete_session(s1), Err(AppError::NotFound(_))));
}

#[test]
fn audit_lines_are_kept_in_order() {
    let mut store = Store::new();
    store.insert_audit(10, "info".to_string(), "first".to_string()).unwrap();
    store.insert_audit(11, "error".to_string(), "second".to_string()).unwrap();
    assert_eq!(store.audits.len(), 2);
    assert_eq!(store.audits[0].message, "first");
    assert_eq!(store.audits[1].level, "error");
}

#[test]
fn error_messages_name_their_kind() {
    let e = AppError::InvalidInput("bad".to_string());
    assert_eq!(e.message(), "invalid input: bad");
    let e = AppError::Database("down".to_string());
    assert_eq!(e.message(), "database error: down");
    let e = AppError::NotFound("x".to_string());
    assert_eq!(e.message(), "not found: x");
}

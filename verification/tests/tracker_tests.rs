use soham::models::TransitionType;
use soham::store::Store;
use soham::tracker::{record_sample, FocusTracker, Sample};

fn sample(app: &str, title: &str, ts: i64) -> Sample {
    Sample { app_name: app.to_string(), window_title: title.to_string(), pid: 42, timestamp: ts }
}

fn setup() -> (Store, FocusTracker, i64) {
    let mut store = Store::new();
    let sid = store.create_session(100).unwrap();
    let tracker = FocusTracker::new(2);
    (store, tracker, sid)
}

#[test]
fn scenario_editor_to_browser() {
    // Pulses for the editor at t = 100, 102, 104, then the browser at 106:
    // exactly one transition, and the editor's dwell over [100,110) is 6.
    let (mut store, mut tracker, sid) = setup();
    for ts in [100, 102, 104] {
        record_sample(&mut store, &mut tracker, sid, &sample("Editor", "main.rs", ts), false)
            .unwrap();
    }
    record_sample(&mut store, &mut tracker, sid, &sample("Browser", "docs", 106), false).unwrap();

    assert_eq!(store.transitions.len(), 1);
    let t = &store.transitions[0];
    assert_eq!(t.from_app, "Editor");
    assert_eq!(t.to_app, "Browser");
    assert_eq!(t.timestamp, 106);
    assert!(matches!(t.transition_type, TransitionType::AppSwitch));

    let stats = store.get_app_stats(100, 110).unwrap();
    assert_eq!(stats.len(), 2);
    let editor = stats.iter().find(|s| s.app_id == "Editor").unwrap();
    let browser = stats.iter().find(|s| s.app_id == "Browser").unwrap();
    assert_eq!(editor.total_duration, 6);
    assert_eq!(browser.total_duration, 2);
    // percentages in hundredths of a percent sum to exactly 100%
    assert_eq!(editor.percentage + browser.percentage, 10000);
    assert_eq!(editor.percentage, 7500);
    assert_eq!(browser.percentage, 2500);
    // listed largest first
    assert_eq!(stats[0].app_id, "Editor");
}

#[test]
fn title_change_alone_emits_no_transition() {
    let (mut store, mut tracker, sid) = setup();
    record_sample(&mut store, &mut tracker, sid, &sample("Editor", "a.rs", 100), false).unwrap();
    record_sample(&mut store, &mut tracker, sid, &sample("Editor", "b.rs", 102), false).unwrap();
    record_sample(&mut store, &mut tracker, sid, &sample("Editor", "c.rs", 104), false).unwrap();
    assert_eq!(store.transitions.len(), 0);
    assert_eq!(store.activities.len(), 3);
}

#[test]
fn one_transition_per_distinct_change() {
    let (mut store, mut tracker, sid) = setup();
    let apps = ["A", "A", "B", "B", "B", "C", "A"];
    let mut ts = 100;
    for app in apps {
        record_sample(&mut store, &mut tracker, sid, &sample(app, "w", ts), false).unwrap();
        ts += 2;
    }
    // changes: A->B, B->C, C->A
    assert_eq!(store.transitions.len(), 3);
    assert_eq!(store.transitions[0].from_app, "A");
    assert_eq!(store.transitions[0].to_app, "B");
    assert_eq!(store.transitions[1].from_app, "B");
    assert_eq!(store.transitions[1].to_app, "C");
    assert_eq!(store.transitions[2].from_app, "C");
    assert_eq!(store.transitions[2].to_app, "A");
}

#[test]
fn first_sample_records_pulse_without_transition() {
    let (mut store, mut tracker, sid) = setup();
    record_sample(&mut store, &mut tracker, sid, &sample("Editor", "w", 100), false).unwrap();
    assert_eq!(store.transitions.len(), 0);
    assert_eq!(store.activities.len(), 1);
    let a = &store.activities[0];
    assert_eq!(a.app_id, "Editor");
    assert_eq!(a.duration, Some(2));
    assert_eq!(a.session_id, sid);
}

#[test]
fn paused_samples_write_nothing_and_resume_rearms() {
    let (mut store, mut tracker, sid) = setup();
    record_sample(&mut store, &mut tracker, sid, &sample("Editor", "w", 100), false).unwrap();
    let rows_before = store.activities.len();
    let transitions_before = store.transitions.len();
    // while paused, no rows are written, however many samples arrive
    for ts in [102, 104, 106, 108] {
        record_sample(&mut store, &mut tracker, sid, &sample("Browser", "w", ts), true).unwrap();
    }
    assert_eq!(store.activities.len(), rows_before);
    assert_eq!(store.transitions.len(), transitions_before);
    // resuming re-arms recording from the next sample
    record_sample(&mut store, &mut tracker, sid, &sample("Browser", "w", 110), false).unwrap();
    assert_eq!(store.activities.len(), rows_before + 1);
    assert_eq!(store.transitions.len(), transitions_before + 1);
}

#[test]
fn dwell_is_time_since_last_switch() {
    let (_, mut tracker, _) = setup();
    let out = tracker.observe(&sample("A", "w", 100), false);
    assert!(out.dwell.is_none());
    let out = tracker.observe(&sample("B", "w", 107), false);
    assert_eq!(out.dwell, Some(7));
}

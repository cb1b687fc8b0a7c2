use soham::error::AppError;
use soham::models::EventType;
use soham::store::Store;
use soham::time::Date;

fn add_pulse(store: &mut Store, sid: i64, app: &str, ts: i64, dur: i64) {
    store
        .insert_window_activity(
            sid,
            app.to_string(),
            "w".to_string(),
            EventType::Focus,
            ts,
            Some(dur),
            None,
        )
        .unwrap();
}

#[test]
fn reversed_range_is_rejected_not_clamped() {
    let store = Store::new();
    assert!(matches!(store.get_app_stats(10, 5), Err(AppError::InvalidInput(_))));
    assert!(matches!(store.get_activity_heatmap(10, 5), Err(AppError::InvalidInput(_))));
    assert!(matches!(store.get_unified_timeline_events(10, 5), Err(AppError::InvalidInput(_))));
    assert!(matches!(store.get_screenshots_in_range(10, 5), Err(AppError::InvalidInput(_))));
}

#[test]
fn app_stats_aggregate_exactly_the_range() {
    let mut store = Store::new();
    let s1 = store.create_session(100).unwrap();
    let s2 = store.create_session(200).unwrap();
    add_pulse(&mut store, s1, "A", 100, 2);
    add_pulse(&mut store, s1, "A", 102, 3);
    add_pulse(&mut store, s2, "A", 200, 5);
    add_pulse(&mut store, s1, "B", 104, 4);
    // outside the half-open range [100, 200): the row at 200 is excluded
    let stats = store.get_app_stats(100, 200).unwrap();
    let a = stats.iter().find(|s| s.app_id == "A").unwrap();
    let b = stats.iter().find(|s| s.app_id == "B").unwrap();
    assert_eq!(a.total_duration, 5);
    assert_eq!(a.window_count, 2);
    assert_eq!(a.session_count, 1);
    assert_eq!(a.last_used, 102);
    assert_eq!(b.total_duration, 4);
    // distinct sessions counted once each
    let stats_all = store.get_app_stats(0, 1000).unwrap();
    let a_all = stats_all.iter().find(|s| s.app_id == "A").unwrap();
    assert_eq!(a_all.session_count, 2);
    assert_eq!(a_all.total_duration, 10);
    assert_eq!(a_all.last_used, 200);
}

#[test]
fn percentages_sum_to_at_most_full_scale() {
    let mut store = Store::new();
    let sid = store.create_session(100).unwrap();
    // three equal shares: each rounds down to 3333, the sum stays below 10000
    add_pulse(&mut store, sid, "A", 100, 1);
    add_pulse(&mut store, sid, "B", 101, 1);
    add_pulse(&mut store, sid, "C", 102, 1);
    let stats = store.get_app_stats(0, 1000).unwrap();
    let sum: i64 = stats.iter().map(|s| s.percentage).sum();
    assert!(sum <= 10000);
    assert_eq!(stats[0].percentage, 3333);
}

#[test]
fn percentages_all_zero_when_total_is_zero() {
    let mut store = Store::new();
    let sid = store.create_session(100).unwrap();
    store
        .insert_window_activity(sid, "A".to_string(), "w".to_string(), EventType::Focus, 100, None, None)
        .unwrap();
    let stats = store.get_app_stats(0, 1000).unwrap();
    assert_eq!(stats.len(), 1);
    assert_eq!(stats[0].percentage, 0);
    assert_eq!(stats[0].total_duration, 0);
}

#[test]
fn heatmap_buckets_are_disjoint_and_sum_to_total() {
    let mut store = Store::new();
    let sid = store.create_session(100).unwrap();
    // epoch second 0 is a Thursday (day of week 4)
    add_pulse(&mut store, sid, "A", 0, 2); // Thu 00h
    add_pulse(&mut store, sid, "A", 3600, 3); // Thu 01h
    add_pulse(&mut store, sid, "B", 3700, 4); // Thu 01h
    add_pulse(&mut store, sid, "B", 86400, 5); // Fri 00h
    let hm = store.get_activity_heatmap(0, 100000).unwrap();
    let total: i64 = hm.iter().map(|e| e.total_duration).sum();
    assert_eq!(total, 14);
    for (i, e1) in hm.iter().enumerate() {
        for e2 in hm.iter().skip(i + 1) {
            assert!(!(e1.day_of_week == e2.day_of_week && e1.hour_of_day == e2.hour_of_day));
        }
    }
    let thu0 = hm.iter().find(|e| e.day_of_week == 4 && e.hour_of_day == 0).unwrap();
    assert_eq!(thu0.total_duration, 2);
    assert_eq!(thu0.activity_count, 1);
    let thu1 = hm.iter().find(|e| e.day_of_week == 4 && e.hour_of_day == 1).unwrap();
    assert_eq!(thu1.total_duration, 7);
    assert_eq!(thu1.activity_count, 2);
    let fri0 = hm.iter().find(|e| e.day_of_week == 5 && e.hour_of_day == 0).unwrap();
    assert_eq!(fri0.total_duration, 5);
}

#[test]
fn month_and_year_heatmaps_bucket_by_calendar_day() {
    let mut store = Store::new();
    let sid = store.create_session(100).unwrap();
    add_pulse(&mut store, sid, "A", 0, 2); // 1970-01-01
    add_pulse(&mut store, sid, "A", 86400 * 31, 3); // 1970-02-01
    let hm = store.get_activity_heatmap_month(0, 10_000_000).unwrap();
    let total: i64 = hm.iter().map(|e| e.total_duration).sum();
    assert_eq!(total, 5);
    assert!(hm.iter().any(|e| e.day_of_month == 1 && e.total_duration == 5));

    let hy = store.get_activity_heatmap_year(0, 10_000_000).unwrap();
    let total: i64 = hy.iter().map(|e| e.total_duration).sum();
    assert_eq!(total, 5);
    assert!(hy.iter().any(|e| e.day_of_year == 1 && e.total_duration == 2));
    assert!(hy.iter().any(|e| e.day_of_year == 32 && e.total_duration == 3));
}

#[test]
fn session_flow_is_ordered_and_ranked() {
    let mut store = Store::new();
    let sid = store.create_session(100).unwrap();
    add_pulse(&mut store, sid, "B", 104, 2);
    add_pulse(&mut store, sid, "A", 100, 2);
    add_pulse(&mut store, sid, "C", 102, 2);
    let flows = store.get_session_flow(sid);
    assert_eq!(flows.len(), 3);
    assert_eq!(flows[0].app_id, "A");
    assert_eq!(flows[1].app_id, "C");
    assert_eq!(flows[2].app_id, "B");
    for (i, f) in flows.iter().enumerate() {
        assert_eq!(f.position, i as i64 + 1);
    }
    assert!(store.get_session_flow(999).is_empty());
}

#[test]
fn unified_timeline_is_descending() {
    let mut store = Store::new();
    let sid = store.create_session(100).unwrap();
    add_pulse(&mut store, sid, "A", 100, 2);
    add_pulse(&mut store, sid, "B", 104, 2);
    add_pulse(&mut store, sid, "C", 102, 2);
    let events = store.get_unified_timeline_events(100, 200).unwrap();
    assert_eq!(events.len(), 3);
    assert_eq!(events[0].app_id, "B");
    assert_eq!(events[1].app_id, "C");
    assert_eq!(events[2].app_id, "A");
    let events = store.get_unified_timeline_events_for_session(sid);
    assert_eq!(events.len(), 3);
    assert_eq!(events[0].timestamp, 104);
}

#[test]
fn recent_screenshots_are_newest_first_and_limited() {
    let mut store = Store::new();
    let sid = store.create_session(100).unwrap();
    for ts in [100, 300, 200, 400] {
        store
            .insert_screenshot(sid, format!("/s{ts}.png"), ts, 10, None, None)
            .unwrap();
    }
    let shots = store.get_recent_screenshots(3);
    assert_eq!(shots.len(), 3);
    assert_eq!(shots[0].timestamp, 400);
    assert_eq!(shots[1].timestamp, 300);
    assert_eq!(shots[2].timestamp, 200);
    let shots = store.get_screenshots_in_range(150, 350).unwrap();
    assert_eq!(shots.len(), 2);
    assert_eq!(shots[0].timestamp, 300);
    assert_eq!(shots[1].timestamp, 200);
}

#[test]
fn sessions_for_date_count_their_rows() {
    let mut store = Store::new();
    // two sessions on 1970-01-01, one on 1970-01-02
    let s1 = store.create_session(100).unwrap();
    let s2 = store.create_session(50_000).unwrap();
    let s3 = store.create_session(86_400 + 100).unwrap();
    add_pulse(&mut store, s1, "A", 100, 2);
    add_pulse(&mut store, s1, "A", 102, 2);
    add_pulse(&mut store, s3, "B", 86_500, 2);
    store.insert_screenshot(s2, "/p.png".to_string(), 50_001, 10, None, None).unwrap();
    let day1 = Date { year: 1970, month: 1, day: 1 };
    let out = store.get_sessions_for_date(day1);
    assert_eq!(out.len(), 2);
    // newest first
    assert_eq!(out[0].id, s2);
    assert_eq!(out[1].id, s1);
    assert_eq!(out[1].activity_count, 2);
    assert_eq!(out[1].screenshot_count, 0);
    assert_eq!(out[0].activity_count, 0);
    assert_eq!(out[0].screenshot_count, 1);
    let day2 = Date { year: 1970, month: 1, day: 2 };
    let out = store.get_sessions_for_date(day2);
    assert_eq!(out.len(), 1);
    assert_eq!(out[0].id, s3);
}

#[test]
fn daily_flow_selects_by_civil_date() {
    let mut store = Store::new();
    let sid = store.create_session(100).unwrap();
    add_pulse(&mut store, sid, "A", 100, 2);
    add_pulse(&mut store, sid, "B", 86_400 + 50, 2);
    let flows = store.get_app_lifecycle_flow(Date { year: 1970, month: 1, day: 1 });
    assert_eq!(flows.len(), 1);
    assert_eq!(flows[0].app_id, "A");
}

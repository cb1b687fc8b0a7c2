use soham::cache::{CacheKey, TtlCache};
use soham::dashboard::get_dashboard_data;
use soham::models::EventType;
use soham::services::{record_event, EventDraft};
use soham::state::AppState;
use soham::store::Store;

#[test]
fn entries_are_served_within_ttl_and_not_after() {
    let mut cache: TtlCache<i32> = TtlCache::new(4, 30);
    cache.insert(CacheKey::Limit { n: 1 }, 7, 1000);
    assert_eq!(cache.get(&CacheKey::Limit { n: 1 }, 1000), Some(&7));
    assert_eq!(cache.get(&CacheKey::Limit { n: 1 }, 1029), Some(&7));
    assert_eq!(cache.get(&CacheKey::Limit { n: 1 }, 1030), None);
    assert_eq!(cache.get(&CacheKey::Limit { n: 2 }, 1000), None);
}

#[test]
fn insert_replaces_the_same_key() {
    let mut cache: TtlCache<i32> = TtlCache::new(4, 30);
    cache.insert(CacheKey::Range { from: 0, to: 10 }, 1, 1000);
    cache.insert(CacheKey::Range { from: 0, to: 10 }, 2, 1001);
    assert_eq!(cache.get(&CacheKey::Range { from: 0, to: 10 }, 1001), Some(&2));
}

#[test]
fn capacity_is_bounded_by_eviction() {
    let mut cache: TtlCache<i32> = TtlCache::new(2, 1000);
    cache.insert(CacheKey::Limit { n: 1 }, 1, 10);
    cache.insert(CacheKey::Limit { n: 2 }, 2, 11);
    cache.insert(CacheKey::Limit { n: 3 }, 3, 12);
    // the oldest-position entry left; the newer two are served
    assert_eq!(cache.get(&CacheKey::Limit { n: 1 }, 12), None);
    assert_eq!(cache.get(&CacheKey::Limit { n: 2 }, 12), Some(&2));
    assert_eq!(cache.get(&CacheKey::Limit { n: 3 }, 12), Some(&3));
}

#[test]
fn app_keys_compare_by_identity() {
    let mut cache: TtlCache<i32> = TtlCache::new(4, 30);
    cache.insert(CacheKey::App { id: "Editor".to_string() }, 5, 100);
    assert_eq!(cache.get(&CacheKey::App { id: "Editor".to_string() }, 100), Some(&5));
    assert_eq!(cache.get(&CacheKey::App { id: "Browser".to_string() }, 100), None);
}

#[test]
fn invalidation_empties_the_partition() {
    let mut cache: TtlCache<i32> = TtlCache::new(4, 30);
    cache.insert(CacheKey::Limit { n: 1 }, 1, 10);
    cache.invalidate_all();
    assert_eq!(cache.get(&CacheKey::Limit { n: 1 }, 10), None);
}

fn seeded_state() -> AppState {
    let mut st = AppState::new();
    let sid = st.store.create_session(100).unwrap();
    st.current_session_id = sid;
    st.store
        .insert_window_activity(
            sid,
            "Editor".to_string(),
            "w".to_string(),
            EventType::Focus,
            100,
            Some(2),
            None,
        )
        .unwrap();
    st
}

#[test]
fn identical_queries_within_ttl_share_one_result() {
    // A second identical query within the entry's TTL is served from the
    // cache: it returns the same data without a second ledger read, and a
    // write that invalidates the partition forces the next query to
    // re-read the ledger.
    let mut st = seeded_state();
    let d1 = get_dashboard_data(&st.store, &mut st.dashboard_cache, 100, 200, 100).unwrap();
    // the result was stored under the range's key
    assert!(st.dashboard_cache.get(&CacheKey::Range { from: 100, to: 200 }, 100).is_some());
    let d2 = get_dashboard_data(&st.store, &mut st.dashboard_cache, 100, 200, 110).unwrap();
    assert_eq!(d1.app_stats.len(), d2.app_stats.len());
    assert_eq!(d1.app_stats[0].app_id, d2.app_stats[0].app_id);
    assert_eq!(d1.app_stats[0].total_duration, d2.app_stats[0].total_duration);
    assert_eq!(d1.heatmap_data.len(), d2.heatmap_data.len());

    // an invalidating write empties the partition...
    let draft = EventDraft {
        app_id: "Browser".to_string(),
        window_title: "t".to_string(),
        event_type: EventType::Focus,
    };
    let sid = st.current_session_id;
    record_event(&mut st.store, &mut st.dashboard_cache, sid, draft, 120).unwrap();
    assert!(st.dashboard_cache.get(&CacheKey::Range { from: 100, to: 200 }, 120).is_none());

    // ...so the next query re-reads the ledger and sees the write
    let d3 = get_dashboard_data(&st.store, &mut st.dashboard_cache, 100, 200, 120).unwrap();
    assert_eq!(d3.app_stats.len(), 2);
}

#[test]
fn expired_entries_fall_through_to_the_ledger() {
    let mut st = seeded_state();
    let _ = get_dashboard_data(&st.store, &mut st.dashboard_cache, 100, 200, 100).unwrap();
    // the dashboard partition's TTL is short; far past it the entry is stale
    assert!(st.dashboard_cache.get(&CacheKey::Range { from: 100, to: 200 }, 100 + 3600).is_none());
}

#[test]
fn dashboard_rejects_bad_ranges_without_touching_the_cache() {
    let mut st = seeded_state();
    assert!(get_dashboard_data(&st.store, &mut st.dashboard_cache, 200, 100, 100).is_err());
    assert!(get_dashboard_data(&st.store, &mut st.dashboard_cache, -5, 100, 100).is_err());
}

#[test]
fn dashboard_carries_all_partitions() {
    let mut st = AppState::new();
    let sid = st.store.create_session(100).unwrap();
    st.store
        .insert_window_activity(sid, "A".to_string(), "w".to_string(), EventType::Focus, 150, Some(2), None)
        .unwrap();
    st.store.insert_screenshot(sid, "/p.png".to_string(), 160, 10, None, None).unwrap();
    let d = get_dashboard_data(&st.store, &mut st.dashboard_cache, 100, 200, 100).unwrap();
    assert_eq!(d.app_stats.len(), 1);
    assert_eq!(d.active_sessions.len(), 1);
    assert_eq!(d.recent_screenshots.len(), 1);
    assert!(!d.heatmap_data.is_empty());
}

#[test]
fn screenshot_partition_is_independent() {
    let mut st = seeded_state();
    let sid = st.current_session_id;
    st.dashboard_cache.insert(CacheKey::Limit { n: 9 }, dummy_dashboard(), 100);
    soham::services::record_capture(
        &mut st.store,
        &mut st.screenshot_cache,
        sid,
        "/p.png".to_string(),
        150,
        10,
    )
    .unwrap();
    // invalidating the screenshot partition leaves the dashboard partition alone
    assert!(st.dashboard_cache.get(&CacheKey::Limit { n: 9 }, 100).is_some());
}

fn dummy_dashboard() -> soham::dashboard::DashboardData {
    soham::dashboard::DashboardData {
        app_stats: Vec::new(),
        heatmap_data: Vec::new(),
        active_sessions: Vec::new(),
        recent_screenshots: Vec::new(),
    }
}

#[test]
fn screenshot_listings_are_cached_and_invalidated_by_captures() {
    let mut st = seeded_state();
    let sid = st.current_session_id;
    soham::services::record_capture(
        &mut st.store,
        &mut st.screenshot_cache,
        sid,
        "/a.png".to_string(),
        150,
        10,
    )
    .unwrap();
    let s1 = soham::services::get_screenshots_cached(
        &st.store,
        &mut st.screenshot_cache,
        100,
        200,
        150,
    )
    .unwrap();
    assert_eq!(s1.len(), 1);
    // served from the partition on the identical query
    assert!(st.screenshot_cache.get(&CacheKey::Range { from: 100, to: 200 }, 150).is_some());
    let s2 = soham::services::get_screenshots_cached(
        &st.store,
        &mut st.screenshot_cache,
        100,
        200,
        160,
    )
    .unwrap();
    assert_eq!(s2.len(), 1);
    assert_eq!(s1[0].path, s2[0].path);
    // a new capture invalidates the partition, so the next read sees it
    soham::services::record_capture(
        &mut st.store,
        &mut st.screenshot_cache,
        sid,
        "/b.png".to_string(),
        170,
        10,
    )
    .unwrap();
    assert!(st.screenshot_cache.get(&CacheKey::Range { from: 100, to: 200 }, 170).is_none());
    let s3 = soham::services::get_screenshots_cached(
        &st.store,
        &mut st.screenshot_cache,
        100,
        200,
        170,
    )
    .unwrap();
    assert_eq!(s3.len(), 2);
    assert!(soham::services::get_screenshots_cached(
        &st.store,
        &mut st.screenshot_cache,
        200,
        100,
        170
    )
    .is_err());
}

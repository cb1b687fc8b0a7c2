use soham::config::Config;
use soham::icon::{create_fallback_icon, get_app_icon_base64, get_color_for_app, icon_cache_file_name};
use soham::models::{parse_event_type, EventType, TransitionType};
use soham::services::{EventMonitor, RealtimeService, SystemMonitor, Watchdog};
use soham::state::AppState;
use soham::store::Store;
use soham::tracker::resolve_app_name;
use soham::time::{hour_of_ts, weekday_of_ts};

#[test]
fn event_type_strings_round_trip() {
    let kinds = [
        EventType::Focus,
        EventType::Blur,
        EventType::AppOpen,
        EventType::AppClose,
        EventType::WindowCreate,
        EventType::WindowDestroy,
    ];
    for k in kinds {
        assert_eq!(parse_event_type(k.as_str()).unwrap(), k);
    }
    assert_eq!(EventType::Focus.as_str(), "focus");
    assert_eq!(EventType::AppOpen.as_str(), "app_open");
    assert!(parse_event_type("no_such_kind").is_err());
    assert_eq!(TransitionType::AppSwitch.as_str(), "app_switch");
    assert_eq!(TransitionType::CloseWindow.as_str(), "close_window");
}

#[test]
fn clock_arithmetic_comes_out_right() {
    assert_eq!(weekday_of_ts(0), 4); // a Thursday
    assert_eq!(weekday_of_ts(3 * 86_400), 0); // the following Sunday
    assert_eq!(hour_of_ts(3_600 * 5 + 70), 5);
}

#[test]
fn calendar_selection_handles_leap_days() {
    // 946684800 is 2000-01-01T00:00:00Z; day 60 of 2000 was February 29
    let mut store = Store::new();
    let leap = 946_684_800 + 59 * 86_400;
    let sid = store.create_session(leap).unwrap();
    store
        .insert_window_activity(
            sid,
            "A".to_string(),
            "w".to_string(),
            EventType::Focus,
            leap + 10,
            Some(2),
            None,
        )
        .unwrap();
    let day = soham::time::Date { year: 2000, month: 2, day: 29 };
    assert_eq!(store.get_sessions_for_date(day).len(), 1);
    assert_eq!(store.get_app_lifecycle_flow(day).len(), 1);
    let off = soham::time::Date { year: 2000, month: 3, day: 1 };
    assert_eq!(store.get_sessions_for_date(off).len(), 0);
}

#[test]
fn config_defaults_and_path() {
    let c = Config::default();
    assert_eq!(c.screenshot_interval_secs, 300);
    assert_eq!(c.retention_days, 30);
    assert_eq!(Config::path("/data/dir"), "/data/dir/config.toml");
    let c = Config { screenshot_interval_secs: 0, retention_days: 1 };
    assert_eq!(c.effective_interval_secs(), 1);
}

#[test]
fn icon_cache_file_name_is_the_content_hash() {
    // SHA-256 of "abc", hex, with the cache suffix
    assert_eq!(
        icon_cache_file_name("abc"),
        "ba7816bf8f01cfea414140de5dae2223b00361a396177a9cb410ff61f20015ad.txt"
    );
    // equal identities map to equal names, different ones to different names
    assert_eq!(icon_cache_file_name("Editor"), icon_cache_file_name("Editor"));
    assert_ne!(icon_cache_file_name("Editor"), icon_cache_file_name("Browser"));
}

#[test]
fn app_colors_are_consistent() {
    // byte sum of "x" is 120, and 120 % 8 == 0
    assert_eq!(get_color_for_app("x"), "#3B82F6");
    // byte sum of "y" is 121
    assert_eq!(get_color_for_app("y"), "#EF4444");
    assert_eq!(get_color_for_app("Editor"), get_color_for_app("Editor"));
}

#[test]
fn fallback_icon_is_a_data_url_with_the_badge() {
    let url = get_app_icon_base64("editor");
    let prefix = "data:image/svg+xml;base64,";
    assert!(url.starts_with(prefix));
    let decoded = base64::Engine::decode(
        &base64::engine::general_purpose::STANDARD,
        &url[prefix.len()..],
    )
    .unwrap();
    let svg = String::from_utf8(decoded).unwrap();
    assert!(svg.starts_with("<svg"));
    // the lowercase first letter is uppercased for the badge
    assert!(svg.contains(">E</text>"));
    assert!(svg.contains(get_color_for_app("editor")));
    assert_eq!(url, create_fallback_icon("editor"));
}

#[test]
fn app_state_toggles_and_session() {
    let mut st = AppState::new();
    assert!(!st.is_paused());
    assert!(!st.is_app_ready());
    st.pause();
    assert!(st.status().paused);
    st.resume();
    assert!(!st.is_paused());
    st.set_paused(true);
    assert!(st.is_paused());
    st.set_current_session_id(3);
    assert_eq!(st.get_current_session_id(), 3);
    assert_eq!(st.current_session_id(), 3);
    assert!(st.is_app_ready());
}

#[test]
fn event_monitor_emits_blur_then_focus() {
    let mut m = EventMonitor::new();
    let out = m.observe(&"A".to_string(), &"t1".to_string(), false);
    assert_eq!(out.len(), 1);
    assert_eq!(out[0].event_type, EventType::Focus);
    assert_eq!(out[0].app_id, "A");
    // the same pair again: nothing
    let out = m.observe(&"A".to_string(), &"t1".to_string(), false);
    assert!(out.is_empty());
    // a title change alone is a window change for the monitor
    let out = m.observe(&"A".to_string(), &"t2".to_string(), false);
    assert_eq!(out.len(), 2);
    assert_eq!(out[0].event_type, EventType::Blur);
    assert_eq!(out[0].window_title, "t1");
    assert_eq!(out[1].event_type, EventType::Focus);
    assert_eq!(out[1].window_title, "t2");
    // paused: no events, no state change
    let out = m.observe(&"B".to_string(), &"t3".to_string(), true);
    assert!(out.is_empty());
    let out = m.observe(&"A".to_string(), &"t2".to_string(), false);
    assert!(out.is_empty());
}

#[test]
fn cadences_fire_when_due() {
    let mut sm = SystemMonitor::new(5, 100);
    assert!(sm.on_tick(100, false));
    assert!(!sm.on_tick(104, false));
    assert!(sm.on_tick(105, false));
    // paused: the dashboard push waits
    assert!(!sm.on_tick(115, true));
    assert!(sm.on_tick(115, false));

    let mut rt = RealtimeService::new(2, 100);
    assert!(rt.on_tick(100));
    assert!(!rt.on_tick(101));
    assert!(rt.on_tick(102));
}

#[test]
fn watchdog_heartbeats_into_the_audit_trail() {
    let mut store = Store::new();
    let mut wd = Watchdog::new(60, 100);
    assert!(wd.on_tick(&mut store, 100).unwrap());
    assert!(!wd.on_tick(&mut store, 130).unwrap());
    assert!(wd.on_tick(&mut store, 160).unwrap());
    assert_eq!(store.audits.len(), 2);
    assert_eq!(store.audits[0].level, "info");
    assert_eq!(store.audits[0].message, "heartbeat");
    assert_eq!(store.audits[1].timestamp, 160);
}

#[test]
fn icon_lookup_prefers_memory_then_disk() {
    let mut st = AppState::new();
    // nothing cached, nothing on disk: the caller must extract
    assert!(soham::services::lookup_icon(&mut st.icon_cache, "editor", None, 100).is_none());
    // a disk hit is served and repopulates memory
    let r = soham::services::lookup_icon(
        &mut st.icon_cache,
        "editor",
        Some("icon-bytes".to_string()),
        100,
    );
    assert_eq!(r.as_deref(), Some("icon-bytes"));
    // now served from memory, with nothing on disk needed
    let r = soham::services::lookup_icon(&mut st.icon_cache, "editor", None, 200);
    assert_eq!(r.as_deref(), Some("icon-bytes"));
    // a freshly extracted icon replaces the entry
    soham::services::set_icon(&mut st.icon_cache, "editor", "fresh".to_string(), 300);
    let r = soham::services::lookup_icon(&mut st.icon_cache, "editor", None, 300);
    assert_eq!(r.as_deref(), Some("fresh"));
    // other identities stay separate
    assert!(soham::services::lookup_icon(&mut st.icon_cache, "browser", None, 300).is_none());
}

#[test]
fn missing_process_names_get_the_pid_label() {
    assert_eq!(resolve_app_name(Some("Editor".to_string()), 42), "Editor");
    assert_eq!(resolve_app_name(None, 1234), "pid:1234");
    assert_eq!(resolve_app_name(None, 0), "pid:0");
    assert_eq!(resolve_app_name(None, 90876), "pid:90876");
}

#[test]
fn screenshot_placeholder_is_a_fixed_svg_data_url() {
    let url = soham::icon::screenshot_placeholder_data_url();
    let prefix = "data:image/svg+xml;base64,";
    assert!(url.starts_with(prefix));
    let decoded = base64::Engine::decode(
        &base64::engine::general_purpose::STANDARD,
        &url[prefix.len()..],
    )
    .unwrap();
    let svg = String::from_utf8(decoded).unwrap();
    assert!(svg.starts_with("<svg"));
    assert!(svg.contains("Not Available"));
    // the same for every caller
    assert_eq!(url, soham::icon::screenshot_placeholder_data_url());
}

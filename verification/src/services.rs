//! The background tasks' decision logic: the window-event monitor's state
//! machine, the screenshot and heartbeat recorders that write through to
//! the ledger and invalidate the owning cache partition, and the fixed
//! cadences of the periodic tasks. The loops that sleep, probe the OS and
//! emit events live outside the library and call in here each tick.

use vstd::prelude::*;

use crate::cache::{key_view, lookup_in, CacheKey, TtlCache};
use crate::dashboard::DashboardData;
use crate::error::AppError;
use crate::models::EventType;
use crate::store::{Screenshot, Store};
use crate::time::valid_ts;
use crate::timeline::{copy_screenshot, shots_in_range_ok};

verus! {

/// The payload emitted with a new-activity event.
#[derive(Debug, Clone)]
pub struct ActivityPayload {
    pub ts: i64,
    pub app: String,
    pub window_title: String,
    pub pid: i64,
    pub path: String,
}

/// One app's share of use, as pushed to observers.
#[derive(Debug, Clone)]
pub struct AppUsage {
    pub app_name: String,
    pub duration: i64,
}

/// A window event to persist.
#[derive(Debug, Clone)]
pub struct EventDraft {
    pub app_id: String,
    pub window_title: String,
    pub event_type: EventType,
}

/// The window-event monitor: remembers the last focused (app, title) pair
/// and, when it changes, emits a blur for the old pair and a focus for the
/// new one.
#[derive(Debug)]
pub struct EventMonitor {
    pub last_window: Option<(String, String)>,
}

/// The observed pair repeats the remembered one.
pub open spec fn same_window(m: EventMonitor, app: Seq<char>, title: Seq<char>) -> bool {
    m.last_window matches Some(w) && w.0@ == app && w.1@ == title
}

impl EventMonitor {
    /// A monitor that has seen no window yet.
    pub fn new() -> (r: EventMonitor)
        ensures
            r.last_window is None,
    {
        EventMonitor { last_window: None }
    }

    /// Observes the focused (app, title) pair of one tick. While paused,
    /// or while the pair is unchanged, nothing is produced and nothing
    /// changes. On a change, the old pair (if any) gets a blur event, the
    /// new pair a focus event, in that order.
    pub fn observe(&mut self, app: &String, title: &String, paused: bool) -> (out: Vec<
        EventDraft,
    >)
        ensures
            paused ==> *final(self) == *old(self) && out@.len() == 0,
            !paused && same_window(*old(self), app@, title@) ==> *final(self) == *old(self)
                && out@.len() == 0,
            !paused && !same_window(*old(self), app@, title@) ==> {
                &&& final(self).last_window matches Some(w) && w.0@ == app@ && w.1@ == title@
                &&& match old(self).last_window {
                    Some(prev) => {
                        &&& out@.len() == 2
                        &&& out@[0].app_id@ == prev.0@
                        &&& out@[0].window_title@ == prev.1@
                        &&& out@[0].event_type == EventType::Blur
                        &&& out@[1].app_id@ == app@
                        &&& out@[1].window_title@ == title@
                        &&& out@[1].event_type == EventType::Focus
                    },
                    None => {
                        &&& out@.len() == 1
                        &&& out@[0].app_id@ == app@
                        &&& out@[0].window_title@ == title@
                        &&& out@[0].event_type == EventType::Focus
                    },
                }
            },
    {
        if paused {
            return Vec::new();
        }
        let same: bool = match &self.last_window {
            Some(w) => w.0 == *app && w.1 == *title,
            None => false,
        };
        if same {
            return Vec::new();
        }
        let mut out: Vec<EventDraft> = Vec::new();
        let mut prev_opt: Option<(String, String)> = Some((app.clone(), title.clone()));
        core::mem::swap(&mut self.last_window, &mut prev_opt);
        if let Some(prev) = prev_opt {
            out.push(
                EventDraft {
                    app_id: prev.0,
                    window_title: prev.1,
                    event_type: EventType::Blur,
                },
            );
        }
        out.push(
            EventDraft {
                app_id: app.clone(),
                window_title: title.clone(),
                event_type: EventType::Focus,
            },
        );
        out
    }
}

/// Persists one window event and invalidates the dashboard partition, so
/// that no later dashboard read can observe the ledger as it was before
/// this write.
pub fn record_event(
    store: &mut Store,
    dashboard_cache: &mut TtlCache<DashboardData>,
    session_id: i64,
    draft: EventDraft,
    timestamp: i64,
) -> (r: Result<i64, AppError>)
    requires
        old(store).wf(),
        old(dashboard_cache).wf(),
    ensures
        final(store).wf(),
        final(dashboard_cache).wf(),
        r is Ok <==> old(store).can_insert_activity(session_id, timestamp, None),
        match r {
            Ok(id) => {
                &&& final(store).activities@.len() == old(store).activities@.len() + 1
                &&& forall|i: int|
                    0 <= i < old(store).activities@.len() ==> final(store).activities@[i] == old(
                        store,
                    ).activities@[i]
                &&& {
                    let a = final(store).activities@.last();
                    &&& a.id == id
                    &&& a.session_id == session_id
                    &&& a.app_id@ == draft.app_id@
                    &&& a.window_title@ == draft.window_title@
                    &&& a.event_type == draft.event_type
                    &&& a.timestamp == timestamp
                    &&& a.duration is None
                    &&& a.metadata is None
                }
                &&& final(store).sessions@ == old(store).sessions@
                &&& final(store).transitions@ == old(store).transitions@
                &&& final(store).screenshots@ == old(store).screenshots@
                &&& forall|kv: (int, int, int, Seq<char>), now: i64|
                    #[trigger] final(dashboard_cache).get_spec(kv, now) is None
            },
            Err(_) => {
                &&& *final(store) == *old(store)
                &&& *final(dashboard_cache) == *old(dashboard_cache)
            },
        },
{
    let id = match store.insert_window_activity(
        session_id,
        draft.app_id,
        draft.window_title,
        draft.event_type,
        timestamp,
        None,
        None,
    ) {
        Ok(id) => id,
        Err(e) => {
            return Err(e);
        },
    };
    dashboard_cache.invalidate_all();
    Ok(id)
}

/// The screenshot task: its capture cadence, floored at one second.
#[derive(Debug, Clone, Copy)]
pub struct ScreenshotService {
    pub interval_s: u64,
}

impl ScreenshotService {
    /// A service capturing every `interval_secs` seconds, at least one.
    pub fn new(interval_secs: u64) -> (r: ScreenshotService)
        ensures
            r.interval_s == if interval_secs >= 1 {
                interval_secs
            } else {
                1u64
            },
            r.interval_s >= 1,
    {
        ScreenshotService { interval_s: if interval_secs >= 1 { interval_secs } else { 1 } }
    }
}

/// Persists the metadata of one captured screenshot and invalidates the
/// screenshot partition, so that no later listing can miss it because of a
/// stale cache entry.
pub fn record_capture(
    store: &mut Store,
    screenshot_cache: &mut TtlCache<Vec<Screenshot>>,
    session_id: i64,
    path: String,
    timestamp: i64,
    file_size: i64,
) -> (r: Result<i64, AppError>)
    requires
        old(store).wf(),
        old(screenshot_cache).wf(),
    ensures
        final(store).wf(),
        final(screenshot_cache).wf(),
        r is Ok <==> old(store).can_insert_screenshot(session_id, timestamp, file_size),
        match r {
            Ok(id) => {
                &&& final(store).screenshots@.len() == old(store).screenshots@.len() + 1
                &&& forall|i: int|
                    0 <= i < old(store).screenshots@.len() ==> final(store).screenshots@[i]
                        == old(store).screenshots@[i]
                &&& {
                    let s = final(store).screenshots@.last();
                    &&& s.id == id
                    &&& s.session_id == session_id
                    &&& s.path@ == path@
                    &&& s.timestamp == timestamp
                    &&& s.file_size == file_size
                    &&& s.app_id is None
                    &&& s.window_title is None
                }
                &&& final(store).sessions@ == old(store).sessions@
                &&& final(store).activities@ == old(store).activities@
                &&& final(store).transitions@ == old(store).transitions@
                &&& forall|kv: (int, int, int, Seq<char>), now: i64|
                    #[trigger] final(screenshot_cache).get_spec(kv, now) is None
            },
            Err(_) => {
                &&& *final(store) == *old(store)
                &&& *final(screenshot_cache) == *old(screenshot_cache)
            },
        },
{
    let id = match store.insert_screenshot(session_id, path, timestamp, file_size, None, None) {
        Ok(id) => id,
        Err(e) => {
            return Err(e);
        },
    };
    screenshot_cache.invalidate_all();
    Ok(id)
}

/// An owned copy of a screenshot listing, carrying the same records.
fn copy_shots(v: &Vec<Screenshot>) -> (r: Vec<Screenshot>)
    ensures
        r@ == v@,
{
    let mut out: Vec<Screenshot> = Vec::new();
    let mut i: usize = 0;
    while i < v.len()
        invariant
            0 <= i <= v@.len(),
            out@ =~= v@.subrange(0, i as int),
        decreases v@.len() - i,
    {
        let c = copy_screenshot(&v[i]);
        out.push(c);
        proof {
            assert(out@ =~= v@.subrange(0, i as int + 1));
        }
        i = i + 1;
    }
    proof {
        assert(out@ =~= v@);
    }
    out
}

/// Serves the screenshot listing of `[from, to)` through its partition: a
/// result still fresh at `now` is returned as it was stored, without
/// reading the ledger; otherwise the listing is computed from the ledger
/// and stored under the range's key for the partition's TTL.
pub fn get_screenshots_cached(
    store: &Store,
    screenshot_cache: &mut TtlCache<Vec<Screenshot>>,
    from: i64,
    to: i64,
    now: i64,
) -> (r: Result<Vec<Screenshot>, AppError>)
    requires
        store.wf(),
        old(screenshot_cache).wf(),
        valid_ts(now as int),
    ensures
        final(screenshot_cache).wf(),
        final(screenshot_cache).capacity == old(screenshot_cache).capacity,
        final(screenshot_cache).ttl_s == old(screenshot_cache).ttl_s,
        match r {
            Ok(shots) => {
                &&& from <= to
                &&& match old(screenshot_cache).get_spec(
                    key_view((CacheKey::Range { from, to })),
                    now,
                ) {
                    Some(v) => shots@ == v@ && *final(screenshot_cache) == *old(
                        screenshot_cache,
                    ),
                    None => {
                        &&& shots_in_range_ok(store.screenshots@, from, to, shots@)
                        &&& lookup_in(
                            final(screenshot_cache).entries@,
                            key_view((CacheKey::Range { from, to })),
                        ) matches Some(e) && e.value@ == shots@ && e.inserted_at == now
                    },
                }
            },
            Err(e) => {
                &&& from > to
                &&& e matches AppError::InvalidInput(_)
                &&& *final(screenshot_cache) == *old(screenshot_cache)
            },
        },
{
    if from > to {
        return Err(AppError::InvalidInput(String::from_str("reversed time range")));
    }
    let key = CacheKey::Range { from, to };
    match screenshot_cache.get(&key, now) {
        Some(v) => {
            let shots = copy_shots(v);
            return Ok(shots);
        },
        None => {},
    }
    let shots = match store.get_screenshots_in_range(from, to) {
        Ok(v) => v,
        Err(e) => {
            return Err(e);
        },
    };
    let stored = copy_shots(&shots);
    screenshot_cache.insert(key, stored, now);
    Ok(shots)
}

/// Serves an app's icon, with the persisted on-disk cache preceding the
/// in-memory miss path: a fresh in-memory entry wins; otherwise what the
/// disk held is adopted into memory and served; with neither, nothing is
/// returned and the caller extracts the icon and stores it.
pub fn lookup_icon(
    icon_cache: &mut TtlCache<String>,
    app_id: &str,
    disk: Option<String>,
    now: i64,
) -> (r: Option<String>)
    requires
        old(icon_cache).wf(),
        valid_ts(now as int),
    ensures
        final(icon_cache).wf(),
        final(icon_cache).capacity == old(icon_cache).capacity,
        final(icon_cache).ttl_s == old(icon_cache).ttl_s,
        match old(icon_cache).get_spec((2int, 0int, 0int, app_id@), now) {
            Some(v) => r == Some(v) && *final(icon_cache) == *old(icon_cache),
            None => match disk {
                Some(d) => {
                    &&& r == Some(d)
                    &&& lookup_in(final(icon_cache).entries@, (2int, 0int, 0int, app_id@))
                        matches Some(e) && e.value == d && e.inserted_at == now
                },
                None => r is None && *final(icon_cache) == *old(icon_cache),
            },
        },
{
    let key = CacheKey::App { id: app_id.to_owned() };
    proof {
        assert(key_view(key) == (2int, 0int, 0int, app_id@));
    }
    match icon_cache.get(&key, now) {
        Some(v) => {
            let out = v.clone();
            return Some(out);
        },
        None => {},
    }
    match disk {
        Some(d) => {
            let stored = d.clone();
            icon_cache.insert(key, stored, now);
            proof {
                assert(lookup_in(icon_cache.entries@, (2int, 0int, 0int, app_id@))
                    matches Some(e) && e.inserted_at == now);
            }
            Some(d)
        },
        None => None,
    }
}

/// Stores an app's freshly extracted icon in the in-memory partition; the
/// caller also writes it to the on-disk cache under its content-addressed
/// file name.
pub fn set_icon(icon_cache: &mut TtlCache<String>, app_id: &str, data: String, now: i64)
    requires
        old(icon_cache).wf(),
        valid_ts(now as int),
    ensures
        final(icon_cache).wf(),
        final(icon_cache).capacity == old(icon_cache).capacity,
        final(icon_cache).ttl_s == old(icon_cache).ttl_s,
        lookup_in(final(icon_cache).entries@, (2int, 0int, 0int, app_id@)) matches Some(e)
            && e.value == data && e.inserted_at == now,
{
    let key = CacheKey::App { id: app_id.to_owned() };
    proof {
        assert(key_view(key) == (2int, 0int, 0int, app_id@));
    }
    icon_cache.insert(key, data, now);
}

/// A fixed cadence: due every `interval_s` seconds, re-armed on each
/// emission, and silent while paused.
pub open spec fn cadence_wf(interval_s: i64, next_due: i64) -> bool {
    &&& 1 <= interval_s <= crate::time::MAX_TS
    &&& 0 <= next_due
}

/// The periodic dashboard-push task: emits a fresh aggregate at a fixed
/// cadence, independent of explicit queries.
#[derive(Debug, Clone, Copy)]
pub struct SystemMonitor {
    pub interval_s: i64,
    pub next_due: i64,
}

impl SystemMonitor {
    pub open spec fn wf(self) -> bool {
        cadence_wf(self.interval_s, self.next_due)
    }

    /// A monitor first due at `now`, then every `interval_s` seconds.
    pub fn new(interval_s: i64, now: i64) -> (r: SystemMonitor)
        requires
            1 <= interval_s <= crate::time::MAX_TS,
            valid_ts(now as int),
        ensures
            r.wf(),
            r.interval_s == interval_s,
            r.next_due == now,
    {
        SystemMonitor { interval_s, next_due: now }
    }

    /// One tick: emits exactly when unpaused and due, and then re-arms one
    /// interval later.
    pub fn on_tick(&mut self, now: i64, paused: bool) -> (emit: bool)
        requires
            old(self).wf(),
            valid_ts(now as int),
        ensures
            final(self).wf(),
            emit == (!paused && now >= old(self).next_due),
            emit ==> final(self).next_due == now + old(self).interval_s
                && final(self).interval_s == old(self).interval_s,
            !emit ==> *final(self) == *old(self),
    {
        if !paused && now >= self.next_due {
            self.next_due = now + self.interval_s;
            true
        } else {
            false
        }
    }
}

/// The real-time push task: the same cadence over the same aggregates,
/// pushed to observers every few seconds.
#[derive(Debug, Clone, Copy)]
pub struct RealtimeService {
    pub interval_s: i64,
    pub next_due: i64,
}

impl RealtimeService {
    pub open spec fn wf(self) -> bool {
        cadence_wf(self.interval_s, self.next_due)
    }

    /// A service first due at `now`, then every `interval_s` seconds.
    pub fn new(interval_s: i64, now: i64) -> (r: RealtimeService)
        requires
            1 <= interval_s <= crate::time::MAX_TS,
            valid_ts(now as int),
        ensures
            r.wf(),
            r.interval_s == interval_s,
            r.next_due == now,
    {
        RealtimeService { interval_s, next_due: now }
    }

    /// One tick: emits exactly when due, and then re-arms one interval
    /// later. The push runs regardless of the pause flag: pausing stops
    /// recording, not reporting.
    pub fn on_tick(&mut self, now: i64) -> (emit: bool)
        requires
            old(self).wf(),
            valid_ts(now as int),
        ensures
            final(self).wf(),
            emit == (now >= old(self).next_due),
            emit ==> final(self).next_due == now + old(self).interval_s
                && final(self).interval_s == old(self).interval_s,
            !emit ==> *final(self) == *old(self),
    {
        if now >= self.next_due {
            self.next_due = now + self.interval_s;
            true
        } else {
            false
        }
    }
}

/// The watchdog: appends a heartbeat line to the audit trail at a fixed
/// cadence, so that a silent process can be told from a dead one.
#[derive(Debug, Clone, Copy)]
pub struct Watchdog {
    pub interval_s: i64,
    pub next_due: i64,
}

impl Watchdog {
    pub open spec fn wf(self) -> bool {
        cadence_wf(self.interval_s, self.next_due)
    }

    /// A watchdog first due at `now`, then every `interval_s` seconds.
    pub fn new(interval_s: i64, now: i64) -> (r: Watchdog)
        requires
            1 <= interval_s <= crate::time::MAX_TS,
            valid_ts(now as int),
        ensures
            r.wf(),
            r.interval_s == interval_s,
            r.next_due == now,
    {
        Watchdog { interval_s, next_due: now }
    }

    /// One tick: when due, appends one heartbeat audit line and re-arms.
    pub fn on_tick(&mut self, store: &mut Store, now: i64) -> (r: Result<bool, AppError>)
        requires
            old(self).wf(),
            old(store).wf(),
            valid_ts(now as int),
        ensures
            final(self).wf(),
            final(store).wf(),
            r is Ok <==> (now < old(self).next_due || old(store).next_id < i64::MAX),
            match r {
                Ok(emitted) => {
                    &&& emitted == (now >= old(self).next_due)
                    &&& !emitted ==> *final(self) == *old(self) && *final(store) == *old(store)
                    &&& emitted ==> {
                        &&& final(self).next_due == now + old(self).interval_s
                        &&& final(store).audits@.len() == old(store).audits@.len() + 1
                        &&& {
                            let a = final(store).audits@.last();
                            &&& a.timestamp == now
                            &&& a.level@ == "info"@
                            &&& a.message@ == "heartbeat"@
                        }
                        &&& final(store).sessions@ == old(store).sessions@
                        &&& final(store).activities@ == old(store).activities@
                        &&& final(store).transitions@ == old(store).transitions@
                        &&& final(store).screenshots@ == old(store).screenshots@
                    }
                },
                Err(_) => *final(self) == *old(self) && *final(store) == *old(store),
            },
    {
        if now < self.next_due {
            return Ok(false);
        }
        match store.insert_audit(
            now,
            String::from_str("info"),
            String::from_str("heartbeat"),
        ) {
            Ok(_) => {},
            Err(e) => {
                return Err(e);
            },
        }
        self.next_due = now + self.interval_s;
        Ok(true)
    }
}

} // verus!

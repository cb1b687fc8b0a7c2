//! The dashboard aggregate: per-app statistics, the week heatmap, the
//! sessions of the query day and the most recent screenshots, all computed
//! against one snapshot of the ledger, served through the TTL cache so that
//! two identical queries within an entry's lifetime return the same result
//! without touching the ledger again.

use vstd::prelude::*;

use crate::aggregate::{app_stats_ok, AppStats};
use crate::cache::{key_view, lookup_in, CacheKey, TtlCache};
use crate::error::AppError;
use crate::heatmap::{week_heatmap_ok, ActivityHeatmapData};
use crate::store::{Screenshot, Store};
use crate::time::{civil_of, valid_ts, Date};
use crate::timeline::{copy_screenshot, recent_shots_ok, sessions_for_date_ok, SessionSummary};

verus! {

/// Everything one dashboard read returns.
#[derive(Debug)]
pub struct DashboardData {
    pub app_stats: Vec<AppStats>,
    pub heatmap_data: Vec<ActivityHeatmapData>,
    pub active_sessions: Vec<SessionSummary>,
    pub recent_screenshots: Vec<Screenshot>,
}

/// How many screenshots a dashboard lists.
pub const DASHBOARD_SCREENSHOTS: usize = 10;

/// A date names the civil day of a timestamp.
pub open spec fn date_matches(ts: int, date: Date) -> bool {
    &&& civil_of(ts).0 == date.year as int
    &&& civil_of(ts).1 == date.month as int
    &&& civil_of(ts).2 == date.day as int
}

/// Two dashboards carry the same data.
pub open spec fn dashboards_equal(a: DashboardData, b: DashboardData) -> bool {
    &&& a.app_stats@ == b.app_stats@
    &&& a.heatmap_data@ == b.heatmap_data@
    &&& a.active_sessions@ == b.active_sessions@
    &&& a.recent_screenshots@ == b.recent_screenshots@
}

/// A correct dashboard for `[from, to)`: correct statistics and heatmap
/// over the range, the sessions of `from`'s civil day, and the most recent
/// screenshots, all of one ledger snapshot.
pub open spec fn dashboard_ok(st: Store, from: i64, to: i64, date: Date, d: DashboardData) -> bool {
    &&& date_matches(from as int, date)
    &&& app_stats_ok(st.activities@, from, to, d.app_stats@)
    &&& week_heatmap_ok(st.activities@, from, to, d.heatmap_data@)
    &&& sessions_for_date_ok(st.sessions@, st.activities@, st.screenshots@, date, d.active_sessions@)
    &&& recent_shots_ok(st.screenshots@, DASHBOARD_SCREENSHOTS as int, d.recent_screenshots@)
}

/// A correct dashboard for `[from, to)`, dated by `from`'s civil day.
pub open spec fn dashboard_ok_some_date(st: Store, from: i64, to: i64, d: DashboardData) -> bool {
    exists|date: Date| dashboard_ok(st, from, to, date, d)
}

/// An owned copy of one statistics entry, equal to the original.
fn copy_stat(a: &AppStats) -> (r: AppStats)
    ensures
        r == *a,
{
    AppStats {
        app_id: a.app_id.clone(),
        total_duration: a.total_duration,
        session_count: a.session_count,
        last_used: a.last_used,
        percentage: a.percentage,
        window_count: a.window_count,
    }
}

/// An owned copy of a dashboard, carrying the same data.
fn copy_dashboard(d: &DashboardData) -> (r: DashboardData)
    ensures
        dashboards_equal(r, *d),
{
    let mut app_stats: Vec<AppStats> = Vec::new();
    let mut i: usize = 0;
    while i < d.app_stats.len()
        invariant
            0 <= i <= d.app_stats@.len(),
            app_stats@ =~= d.app_stats@.subrange(0, i as int),
        decreases d.app_stats@.len() - i,
    {
        let c = copy_stat(&d.app_stats[i]);
        app_stats.push(c);
        proof {
            assert(app_stats@ =~= d.app_stats@.subrange(0, i as int + 1));
        }
        i = i + 1;
    }
    let mut heatmap_data: Vec<ActivityHeatmapData> = Vec::new();
    let mut i: usize = 0;
    while i < d.heatmap_data.len()
        invariant
            0 <= i <= d.heatmap_data@.len(),
            heatmap_data@ =~= d.heatmap_data@.subrange(0, i as int),
        decreases d.heatmap_data@.len() - i,
    {
        heatmap_data.push(d.heatmap_data[i]);
        proof {
            assert(heatmap_data@ =~= d.heatmap_data@.subrange(0, i as int + 1));
        }
        i = i + 1;
    }
    let mut active_sessions: Vec<SessionSummary> = Vec::new();
    let mut i: usize = 0;
    while i < d.active_sessions.len()
        invariant
            0 <= i <= d.active_sessions@.len(),
            active_sessions@ =~= d.active_sessions@.subrange(0, i as int),
        decreases d.active_sessions@.len() - i,
    {
        active_sessions.push(d.active_sessions[i]);
        proof {
            assert(active_sessions@ =~= d.active_sessions@.subrange(0, i as int + 1));
        }
        i = i + 1;
    }
    let mut recent_screenshots: Vec<Screenshot> = Vec::new();
    let mut i: usize = 0;
    while i < d.recent_screenshots.len()
        invariant
            0 <= i <= d.recent_screenshots@.len(),
            recent_screenshots@ =~= d.recent_screenshots@.subrange(0, i as int),
        decreases d.recent_screenshots@.len() - i,
    {
        let c = copy_screenshot(&d.recent_screenshots[i]);
        recent_screenshots.push(c);
        proof {
            assert(recent_screenshots@ =~= d.recent_screenshots@.subrange(0, i as int + 1));
        }
        i = i + 1;
    }
    let r = DashboardData { app_stats, heatmap_data, active_sessions, recent_screenshots };
    proof {
        assert(r.app_stats@ =~= d.app_stats@);
        assert(r.heatmap_data@ =~= d.heatmap_data@);
        assert(r.active_sessions@ =~= d.active_sessions@);
        assert(r.recent_screenshots@ =~= d.recent_screenshots@);
    }
    r
}

/// Computes a dashboard straight from the ledger. Fails if and only if the
/// range is reversed or its start is out of calendar range.
pub fn compute_dashboard(st: &Store, from: i64, to: i64) -> (r: Result<DashboardData, AppError>)
    requires
        st.wf(),
    ensures
        match r {
            Ok(d) => {
                &&& from <= to
                &&& valid_ts(from as int)
                &&& dashboard_ok_some_date(*st, from, to, d)
            },
            Err(e) => {
                &&& from > to || !valid_ts(from as int)
                &&& e matches AppError::InvalidInput(_)
            },
        },
{
    if from > to {
        return Err(AppError::InvalidInput(String::from_str("reversed time range")));
    }
    if !(0 <= from && from <= crate::time::MAX_TS) {
        return Err(AppError::InvalidInput(String::from_str("timestamp out of range")));
    }
    let cd = crate::time::civil_date_of(from);
    let date = Date { year: cd.0 as i64, month: cd.1 as i64, day: cd.2 as i64 };
    let app_stats = match st.get_app_stats(from, to) {
        Ok(v) => v,
        Err(e) => {
            return Err(e);
        },
    };
    let heatmap_data = match st.get_activity_heatmap(from, to) {
        Ok(v) => v,
        Err(e) => {
            return Err(e);
        },
    };
    let active_sessions = st.get_sessions_for_date(date);
    let recent_screenshots = st.get_recent_screenshots(DASHBOARD_SCREENSHOTS);
    let d = DashboardData { app_stats, heatmap_data, active_sessions, recent_screenshots };
    proof {
        assert(dashboard_ok(*st, from, to, date, d));
        assert(dashboard_ok_some_date(*st, from, to, d));
    }
    Ok(d)
}

/// Serves a dashboard for `[from, to)` through the cache: a result still
/// fresh at `now` is returned as it was stored, without reading the ledger;
/// otherwise the dashboard is computed from the ledger and stored under the
/// range's key for the partition's TTL.
pub fn get_dashboard_data(
    st: &Store,
    cache: &mut TtlCache<DashboardData>,
    from: i64,
    to: i64,
    now: i64,
) -> (r: Result<DashboardData, AppError>)
    requires
        st.wf(),
        old(cache).wf(),
        valid_ts(now as int),
    ensures
        final(cache).wf(),
        final(cache).capacity == old(cache).capacity,
        final(cache).ttl_s == old(cache).ttl_s,
        match r {
            Ok(d) => {
                &&& from <= to && valid_ts(from as int)
                &&& match old(cache).get_spec(
                    key_view((CacheKey::Range { from, to })),
                    now,
                ) {
                    Some(v) => dashboards_equal(d, v) && *final(cache) == *old(cache),
                    None => {
                        &&& dashboard_ok_some_date(*st, from, to, d)
                        &&& lookup_in(final(cache).entries@, key_view((CacheKey::Range { from, to })))
                            matches Some(e) && dashboards_equal(e.value, d) && e.inserted_at
                            == now
                    },
                }
            },
            Err(e) => {
                &&& from > to || !valid_ts(from as int)
                &&& e matches AppError::InvalidInput(_)
                &&& *final(cache) == *old(cache)
            },
        },
{
    if from > to {
        return Err(AppError::InvalidInput(String::from_str("reversed time range")));
    }
    if !(0 <= from && from <= crate::time::MAX_TS) {
        return Err(AppError::InvalidInput(String::from_str("timestamp out of range")));
    }
    let key = CacheKey::Range { from, to };
    let cached = cache.get(&key, now);
    match cached {
        Some(v) => {
            let d = copy_dashboard(v);
            return Ok(d);
        },
        None => {},
    }
    let d = match compute_dashboard(st, from, to) {
        Ok(d) => d,
        Err(e) => {
            return Err(e);
        },
    };
    let stored = copy_dashboard(&d);
    cache.insert(key, stored, now);
    Ok(d)
}

} // verus!

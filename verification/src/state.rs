//! The explicit shared-state object: the ledger, the cache partitions, the
//! pause flag and the current session id, passed by reference to every
//! task. Pause and resume take effect at tick granularity: each producer
//! reads the flag before its next sample.

use vstd::prelude::*;

use crate::cache::TtlCache;
use crate::dashboard::DashboardData;
use crate::store::{Screenshot, Store};

verus! {

/// The recording on/off switch, as queries report it.
#[derive(Debug, Clone, Copy, PartialEq, Eq, Structural)]
pub struct AppStatus {
    pub paused: bool,
}

/// Everything the tasks share.
#[derive(Debug)]
pub struct AppState {
    pub store: Store,
    pub dashboard_cache: TtlCache<DashboardData>,
    pub screenshot_cache: TtlCache<Vec<Screenshot>>,
    pub icon_cache: TtlCache<String>,
    pub paused: bool,
    pub current_session_id: i64,
}

impl AppState {
    pub open spec fn wf(self) -> bool {
        &&& self.store.wf()
        &&& self.dashboard_cache.wf()
        &&& self.screenshot_cache.wf()
        &&& self.icon_cache.wf()
    }

    /// A fresh state: an empty ledger, empty cache partitions with their
    /// tuned sizes and lifetimes (icons large and long-lived, aggregates
    /// and screenshot listings small and short-lived), recording enabled,
    /// and no current session yet.
    pub fn new() -> (r: AppState)
        ensures
            r.wf(),
            !r.paused,
            r.current_session_id == 0,
            r.store.sessions@.len() == 0,
            r.store.activities@.len() == 0,
            r.store.transitions@.len() == 0,
            r.store.screenshots@.len() == 0,
            r.store.audits@.len() == 0,
            r.dashboard_cache.entries@.len() == 0,
            r.dashboard_cache.capacity == 100,
            r.dashboard_cache.ttl_s == 30,
            r.screenshot_cache.entries@.len() == 0,
            r.screenshot_cache.capacity == 50,
            r.screenshot_cache.ttl_s == 60,
            r.icon_cache.entries@.len() == 0,
            r.icon_cache.capacity == 1000,
            r.icon_cache.ttl_s == 3600,
    {
        AppState {
            store: Store::new(),
            dashboard_cache: TtlCache::new(100, 30),
            screenshot_cache: TtlCache::new(50, 60),
            icon_cache: TtlCache::new(1000, 3600),
            paused: false,
            current_session_id: 0,
        }
    }

    /// Switches recording off or on.
    pub fn set_paused(&mut self, paused: bool)
        ensures
            final(self).paused == paused,
            final(self).store == old(self).store,
            final(self).dashboard_cache == old(self).dashboard_cache,
            final(self).screenshot_cache == old(self).screenshot_cache,
            final(self).icon_cache == old(self).icon_cache,
            final(self).current_session_id == old(self).current_session_id,
    {
        self.paused = paused;
    }

    /// Whether recording is paused.
    pub fn is_paused(&self) -> (r: bool)
        ensures
            r == self.paused,
    {
        self.paused
    }

    /// Suspends recording.
    pub fn pause(&mut self)
        ensures
            final(self).paused,
            final(self).store == old(self).store,
            final(self).dashboard_cache == old(self).dashboard_cache,
            final(self).screenshot_cache == old(self).screenshot_cache,
            final(self).icon_cache == old(self).icon_cache,
            final(self).current_session_id == old(self).current_session_id,
    {
        self.paused = true;
    }

    /// Resumes recording from the next tick.
    pub fn resume(&mut self)
        ensures
            !final(self).paused,
            final(self).store == old(self).store,
            final(self).dashboard_cache == old(self).dashboard_cache,
            final(self).screenshot_cache == old(self).screenshot_cache,
            final(self).icon_cache == old(self).icon_cache,
            final(self).current_session_id == old(self).current_session_id,
    {
        self.paused = false;
    }

    /// Reports the recording switch.
    pub fn status(&self) -> (r: AppStatus)
        ensures
            r.paused == self.paused,
    {
        AppStatus { paused: self.paused }
    }

    /// Makes a session the current one.
    pub fn set_current_session_id(&mut self, session_id: i64)
        ensures
            final(self).current_session_id == session_id,
            final(self).store == old(self).store,
            final(self).dashboard_cache == old(self).dashboard_cache,
            final(self).screenshot_cache == old(self).screenshot_cache,
            final(self).icon_cache == old(self).icon_cache,
            final(self).paused == old(self).paused,
    {
        self.current_session_id = session_id;
    }

    /// The current session id.
    pub fn get_current_session_id(&self) -> (r: i64)
        ensures
            r == self.current_session_id,
    {
        self.current_session_id
    }

    /// The current session id, as the query surface exposes it.
    pub fn current_session_id(&self) -> (r: i64)
        ensures
            r == self.current_session_id,
    {
        self.current_session_id
    }

    /// Whether startup completed: a session has been created and made
    /// current.
    pub fn is_app_ready(&self) -> (r: bool)
        ensures
            r == (self.current_session_id > 0),
    {
        self.current_session_id > 0
    }
}

} // verus!

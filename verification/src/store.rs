//! The activity ledger: session-scoped tables for window activities,
//! transitions, screenshots and audit events. One writer mutates it at a
//! time; every mutating operation preserves the well-formedness invariant
//! `wf`: unique increasing row ids, epoch-second timestamps in range,
//! non-negative durations, every row referencing an existing session, and a
//! running total of activity durations that never overflows.

use vstd::prelude::*;

use crate::error::AppError;
use crate::models::{EventType, TransitionType};
use crate::time::valid_ts;

verus! {

/// A bounded span of monitoring activity scoping all activity rows.
#[derive(Debug, Clone, Copy)]
pub struct Session {
    pub id: i64,
    pub start_time: i64,
    pub end_time: Option<i64>,
    pub duration: Option<i64>,
}

/// One pulse or discrete focus event attributed to a session.
#[derive(Debug, Clone)]
pub struct WindowActivity {
    pub id: i64,
    pub session_id: i64,
    pub app_id: String,
    pub window_title: String,
    pub event_type: EventType,
    pub timestamp: i64,
    pub duration: Option<i64>,
    pub metadata: Option<String>,
}

/// A recorded change of focused app identity.
#[derive(Debug, Clone)]
pub struct Transition {
    pub id: i64,
    pub session_id: i64,
    pub from_app: String,
    pub to_app: String,
    pub transition_type: TransitionType,
    pub timestamp: i64,
}

/// Metadata of a captured screenshot; the binary payload lives outside.
#[derive(Debug, Clone)]
pub struct Screenshot {
    pub id: i64,
    pub session_id: i64,
    pub path: String,
    pub timestamp: i64,
    pub file_size: i64,
    pub app_id: Option<String>,
    pub window_title: Option<String>,
}

/// One line of the audit trail.
#[derive(Debug, Clone)]
pub struct AuditEvent {
    pub id: i64,
    pub timestamp: i64,
    pub level: String,
    pub message: String,
}

/// The duration a ledger row contributes to aggregates: its recorded
/// duration, or zero where none was recorded.
pub open spec fn dur_of(a: WindowActivity) -> int {
    match a.duration {
        Some(d) => d as int,
        None => 0,
    }
}

/// Sum of the durations of a row sequence.
pub open spec fn sum_durations(rows: Seq<WindowActivity>) -> int
    decreases rows.len(),
{
    if rows.len() == 0 {
        0
    } else {
        sum_durations(rows.drop_last()) + dur_of(rows.last())
    }
}

/// Appending a row adds its duration to the sum.
pub proof fn lemma_sum_durations_push(rows: Seq<WindowActivity>, a: WindowActivity)
    ensures
        sum_durations(rows.push(a)) == sum_durations(rows) + dur_of(a),
{
    assert(rows.push(a).drop_last() =~= rows);
}

/// All rows of a sequence carry non-negative durations.
pub open spec fn durs_nonneg(rows: Seq<WindowActivity>) -> bool {
    forall|i: int| 0 <= i < rows.len() ==> dur_of(#[trigger] rows[i]) >= 0
}

/// A sum of non-negative durations is non-negative.
pub proof fn lemma_sum_durations_nonneg(rows: Seq<WindowActivity>)
    requires
        durs_nonneg(rows),
    ensures
        sum_durations(rows) >= 0,
    decreases rows.len(),
{
    if rows.len() > 0 {
        lemma_sum_durations_nonneg(rows.drop_last());
    }
}

/// A prefix of rows with non-negative durations sums to no more than the
/// whole sequence.
pub proof fn lemma_sum_durations_prefix_le(rows: Seq<WindowActivity>, k: int)
    requires
        durs_nonneg(rows),
        0 <= k <= rows.len(),
    ensures
        sum_durations(rows.subrange(0, k)) <= sum_durations(rows),
    decreases rows.len() - k,
{
    if k == rows.len() {
        assert(rows.subrange(0, k) =~= rows);
    } else {
        lemma_sum_durations_prefix_le(rows, k + 1);
        assert(rows.subrange(0, k + 1).drop_last() =~= rows.subrange(0, k));
        assert(rows.subrange(0, k + 1).last() == rows[k]);
    }
}

/// Filtering rows with non-negative durations cannot increase the sum.
pub proof fn lemma_sum_durations_filter_le(
    rows: Seq<WindowActivity>,
    pred: spec_fn(WindowActivity) -> bool,
)
    requires
        durs_nonneg(rows),
    ensures
        sum_durations(rows.filter(pred)) <= sum_durations(rows),
    decreases rows.len(),
{
    reveal(Seq::filter);
    if rows.len() > 0 {
        lemma_sum_durations_filter_le(rows.drop_last(), pred);
        if pred(rows.last()) {
            lemma_sum_durations_push(rows.drop_last().filter(pred), rows.last());
        } else {
            assert(dur_of(rows.last()) >= 0);
        }
    }
}

/// The in-memory ledger. The durable mirror on disk is kept outside the
/// library by replaying the same mutations.
#[derive(Debug)]
pub struct Store {
    pub sessions: Vec<Session>,
    pub activities: Vec<WindowActivity>,
    pub transitions: Vec<Transition>,
    pub screenshots: Vec<Screenshot>,
    pub audits: Vec<AuditEvent>,
    pub next_id: i64,
    pub total_duration: i64,
}

impl Store {
    pub open spec fn sessions_wf(self) -> bool {
        &&& forall|i: int, j: int|
            0 <= i < j < self.sessions@.len() ==> self.sessions@[i].id < self.sessions@[j].id
        &&& forall|i: int|
            0 <= i < self.sessions@.len() ==> {
                let s = #[trigger] self.sessions@[i];
                &&& 1 <= s.id < self.next_id
                &&& valid_ts(s.start_time as int)
                &&& (s.end_time matches Some(e) ==> valid_ts(e as int))
            }
    }

    pub open spec fn activities_wf(self) -> bool {
        &&& forall|i: int, j: int|
            0 <= i < j < self.activities@.len() ==> self.activities@[i].id
                < self.activities@[j].id
        &&& forall|i: int|
            0 <= i < self.activities@.len() ==> {
                let a = #[trigger] self.activities@[i];
                &&& 1 <= a.id < self.next_id
                &&& valid_ts(a.timestamp as int)
                &&& (a.duration matches Some(d) ==> 0 <= d)
                &&& self.has_session(a.session_id as int)
            }
    }

    pub open spec fn transitions_wf(self) -> bool {
        &&& forall|i: int, j: int|
            0 <= i < j < self.transitions@.len() ==> self.transitions@[i].id
                < self.transitions@[j].id
        &&& forall|i: int|
            0 <= i < self.transitions@.len() ==> {
                let t = #[trigger] self.transitions@[i];
                &&& 1 <= t.id < self.next_id
                &&& valid_ts(t.timestamp as int)
                &&& self.has_session(t.session_id as int)
            }
    }

    pub open spec fn screenshots_wf(self) -> bool {
        &&& forall|i: int, j: int|
            0 <= i < j < self.screenshots@.len() ==> self.screenshots@[i].id
                < self.screenshots@[j].id
        &&& forall|i: int|
            0 <= i < self.screenshots@.len() ==> {
                let s = #[trigger] self.screenshots@[i];
                &&& 1 <= s.id < self.next_id
                &&& valid_ts(s.timestamp as int)
                &&& 0 <= s.file_size
                &&& self.has_session(s.session_id as int)
            }
    }

    pub open spec fn audits_wf(self) -> bool {
        &&& forall|i: int, j: int|
            0 <= i < j < self.audits@.len() ==> self.audits@[i].id < self.audits@[j].id
        &&& forall|i: int|
            0 <= i < self.audits@.len() ==> {
                let a = #[trigger] self.audits@[i];
                &&& 1 <= a.id < self.next_id
                &&& valid_ts(a.timestamp as int)
            }
    }

    /// Well-formedness of the whole ledger.
    pub open spec fn wf(self) -> bool {
        &&& 1 <= self.next_id
        &&& self.sessions_wf()
        &&& self.activities_wf()
        &&& self.transitions_wf()
        &&& self.screenshots_wf()
        &&& self.audits_wf()
        &&& self.total_duration as int == sum_durations(self.activities@)
    }

    /// Whether a session with the given id exists.
    pub open spec fn has_session(self, id: int) -> bool {
        exists|i: int| 0 <= i < self.sessions@.len() && self.sessions@[i].id == id
    }

    /// An empty ledger.
    pub fn new() -> (r: Store)
        ensures
            r.wf(),
            r.sessions@.len() == 0,
            r.activities@.len() == 0,
            r.transitions@.len() == 0,
            r.screenshots@.len() == 0,
            r.audits@.len() == 0,
            r.next_id == 1,
    {
        Store {
            sessions: Vec::new(),
            activities: Vec::new(),
            transitions: Vec::new(),
            screenshots: Vec::new(),
            audits: Vec::new(),
            next_id: 1,
            total_duration: 0,
        }
    }

    /// Index of the session with the given id, if any.
    fn find_session(&self, session_id: i64) -> (r: Option<usize>)
        ensures
            match r {
                Some(i) => 0 <= i < self.sessions@.len() && self.sessions@[i as int].id
                    == session_id,
                None => !self.has_session(session_id as int),
            },
    {
        let mut i: usize = 0;
        while i < self.sessions.len()
            invariant
                0 <= i <= self.sessions@.len(),
                forall|j: int| 0 <= j < i ==> self.sessions@[j].id != session_id,
            decreases self.sessions@.len() - i,
        {
            if self.sessions[i].id == session_id {
                return Some(i);
            }
            i = i + 1;
        }
        None
    }

    /// Whether a session with the given id exists.
    pub fn session_exists(&self, session_id: i64) -> (r: bool)
        ensures
            r == self.has_session(session_id as int),
    {
        self.find_session(session_id).is_some()
    }

    /// Opens a new session starting at `start_time` and returns its id.
    /// Succeeds if and only if the timestamp is in range and an id is left.
    pub fn create_session(&mut self, start_time: i64) -> (r: Result<i64, AppError>)
        requires
            old(self).wf(),
        ensures
            final(self).wf(),
            match r {
                Ok(id) => {
                    &&& valid_ts(start_time as int)
                    &&& old(self).next_id < i64::MAX
                    &&& id == old(self).next_id
                    &&& final(self).sessions@ == old(self).sessions@.push(
                        (Session { id, start_time, end_time: None, duration: None }),
                    )
                    &&& final(self).activities@ == old(self).activities@
                    &&& final(self).transitions@ == old(self).transitions@
                    &&& final(self).screenshots@ == old(self).screenshots@
                    &&& final(self).audits@ == old(self).audits@
                    &&& final(self).next_id == old(self).next_id + 1
                },
                Err(e) => {
                    &&& *final(self) == *old(self)
                    &&& !(valid_ts(start_time as int) && old(self).next_id < i64::MAX)
                    &&& (e matches AppError::InvalidInput(_) <==> !valid_ts(start_time as int))
                },
            },
    {
        if !(0 <= start_time && start_time <= crate::time::MAX_TS) {
            return Err(AppError::InvalidInput(String::from_str("timestamp out of range")));
        }
        if self.next_id == i64::MAX {
            return Err(AppError::Database(String::from_str("row ids exhausted")));
        }
        let id = self.next_id;
        self.sessions.push(Session { id, start_time, end_time: None, duration: None });
        self.next_id = id + 1;
        proof {
            assert forall|i: int|
                0 <= i < self.activities@.len() implies self.has_session(
                #[trigger] self.activities@[i].session_id as int,
            ) by {
                assert(old(self).has_session(self.activities@[i].session_id as int));
                let w = choose|j: int|
                    0 <= j < old(self).sessions@.len() && old(self).sessions@[j].id
                        == self.activities@[i].session_id;
                assert(self.sessions@[w].id == self.activities@[i].session_id);
            }
            assert forall|i: int|
                0 <= i < self.transitions@.len() implies self.has_session(
                #[trigger] self.transitions@[i].session_id as int,
            ) by {
                let w = choose|j: int|
                    0 <= j < old(self).sessions@.len() && old(self).sessions@[j].id
                        == self.transitions@[i].session_id;
                assert(self.sessions@[w].id == self.transitions@[i].session_id);
            }
            assert forall|i: int|
                0 <= i < self.screenshots@.len() implies self.has_session(
                #[trigger] self.screenshots@[i].session_id as int,
            ) by {
                let w = choose|j: int|
                    0 <= j < old(self).sessions@.len() && old(self).sessions@[j].id
                        == self.screenshots@[i].session_id;
                assert(self.sessions@[w].id == self.screenshots@[i].session_id);
            }
        }
        Ok(id)
    }

    /// Closes a session: sets its end time and its duration, computed as
    /// `end_time - start_time`. Succeeds if and only if the session exists
    /// and the end does not precede the start.
    pub fn end_session(&mut self, session_id: i64, end_time: i64) -> (r: Result<(), AppError>)
        requires
            old(self).wf(),
        ensures
            final(self).wf(),
            match r {
                Ok(_) => {
                    &&& valid_ts(end_time as int)
                    &&& old(self).has_session(session_id as int)
                    &&& exists|i: int|
                        {
                            &&& 0 <= i < old(self).sessions@.len()
                            &&& old(self).sessions@[i].id == session_id
                            &&& end_time >= old(self).sessions@[i].start_time
                            &&& final(self).sessions@ == old(self).sessions@.update(
                                i,
                                (Session {
                                    id: session_id,
                                    start_time: old(self).sessions@[i].start_time,
                                    end_time: Some(end_time),
                                    duration: Some(
                                        (end_time - old(self).sessions@[i].start_time) as i64,
                                    ),
                                }),
                            )
                        }
                    &&& final(self).activities@ == old(self).activities@
                    &&& final(self).transitions@ == old(self).transitions@
                    &&& final(self).screenshots@ == old(self).screenshots@
                    &&& final(self).audits@ == old(self).audits@
                    &&& final(self).next_id == old(self).next_id
                },
                Err(e) => {
                    &&& *final(self) == *old(self)
                    &&& (e matches AppError::InvalidInput(_) || e matches AppError::NotFound(_))
                    &&& (e matches AppError::NotFound(_) <==> valid_ts(end_time as int) && !old(
                        self,
                    ).has_session(session_id as int))
                    &&& (valid_ts(end_time as int) && old(self).has_session(session_id as int)
                        ==> exists|i: int|
                        {
                            &&& 0 <= i < old(self).sessions@.len()
                            &&& old(self).sessions@[i].id == session_id
                            &&& end_time < old(self).sessions@[i].start_time
                        })
                },
            },
    {
        if !(0 <= end_time && end_time <= crate::time::MAX_TS) {
            return Err(AppError::InvalidInput(String::from_str("timestamp out of range")));
        }
        let at = match self.find_session(session_id) {
            Some(i) => i,
            None => {
                return Err(AppError::NotFound(String::from_str("unknown session")));
            },
        };
        let start = self.sessions[at].start_time;
        if end_time < start {
            return Err(AppError::InvalidInput(String::from_str("session end precedes start")));
        }
        self.sessions[at] = Session {
            id: session_id,
            start_time: start,
            end_time: Some(end_time),
            duration: Some(end_time - start),
        };
        proof {
            assert(forall|i: int|
                0 <= i < self.sessions@.len() ==> self.sessions@[i].id == old(
                    self,
                ).sessions@[i].id);
            assert forall|i: int|
                0 <= i < self.activities@.len() implies self.has_session(
                #[trigger] self.activities@[i].session_id as int,
            ) by {
                let w = choose|j: int|
                    0 <= j < old(self).sessions@.len() && old(self).sessions@[j].id
                        == self.activities@[i].session_id;
                assert(self.sessions@[w].id == self.activities@[i].session_id);
            }
            assert forall|i: int|
                0 <= i < self.transitions@.len() implies self.has_session(
                #[trigger] self.transitions@[i].session_id as int,
            ) by {
                let w = choose|j: int|
                    0 <= j < old(self).sessions@.len() && old(self).sessions@[j].id
                        == self.transitions@[i].session_id;
                assert(self.sessions@[w].id == self.transitions@[i].session_id);
            }
            assert forall|i: int|
                0 <= i < self.screenshots@.len() implies self.has_session(
                #[trigger] self.screenshots@[i].session_id as int,
            ) by {
                let w = choose|j: int|
                    0 <= j < old(self).sessions@.len() && old(self).sessions@[j].id
                        == self.screenshots@[i].session_id;
                assert(self.sessions@[w].id == self.screenshots@[i].session_id);
            }
        }
        Ok(())
    }
    /// The duration an optional interval contributes.
    pub open spec fn opt_dur(duration: Option<i64>) -> int {
        match duration {
            Some(d) => d as int,
            None => 0,
        }
    }

    /// The activity row values themselves are acceptable.
    pub open spec fn activity_input_ok(timestamp: i64, duration: Option<i64>) -> bool {
        &&& valid_ts(timestamp as int)
        &&& (duration matches Some(d) ==> d >= 0)
    }

    /// An activity row with these values can be recorded.
    pub open spec fn can_insert_activity(
        self,
        session_id: i64,
        timestamp: i64,
        duration: Option<i64>,
    ) -> bool {
        &&& Self::activity_input_ok(timestamp, duration)
        &&& self.has_session(session_id as int)
        &&& self.next_id < i64::MAX
        &&& self.total_duration + Self::opt_dur(duration) <= i64::MAX
    }

    /// Records one pulse or discrete focus event. Succeeds if and only if the
    /// timestamp is in range, the duration is not negative, the session
    /// exists, an id is left, and the running duration total still fits.
    pub fn insert_window_activity(
        &mut self,
        session_id: i64,
        app_id: String,
        window_title: String,
        event_type: EventType,
        timestamp: i64,
        duration: Option<i64>,
        metadata: Option<String>,
    ) -> (r: Result<i64, AppError>)
        requires
            old(self).wf(),
        ensures
            final(self).wf(),
            match r {
                Ok(id) => {
                    &&& old(self).can_insert_activity(session_id, timestamp, duration)
                    &&& id == old(self).next_id
                    &&& final(self).activities@ == old(self).activities@.push(
                        (WindowActivity {
                            id,
                            session_id,
                            app_id,
                            window_title,
                            event_type,
                            timestamp,
                            duration,
                            metadata,
                        }),
                    )
                    &&& final(self).sessions@ == old(self).sessions@
                    &&& final(self).transitions@ == old(self).transitions@
                    &&& final(self).screenshots@ == old(self).screenshots@
                    &&& final(self).audits@ == old(self).audits@
                    &&& final(self).next_id == old(self).next_id + 1
                    &&& final(self).total_duration == old(self).total_duration + Self::opt_dur(
                        duration,
                    )
                },
                Err(e) => {
                    &&& *final(self) == *old(self)
                    &&& !old(self).can_insert_activity(session_id, timestamp, duration)
                    &&& (e matches AppError::InvalidInput(_) <==> !Self::activity_input_ok(
                        timestamp,
                        duration,
                    ))
                    &&& (e matches AppError::Database(_) <==> Self::activity_input_ok(
                        timestamp,
                        duration,
                    ))
                },
            },
    {
        if !(0 <= timestamp && timestamp <= crate::time::MAX_TS) {
            return Err(AppError::InvalidInput(String::from_str("timestamp out of range")));
        }
        match duration {
            Some(d) if d < 0 => {
                return Err(AppError::InvalidInput(String::from_str("negative duration")));
            },
            _ => {},
        }
        if !self.session_exists(session_id) {
            return Err(AppError::Database(String::from_str("unknown session")));
        }
        if self.next_id == i64::MAX {
            return Err(AppError::Database(String::from_str("row ids exhausted")));
        }
        let d: i64 = match duration {
            Some(d) => d,
            None => 0,
        };
        proof {
            lemma_sum_durations_nonneg(self.activities@);
        }
        if d > i64::MAX - self.total_duration {
            return Err(AppError::Database(String::from_str("duration total overflow")));
        }
        let id = self.next_id;
        let row = WindowActivity {
            id,
            session_id,
            app_id,
            window_title,
            event_type,
            timestamp,
            duration,
            metadata,
        };
        proof {
            lemma_sum_durations_push(self.activities@, row);
        }
        self.activities.push(row);
        self.next_id = id + 1;
        self.total_duration = self.total_duration + d;
        proof {
            self.lemma_same_sessions_has_session(*old(self));
        }
        Ok(id)
    }

    /// Two stores with the same session table agree on which sessions exist.
    proof fn lemma_same_sessions_has_session(self, other: Store)
        requires
            self.sessions@ == other.sessions@,
        ensures
            forall|id: int| self.has_session(id) == other.has_session(id),
    {
        assert forall|id: int| self.has_session(id) == other.has_session(id) by {
            if self.has_session(id) {
                let i = choose|i: int|
                    0 <= i < self.sessions@.len() && self.sessions@[i].id == id;
                assert(other.sessions@[i].id == id);
            }
            if other.has_session(id) {
                let i = choose|i: int|
                    0 <= i < other.sessions@.len() && other.sessions@[i].id == id;
                assert(self.sessions@[i].id == id);
            }
        }
    }

    /// A transition with these values can be recorded.
    pub open spec fn can_insert_transition(self, session_id: i64, timestamp: i64) -> bool {
        &&& valid_ts(timestamp as int)
        &&& self.has_session(session_id as int)
        &&& self.next_id < i64::MAX
    }

    /// Records one focus transition. Succeeds if and only if the timestamp is
    /// in range, the session exists, and an id is left.
    pub fn insert_app_transition(
        &mut self,
        session_id: i64,
        from_app: String,
        to_app: String,
        transition_type: TransitionType,
        timestamp: i64,
    ) -> (r: Result<i64, AppError>)
        requires
            old(self).wf(),
        ensures
            final(self).wf(),
            match r {
                Ok(id) => {
                    &&& old(self).can_insert_transition(session_id, timestamp)
                    &&& id == old(self).next_id
                    &&& final(self).transitions@ == old(self).transitions@.push(
                        (Transition {
                            id,
                            session_id,
                            from_app,
                            to_app,
                            transition_type,
                            timestamp,
                        }),
                    )
                    &&& final(self).sessions@ == old(self).sessions@
                    &&& final(self).activities@ == old(self).activities@
                    &&& final(self).screenshots@ == old(self).screenshots@
                    &&& final(self).audits@ == old(self).audits@
                    &&& final(self).next_id == old(self).next_id + 1
                    &&& final(self).total_duration == old(self).total_duration
                },
                Err(e) => {
                    &&& *final(self) == *old(self)
                    &&& !old(self).can_insert_transition(session_id, timestamp)
                    &&& (e matches AppError::InvalidInput(_) <==> !valid_ts(timestamp as int))
                    &&& (e matches AppError::Database(_) <==> valid_ts(timestamp as int))
                },
            },
    {
        if !(0 <= timestamp && timestamp <= crate::time::MAX_TS) {
            return Err(AppError::InvalidInput(String::from_str("timestamp out of range")));
        }
        if !self.session_exists(session_id) {
            return Err(AppError::Database(String::from_str("unknown session")));
        }
        if self.next_id == i64::MAX {
            return Err(AppError::Database(String::from_str("row ids exhausted")));
        }
        let id = self.next_id;
        self.transitions.push(
            Transition { id, session_id, from_app, to_app, transition_type, timestamp },
        );
        self.next_id = id + 1;
        proof {
            self.lemma_same_sessions_has_session(*old(self));
        }
        Ok(id)
    }

    /// A screenshot record with these values can be recorded.
    pub open spec fn can_insert_screenshot(
        self,
        session_id: i64,
        timestamp: i64,
        file_size: i64,
    ) -> bool {
        &&& valid_ts(timestamp as int)
        &&& file_size >= 0
        &&& self.has_session(session_id as int)
        &&& self.next_id < i64::MAX
    }

    /// Records the metadata of one captured screenshot. Succeeds if and only
    /// if the timestamp is in range, the size is not negative, the session
    /// exists, and an id is left.
    pub fn insert_screenshot(
        &mut self,
        session_id: i64,
        path: String,
        timestamp: i64,
        file_size: i64,
        app_id: Option<String>,
        window_title: Option<String>,
    ) -> (r: Result<i64, AppError>)
        requires
            old(self).wf(),
        ensures
            final(self).wf(),
            match r {
                Ok(id) => {
                    &&& old(self).can_insert_screenshot(session_id, timestamp, file_size)
                    &&& id == old(self).next_id
                    &&& final(self).screenshots@ == old(self).screenshots@.push(
                        (Screenshot {
                            id,
                            session_id,
                            path,
                            timestamp,
                            file_size,
                            app_id,
                            window_title,
                        }),
                    )
                    &&& final(self).sessions@ == old(self).sessions@
                    &&& final(self).activities@ == old(self).activities@
                    &&& final(self).transitions@ == old(self).transitions@
                    &&& final(self).audits@ == old(self).audits@
                    &&& final(self).next_id == old(self).next_id + 1
                    &&& final(self).total_duration == old(self).total_duration
                },
                Err(e) => {
                    &&& *final(self) == *old(self)
                    &&& !old(self).can_insert_screenshot(session_id, timestamp, file_size)
                    &&& (e matches AppError::InvalidInput(_) <==> !(valid_ts(timestamp as int)
                        && file_size >= 0))
                },
            },
    {
        if !(0 <= timestamp && timestamp <= crate::time::MAX_TS) {
            return Err(AppError::InvalidInput(String::from_str("timestamp out of range")));
        }
        if file_size < 0 {
            return Err(AppError::InvalidInput(String::from_str("negative file size")));
        }
        if !self.session_exists(session_id) {
            return Err(AppError::Database(String::from_str("unknown session")));
        }
        if self.next_id == i64::MAX {
            return Err(AppError::Database(String::from_str("row ids exhausted")));
        }
        let id = self.next_id;
        self.screenshots.push(
            Screenshot { id, session_id, path, timestamp, file_size, app_id, window_title },
        );
        self.next_id = id + 1;
        proof {
            self.lemma_same_sessions_has_session(*old(self));
        }
        Ok(id)
    }

    /// Appends one line to the audit trail. Succeeds if and only if the
    /// timestamp is in range and an id is left.
    pub fn insert_audit(&mut self, timestamp: i64, level: String, message: String) -> (r: Result<
        i64,
        AppError,
    >)
        requires
            old(self).wf(),
        ensures
            final(self).wf(),
            match r {
                Ok(id) => {
                    &&& valid_ts(timestamp as int)
                    &&& old(self).next_id < i64::MAX
                    &&& id == old(self).next_id
                    &&& final(self).audits@ == old(self).audits@.push(
                        (AuditEvent { id, timestamp, level, message }),
                    )
                    &&& final(self).sessions@ == old(self).sessions@
                    &&& final(self).activities@ == old(self).activities@
                    &&& final(self).transitions@ == old(self).transitions@
                    &&& final(self).screenshots@ == old(self).screenshots@
                    &&& final(self).next_id == old(self).next_id + 1
                    &&& final(self).total_duration == old(self).total_duration
                },
                Err(e) => {
                    &&& *final(self) == *old(self)
                    &&& !(valid_ts(timestamp as int) && old(self).next_id < i64::MAX)
                    &&& (e matches AppError::InvalidInput(_) <==> !valid_ts(timestamp as int))
                },
            },
    {
        if !(0 <= timestamp && timestamp <= crate::time::MAX_TS) {
            return Err(AppError::InvalidInput(String::from_str("timestamp out of range")));
        }
        if self.next_id == i64::MAX {
            return Err(AppError::Database(String::from_str("row ids exhausted")));
        }
        let id = self.next_id;
        self.audits.push(AuditEvent { id, timestamp, level, message });
        self.next_id = id + 1;
        proof {
            self.lemma_same_sessions_has_session(*old(self));
        }
        Ok(id)
    }

    /// No table ever holds `i64::MAX` or more rows: row ids are strictly
    /// increasing and bounded by the id counter.
    pub proof fn lemma_lens_bound(self)
        requires
            self.wf(),
        ensures
            self.sessions@.len() < i64::MAX,
            self.activities@.len() < i64::MAX,
            self.transitions@.len() < i64::MAX,
            self.screenshots@.len() < i64::MAX,
    {
        if self.sessions@.len() > 0 {
            crate::seqs::lemma_increasing_key_lower(
                self.sessions@,
                |s: Session| s.id as int,
                self.sessions@.len() - 1,
            );
        }
        if self.activities@.len() > 0 {
            crate::seqs::lemma_increasing_key_lower(
                self.activities@,
                |a: WindowActivity| a.id as int,
                self.activities@.len() - 1,
            );
        }
        if self.transitions@.len() > 0 {
            crate::seqs::lemma_increasing_key_lower(
                self.transitions@,
                |t: Transition| t.id as int,
                self.transitions@.len() - 1,
            );
        }
        if self.screenshots@.len() > 0 {
            crate::seqs::lemma_increasing_key_lower(
                self.screenshots@,
                |s: Screenshot| s.id as int,
                self.screenshots@.len() - 1,
            );
        }
    }

    /// Deletes a session and, cascading, every activity, transition and
    /// screenshot row that references it. Succeeds if and only if the
    /// session exists.
    pub fn delete_session(&mut self, session_id: i64) -> (r: Result<(), AppError>)
        requires
            old(self).wf(),
        ensures
            final(self).wf(),
            match r {
                Ok(_) => {
                    &&& old(self).has_session(session_id as int)
                    &&& final(self).sessions@ == old(self).sessions@.filter(
                        |s: Session| s.id != session_id,
                    )
                    &&& final(self).activities@ == old(self).activities@.filter(
                        |a: WindowActivity| a.session_id != session_id,
                    )
                    &&& final(self).transitions@ == old(self).transitions@.filter(
                        |t: Transition| t.session_id != session_id,
                    )
                    &&& final(self).screenshots@ == old(self).screenshots@.filter(
                        |s: Screenshot| s.session_id != session_id,
                    )
                    &&& final(self).audits@ == old(self).audits@
                    &&& final(self).next_id == old(self).next_id
                },
                Err(e) => {
                    &&& *final(self) == *old(self)
                    &&& !old(self).has_session(session_id as int)
                    &&& e matches AppError::NotFound(_)
                },
            },
    {
        if !self.session_exists(session_id) {
            return Err(AppError::NotFound(String::from_str("unknown session")));
        }
        let ghost orig = *self;

        // Sessions.
        let mut rest: Vec<Session> = Vec::new();
        core::mem::swap(&mut self.sessions, &mut rest);
        let ghost all = rest@;
        let ghost spred = |s: Session| s.id != session_id;
        let ghost mut done: int = 0;
        while rest.len() > 0
            invariant
                0 <= done <= all.len(),
                rest@ == all.subrange(done, all.len() as int),
                self.sessions@ == all.subrange(0, done).filter(spred),
                spred == (|s: Session| s.id != session_id),
                all == orig.sessions@,
                self.activities@ == orig.activities@,
                self.transitions@ == orig.transitions@,
                self.screenshots@ == orig.screenshots@,
                self.audits@ == orig.audits@,
                self.next_id == orig.next_id,
                self.total_duration == orig.total_duration,
            decreases rest@.len(),
        {
            let s = rest.remove(0);
            proof {
                assert(s == all[done]);
                assert(all.subrange(0, done + 1) =~= all.subrange(0, done).push(all[done]));
                crate::seqs::lemma_filter_push(all.subrange(0, done), all[done], spred);
            }
            if s.id != session_id {
                self.sessions.push(s);
            }
            proof {
                done = done + 1;
                assert(rest@ == all.subrange(done, all.len() as int));
            }
        }
        proof {
            assert(all.subrange(0, all.len() as int) =~= all);
            assert(self.sessions@ == orig.sessions@.filter(spred));
        }

        // Activities, recomputing the running duration total.
        let mut arest: Vec<WindowActivity> = Vec::new();
        core::mem::swap(&mut self.activities, &mut arest);
        let ghost aall = arest@;
        let ghost apred = |a: WindowActivity| a.session_id != session_id;
        let mut total: i64 = 0;
        let ghost mut adone: int = 0;
        proof {
            assert(aall == orig.activities@);
            assert forall|i: int| 0 <= i < aall.len() implies dur_of(#[trigger] aall[i]) >= 0 by {
                assert(orig.activities@[i] == aall[i]);
            }
            assert(sum_durations(aall) == orig.total_duration as int);
        }
        while arest.len() > 0
            invariant
                0 <= adone <= aall.len(),
                arest@ == aall.subrange(adone, aall.len() as int),
                self.activities@ == aall.subrange(0, adone).filter(apred),
                apred == (|a: WindowActivity| a.session_id != session_id),
                durs_nonneg(aall),
                total >= 0,
                total as int == sum_durations(self.activities@),
                sum_durations(aall) <= i64::MAX,
                aall == orig.activities@,
                self.sessions@ == orig.sessions@.filter(|s: Session| s.id != session_id),
                self.transitions@ == orig.transitions@,
                self.screenshots@ == orig.screenshots@,
                self.audits@ == orig.audits@,
                self.next_id == orig.next_id,
            decreases arest@.len(),
        {
            let a = arest.remove(0);
            let d: i64 = match a.duration {
                Some(d) => d,
                None => 0,
            };
            proof {
                assert(a == aall[adone]);
                assert(aall.subrange(0, adone + 1) =~= aall.subrange(0, adone).push(aall[adone]));
                crate::seqs::lemma_filter_push(aall.subrange(0, adone), aall[adone], apred);
                assert(forall|i: int|
                    0 <= i < aall.subrange(0, adone + 1).len() ==> dur_of(
                        #[trigger] aall.subrange(0, adone + 1)[i],
                    ) >= 0);
                lemma_sum_durations_filter_le(aall.subrange(0, adone + 1), apred);
                lemma_sum_durations_prefix_le(aall, adone + 1);
                lemma_sum_durations_push(self.activities@, aall[adone]);
            }
            if a.session_id != session_id {
                self.activities.push(a);
                total = total + d;
            }
            proof {
                adone = adone + 1;
            }
        }
        proof {
            assert(aall.subrange(0, aall.len() as int) =~= aall);
            assert(self.activities@ == orig.activities@.filter(apred));
        }
        self.total_duration = total;

        // Transitions.
        let mut trest: Vec<Transition> = Vec::new();
        core::mem::swap(&mut self.transitions, &mut trest);
        let ghost tall = trest@;
        let ghost tpred = |t: Transition| t.session_id != session_id;
        let ghost mut tdone: int = 0;
        while trest.len() > 0
            invariant
                0 <= tdone <= tall.len(),
                trest@ == tall.subrange(tdone, tall.len() as int),
                self.transitions@ == tall.subrange(0, tdone).filter(tpred),
                tpred == (|t: Transition| t.session_id != session_id),
                tall == orig.transitions@,
                self.sessions@ == orig.sessions@.filter(|s: Session| s.id != session_id),
                self.activities@ == orig.activities@.filter(
                    |a: WindowActivity| a.session_id != session_id,
                ),
                self.screenshots@ == orig.screenshots@,
                self.audits@ == orig.audits@,
                self.next_id == orig.next_id,
                self.total_duration as int == sum_durations(self.activities@),
            decreases trest@.len(),
        {
            let t = trest.remove(0);
            proof {
                assert(t == tall[tdone]);
                assert(tall.subrange(0, tdone + 1) =~= tall.subrange(0, tdone).push(tall[tdone]));
                crate::seqs::lemma_filter_push(tall.subrange(0, tdone), tall[tdone], tpred);
            }
            if t.session_id != session_id {
                self.transitions.push(t);
            }
            proof {
                tdone = tdone + 1;
            }
        }
        proof {
            assert(tall.subrange(0, tall.len() as int) =~= tall);
            assert(self.transitions@ == orig.transitions@.filter(tpred));
        }

        // Screenshots.
        let mut srest: Vec<Screenshot> = Vec::new();
        core::mem::swap(&mut self.screenshots, &mut srest);
        let ghost sall = srest@;
        let ghost scpred = |s: Screenshot| s.session_id != session_id;
        let ghost mut sdone: int = 0;
        while srest.len() > 0
            invariant
                0 <= sdone <= sall.len(),
                srest@ == sall.subrange(sdone, sall.len() as int),
                self.screenshots@ == sall.subrange(0, sdone).filter(scpred),
                scpred == (|s: Screenshot| s.session_id != session_id),
                sall == orig.screenshots@,
                self.sessions@ == orig.sessions@.filter(|s: Session| s.id != session_id),
                self.activities@ == orig.activities@.filter(
                    |a: WindowActivity| a.session_id != session_id,
                ),
                self.transitions@ == orig.transitions@.filter(
                    |t: Transition| t.session_id != session_id,
                ),
                self.audits@ == orig.audits@,
                self.next_id == orig.next_id,
                self.total_duration as int == sum_durations(self.activities@),
            decreases srest@.len(),
        {
            let s = srest.remove(0);
            proof {
                assert(s == sall[sdone]);
                assert(sall.subrange(0, sdone + 1) =~= sall.subrange(0, sdone).push(sall[sdone]));
                crate::seqs::lemma_filter_push(sall.subrange(0, sdone), sall[sdone], scpred);
            }
            if s.session_id != session_id {
                self.screenshots.push(s);
            }
            proof {
                sdone = sdone + 1;
            }
        }
        proof {
            assert(sall.subrange(0, sall.len() as int) =~= sall);
            assert(self.screenshots@ == orig.screenshots@.filter(scpred));
        }

        proof {
            self.lemma_delete_preserves_wf(orig, session_id);
        }
        Ok(())
    }

    /// Filtering every session-scoped table by the same surviving-session
    /// predicate preserves well-formedness.
    proof fn lemma_delete_preserves_wf(self, orig: Store, session_id: i64)
        requires
            orig.wf(),
            self.sessions@ == orig.sessions@.filter(|s: Session| s.id != session_id),
            self.activities@ == orig.activities@.filter(
                |a: WindowActivity| a.session_id != session_id,
            ),
            self.transitions@ == orig.transitions@.filter(
                |t: Transition| t.session_id != session_id,
            ),
            self.screenshots@ == orig.screenshots@.filter(
                |s: Screenshot| s.session_id != session_id,
            ),
            self.audits@ == orig.audits@,
            self.next_id == orig.next_id,
            self.total_duration as int == sum_durations(self.activities@),
        ensures
            self.wf(),
    {
        let spred = |s: Session| s.id != session_id;
        let apred = |a: WindowActivity| a.session_id != session_id;
        let tpred = |t: Transition| t.session_id != session_id;
        let scpred = |s: Screenshot| s.session_id != session_id;
        crate::seqs::lemma_filter_increasing(orig.sessions@, spred, |s: Session| s.id as int);
        crate::seqs::lemma_filter_membership(orig.sessions@, spred);
        crate::seqs::lemma_filter_increasing(
            orig.activities@,
            apred,
            |a: WindowActivity| a.id as int,
        );
        crate::seqs::lemma_filter_membership(orig.activities@, apred);
        crate::seqs::lemma_filter_increasing(
            orig.transitions@,
            tpred,
            |t: Transition| t.id as int,
        );
        crate::seqs::lemma_filter_membership(orig.transitions@, tpred);
        crate::seqs::lemma_filter_increasing(
            orig.screenshots@,
            scpred,
            |s: Screenshot| s.id as int,
        );
        crate::seqs::lemma_filter_membership(orig.screenshots@, scpred);
        assert forall|i: int| 0 <= i < self.activities@.len() implies self.has_session(
            #[trigger] self.activities@[i].session_id as int,
        ) by {
            self.lemma_surviving_session(orig, session_id, self.activities@[i].session_id);
        }
        assert forall|i: int| 0 <= i < self.transitions@.len() implies self.has_session(
            #[trigger] self.transitions@[i].session_id as int,
        ) by {
            let j = choose|j: int|
                0 <= j < orig.transitions@.len() && orig.transitions@[j] == self.transitions@[i];
            self.lemma_surviving_session(orig, session_id, self.transitions@[i].session_id);
        }
        assert forall|i: int| 0 <= i < self.screenshots@.len() implies self.has_session(
            #[trigger] self.screenshots@[i].session_id as int,
        ) by {
            self.lemma_surviving_session(orig, session_id, self.screenshots@[i].session_id);
        }
    }

    /// A session other than the deleted one that existed before the delete
    /// still exists after it.
    proof fn lemma_surviving_session(self, orig: Store, session_id: i64, wanted: i64)
        requires
            self.sessions@ == orig.sessions@.filter(|s: Session| s.id != session_id),
            orig.has_session(wanted as int),
            wanted != session_id,
        ensures
            self.has_session(wanted as int),
    {
        let spred = |s: Session| s.id != session_id;
        let j = choose|j: int| 0 <= j < orig.sessions@.len() && orig.sessions@[j].id == wanted;
        orig.sessions@.lemma_filter_contains(spred, j);
        let k = choose|k: int|
            0 <= k < self.sessions@.len() && self.sessions@[k] == orig.sessions@[j];
        assert(self.sessions@[k].id == wanted);
    }
}

} // verus!

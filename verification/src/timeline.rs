//! Ordered read-side listings: session flows and daily flows annotated with
//! positional rank, unified timelines, session summaries for a calendar
//! date, and screenshot listings. Each result is an ordering of exactly the
//! matching ledger rows; ties in the ordering key are left open, as the
//! store leaves them.

use vstd::prelude::*;

use crate::error::AppError;
use crate::models::EventType;
use crate::store::{Screenshot, Session, WindowActivity};
use crate::time::{civil_of, valid_ts, Date};

verus! {

/// One activity row annotated with its 1-based rank in timestamp order.
#[derive(Debug, Clone)]
pub struct AppLifecycleFlow {
    pub id: i64,
    pub app_id: String,
    pub window_title: String,
    pub event_type: EventType,
    pub timestamp: i64,
    pub duration: Option<i64>,
    pub position: i64,
}

/// One activity row of a unified timeline.
#[derive(Debug, Clone)]
pub struct TimelineEvent {
    pub timestamp: i64,
    pub event_type: EventType,
    pub app_id: String,
    pub window_title: Option<String>,
    pub metadata: Option<String>,
}

/// One session of a calendar date, with how many activity and screenshot
/// rows reference it.
#[derive(Debug, Clone, Copy)]
pub struct SessionSummary {
    pub id: i64,
    pub start_time: i64,
    pub end_time: Option<i64>,
    pub duration: Option<i64>,
    pub activity_count: i64,
    pub screenshot_count: i64,
}

/// The predicate selecting one session's activity rows.
pub open spec fn session_pred(session_id: i64) -> spec_fn(WindowActivity) -> bool {
    |a: WindowActivity| a.session_id == session_id
}

/// One session's activity rows, in ledger order.
pub open spec fn session_rows(rows: Seq<WindowActivity>, session_id: i64) -> Seq<
    WindowActivity,
> {
    rows.filter(session_pred(session_id))
}

/// The predicate selecting the activity rows of one civil date in UTC.
pub open spec fn date_pred(date: Date) -> spec_fn(WindowActivity) -> bool {
    |a: WindowActivity| civil_of(a.timestamp as int).0 == date.year as int && civil_of(
        a.timestamp as int,
    ).1 == date.month as int && civil_of(a.timestamp as int).2 == date.day as int
}

/// The activity rows of one civil date, in ledger order.
pub open spec fn date_rows(rows: Seq<WindowActivity>, date: Date) -> Seq<WindowActivity> {
    rows.filter(date_pred(date))
}

/// Rows in non-decreasing timestamp order.
pub open spec fn sorted_asc(rows: Seq<WindowActivity>) -> bool {
    forall|i: int, j: int|
        0 <= i < j < rows.len() ==> (#[trigger] rows[i]).timestamp <= (
        #[trigger] rows[j]).timestamp
}

/// Rows in non-increasing timestamp order.
pub open spec fn sorted_desc(rows: Seq<WindowActivity>) -> bool {
    forall|i: int, j: int|
        0 <= i < j < rows.len() ==> (#[trigger] rows[i]).timestamp >= (
        #[trigger] rows[j]).timestamp
}

/// A flow entry carries the fields of a row plus its 1-based rank.
pub open spec fn flow_matches(f: AppLifecycleFlow, a: WindowActivity, i: int) -> bool {
    &&& f.id == a.id
    &&& f.app_id@ == a.app_id@
    &&& f.window_title@ == a.window_title@
    &&& f.event_type == a.event_type
    &&& f.timestamp == a.timestamp
    &&& f.duration == a.duration
    &&& f.position == i + 1
}

/// A flow listing is an ascending ordering of exactly the selected rows,
/// each annotated with its rank.
pub open spec fn flow_listing_ok(
    srows: Seq<WindowActivity>,
    sorted: Seq<WindowActivity>,
    flows: Seq<AppLifecycleFlow>,
) -> bool {
    &&& sorted.to_multiset() == srows.to_multiset()
    &&& sorted_asc(sorted)
    &&& flows.len() == sorted.len()
    &&& forall|i: int| 0 <= i < flows.len() ==> flow_matches(#[trigger] flows[i], sorted[i], i)
}

/// A timeline entry carries the fields of a row.
pub open spec fn event_matches(t: TimelineEvent, a: WindowActivity) -> bool {
    &&& t.timestamp == a.timestamp
    &&& t.event_type == a.event_type
    &&& t.app_id@ == a.app_id@
    &&& (t.window_title matches Some(w) ==> w@ == a.window_title@)
    &&& t.window_title is Some
    &&& t.metadata == a.metadata
}

/// A correct range timeline: some descending ordering of exactly the
/// range's rows underlies the entries.
pub open spec fn range_timeline_ok(
    rows: Seq<WindowActivity>,
    from: i64,
    to: i64,
    events: Seq<TimelineEvent>,
) -> bool {
    exists|sorted: Seq<WindowActivity>|
        timeline_ok(crate::aggregate::range_rows(rows, from, to), sorted, events)
}

/// A timeline is a descending ordering of exactly the selected rows.
pub open spec fn timeline_ok(
    srows: Seq<WindowActivity>,
    sorted: Seq<WindowActivity>,
    events: Seq<TimelineEvent>,
) -> bool {
    &&& sorted.to_multiset() == srows.to_multiset()
    &&& sorted_desc(sorted)
    &&& events.len() == sorted.len()
    &&& forall|i: int| 0 <= i < events.len() ==> event_matches(#[trigger] events[i], sorted[i])
}

/// An owned copy of one activity row, equal to the original.
fn copy_row(a: &WindowActivity) -> (r: WindowActivity)
    ensures
        r == *a,
{
    WindowActivity {
        id: a.id,
        session_id: a.session_id,
        app_id: a.app_id.clone(),
        window_title: a.window_title.clone(),
        event_type: a.event_type,
        timestamp: a.timestamp,
        duration: a.duration,
        metadata: match &a.metadata {
            Some(s) => Some(s.clone()),
            None => None,
        },
    }
}

/// An owned copy of one screenshot record, equal to the original.
pub(crate) fn copy_screenshot(s: &Screenshot) -> (r: Screenshot)
    ensures
        r == *s,
{
    Screenshot {
        id: s.id,
        session_id: s.session_id,
        path: s.path.clone(),
        timestamp: s.timestamp,
        file_size: s.file_size,
        app_id: match &s.app_id {
            Some(x) => Some(x.clone()),
            None => None,
        },
        window_title: match &s.window_title {
            Some(x) => Some(x.clone()),
            None => None,
        },
    }
}

/// Sorts activity rows by timestamp, earliest first, by insertion.
fn sort_rows_asc(v: Vec<WindowActivity>) -> (r: Vec<WindowActivity>)
    ensures
        r@.len() == v@.len(),
        r@.to_multiset() == v@.to_multiset(),
        sorted_asc(r@),
{
    let ghost orig = v@;
    let mut v = v;
    let mut out: Vec<WindowActivity> = Vec::new();
    proof {
        broadcast use vstd::multiset::group_multiset_axioms;

        assert forall|a: WindowActivity|
            out@.to_multiset().add(v@.to_multiset()).count(a) == orig.to_multiset().count(
                a,
            ) by {
            vstd::seq_lib::to_multiset_contains(out@, a);
        }
        assert(out@.to_multiset().add(v@.to_multiset()) =~= orig.to_multiset());
    }
    while v.len() > 0
        invariant
            out@.len() + v@.len() == orig.len(),
            out@.to_multiset().add(v@.to_multiset()) == orig.to_multiset(),
            sorted_asc(out@),
        decreases v@.len(),
    {
        let ghost vpre = v@;
        let x = v.remove(0);
        proof {
            broadcast use vstd::multiset::group_multiset_axioms;

            assert(x == vpre[0]);
            assert(vpre.remove(0) =~= v@);
            vstd::seq_lib::to_multiset_remove(vpre, 0);
            vstd::seq_lib::to_multiset_contains(vpre, x);
            assert(vpre.contains(x));
            assert(vpre.to_multiset().count(x) > 0);
            assert(vpre.to_multiset() =~= v@.to_multiset().insert(x));
        }
        let mut pos: usize = 0;
        while pos < out.len() && out[pos].timestamp <= x.timestamp
            invariant
                0 <= pos <= out@.len(),
                forall|k: int| 0 <= k < pos ==> (#[trigger] out@[k]).timestamp <= x.timestamp,
            decreases out@.len() - pos,
        {
            pos = pos + 1;
        }
        let ghost opre = out@;
        out.insert(pos, x);
        proof {
            broadcast use vstd::multiset::group_multiset_axioms;

            vstd::seq_lib::to_multiset_insert(opre, pos as int, x);
            assert(out@.to_multiset().add(v@.to_multiset()) == orig.to_multiset()) by {
                assert(opre.to_multiset().insert(x).add(v@.to_multiset())
                    =~= opre.to_multiset().add(v@.to_multiset().insert(x)));
            }
            assert forall|i: int, j: int|
                0 <= i < j < out@.len() implies (#[trigger] out@[i]).timestamp <= (
            #[trigger] out@[j]).timestamp by {
                if j < pos {
                } else if i < pos && j == pos as int {
                    assert(out@[i] == opre[i]);
                } else if i == pos as int {
                    assert(out@[j] == opre[j - 1]);
                    assert((pos as int) < opre.len() ==> opre[pos as int].timestamp
                        > x.timestamp);
                    if j - 1 > pos as int {
                        assert(opre[j - 1].timestamp >= opre[pos as int].timestamp);
                    }
                } else if i < pos as int {
                    assert(out@[i] == opre[i]);
                    assert(out@[j] == opre[j - 1]);
                } else {
                    assert(out@[i] == opre[i - 1]);
                    assert(out@[j] == opre[j - 1]);
                }
            }
        }
    }
    proof {
        broadcast use vstd::multiset::group_multiset_axioms;

        assert forall|a: WindowActivity|
            out@.to_multiset().count(a) == orig.to_multiset().count(a) by {
            vstd::seq_lib::to_multiset_contains(v@, a);
            assert(!v@.contains(a));
        }
        assert(out@.to_multiset() =~= orig.to_multiset());
        vstd::seq_lib::to_multiset_len(out@);
        vstd::seq_lib::to_multiset_len(orig);
    }
    out
}

/// Sorts activity rows by timestamp, latest first, by insertion.
fn sort_rows_desc(v: Vec<WindowActivity>) -> (r: Vec<WindowActivity>)
    ensures
        r@.len() == v@.len(),
        r@.to_multiset() == v@.to_multiset(),
        sorted_desc(r@),
{
    let ghost orig = v@;
    let mut v = v;
    let mut out: Vec<WindowActivity> = Vec::new();
    proof {
        broadcast use vstd::multiset::group_multiset_axioms;

        assert forall|a: WindowActivity|
            out@.to_multiset().add(v@.to_multiset()).count(a) == orig.to_multiset().count(
                a,
            ) by {
            vstd::seq_lib::to_multiset_contains(out@, a);
        }
        assert(out@.to_multiset().add(v@.to_multiset()) =~= orig.to_multiset());
    }
    while v.len() > 0
        invariant
            out@.len() + v@.len() == orig.len(),
            out@.to_multiset().add(v@.to_multiset()) == orig.to_multiset(),
            sorted_desc(out@),
        decreases v@.len(),
    {
        let ghost vpre = v@;
        let x = v.remove(0);
        proof {
            broadcast use vstd::multiset::group_multiset_axioms;

            assert(x == vpre[0]);
            assert(vpre.remove(0) =~= v@);
            vstd::seq_lib::to_multiset_remove(vpre, 0);
            vstd::seq_lib::to_multiset_contains(vpre, x);
            assert(vpre.contains(x));
            assert(vpre.to_multiset().count(x) > 0);
            assert(vpre.to_multiset() =~= v@.to_multiset().insert(x));
        }
        let mut pos: usize = 0;
        while pos < out.len() && out[pos].timestamp >= x.timestamp
            invariant
                0 <= pos <= out@.len(),
                forall|k: int| 0 <= k < pos ==> (#[trigger] out@[k]).timestamp >= x.timestamp,
            decreases out@.len() - pos,
        {
            pos = pos + 1;
        }
        let ghost opre = out@;
        out.insert(pos, x);
        proof {
            broadcast use vstd::multiset::group_multiset_axioms;

            vstd::seq_lib::to_multiset_insert(opre, pos as int, x);
            assert(out@.to_multiset().add(v@.to_multiset()) == orig.to_multiset()) by {
                assert(opre.to_multiset().insert(x).add(v@.to_multiset())
                    =~= opre.to_multiset().add(v@.to_multiset().insert(x)));
            }
            assert forall|i: int, j: int|
                0 <= i < j < out@.len() implies (#[trigger] out@[i]).timestamp >= (
            #[trigger] out@[j]).timestamp by {
                if j < pos {
                } else if i < pos && j == pos as int {
                    assert(out@[i] == opre[i]);
                } else if i == pos as int {
                    assert(out@[j] == opre[j - 1]);
                    assert((pos as int) < opre.len() ==> opre[pos as int].timestamp
                        < x.timestamp);
                    if j - 1 > pos as int {
                        assert(opre[j - 1].timestamp <= opre[pos as int].timestamp);
                    }
                } else if i < pos as int {
                    assert(out@[i] == opre[i]);
                    assert(out@[j] == opre[j - 1]);
                } else {
                    assert(out@[i] == opre[i - 1]);
                    assert(out@[j] == opre[j - 1]);
                }
            }
        }
    }
    proof {
        broadcast use vstd::multiset::group_multiset_axioms;

        assert forall|a: WindowActivity|
            out@.to_multiset().count(a) == orig.to_multiset().count(a) by {
            vstd::seq_lib::to_multiset_contains(v@, a);
            assert(!v@.contains(a));
        }
        assert(out@.to_multiset() =~= orig.to_multiset());
        vstd::seq_lib::to_multiset_len(out@);
        vstd::seq_lib::to_multiset_len(orig);
    }
    out
}

/// Sorts screenshot records by timestamp, latest first, by insertion.
fn sort_shots_desc(v: Vec<Screenshot>) -> (r: Vec<Screenshot>)
    ensures
        r@.len() == v@.len(),
        r@.to_multiset() == v@.to_multiset(),
        sorted_shots_desc(r@),
{
    let ghost orig = v@;
    let mut v = v;
    let mut out: Vec<Screenshot> = Vec::new();
    proof {
        broadcast use vstd::multiset::group_multiset_axioms;

        assert forall|a: Screenshot|
            out@.to_multiset().add(v@.to_multiset()).count(a) == orig.to_multiset().count(
                a,
            ) by {
            vstd::seq_lib::to_multiset_contains(out@, a);
        }
        assert(out@.to_multiset().add(v@.to_multiset()) =~= orig.to_multiset());
    }
    while v.len() > 0
        invariant
            out@.len() + v@.len() == orig.len(),
            out@.to_multiset().add(v@.to_multiset()) == orig.to_multiset(),
            sorted_shots_desc(out@),
        decreases v@.len(),
    {
        let ghost vpre = v@;
        let x = v.remove(0);
        proof {
            broadcast use vstd::multiset::group_multiset_axioms;

            assert(x == vpre[0]);
            assert(vpre.remove(0) =~= v@);
            vstd::seq_lib::to_multiset_remove(vpre, 0);
            vstd::seq_lib::to_multiset_contains(vpre, x);
            assert(vpre.contains(x));
            assert(vpre.to_multiset().count(x) > 0);
            assert(vpre.to_multiset() =~= v@.to_multiset().insert(x));
        }
        let mut pos: usize = 0;
        while pos < out.len() && out[pos].timestamp >= x.timestamp
            invariant
                0 <= pos <= out@.len(),
                forall|k: int| 0 <= k < pos ==> (#[trigger] out@[k]).timestamp >= x.timestamp,
            decreases out@.len() - pos,
        {
            pos = pos + 1;
        }
        let ghost opre = out@;
        out.insert(pos, x);
        proof {
            broadcast use vstd::multiset::group_multiset_axioms;

            vstd::seq_lib::to_multiset_insert(opre, pos as int, x);
            assert(out@.to_multiset().add(v@.to_multiset()) == orig.to_multiset()) by {
                assert(opre.to_multiset().insert(x).add(v@.to_multiset())
                    =~= opre.to_multiset().add(v@.to_multiset().insert(x)));
            }
            assert forall|i: int, j: int|
                0 <= i < j < out@.len() implies (#[trigger] out@[i]).timestamp >= (
            #[trigger] out@[j]).timestamp by {
                if j < pos {
                } else if i < pos && j == pos as int {
                    assert(out@[i] == opre[i]);
                } else if i == pos as int {
                    assert(out@[j] == opre[j - 1]);
                    assert((pos as int) < opre.len() ==> opre[pos as int].timestamp
                        < x.timestamp);
                    if j - 1 > pos as int {
                        assert(opre[j - 1].timestamp <= opre[pos as int].timestamp);
                    }
                } else if i < pos as int {
                    assert(out@[i] == opre[i]);
                    assert(out@[j] == opre[j - 1]);
                } else {
                    assert(out@[i] == opre[i - 1]);
                    assert(out@[j] == opre[j - 1]);
                }
            }
        }
    }
    proof {
        broadcast use vstd::multiset::group_multiset_axioms;

        assert forall|a: Screenshot|
            out@.to_multiset().count(a) == orig.to_multiset().count(a) by {
            vstd::seq_lib::to_multiset_contains(v@, a);
            assert(!v@.contains(a));
        }
        assert(out@.to_multiset() =~= orig.to_multiset());
        vstd::seq_lib::to_multiset_len(out@);
        vstd::seq_lib::to_multiset_len(orig);
    }
    out
}

/// Sorts sessions by start time, latest first, by insertion.
fn sort_sessions_desc(v: Vec<Session>) -> (r: Vec<Session>)
    ensures
        r@.len() == v@.len(),
        r@.to_multiset() == v@.to_multiset(),
        sorted_sessions_desc(r@),
{
    let ghost orig = v@;
    let mut v = v;
    let mut out: Vec<Session> = Vec::new();
    proof {
        broadcast use vstd::multiset::group_multiset_axioms;

        assert forall|a: Session|
            out@.to_multiset().add(v@.to_multiset()).count(a) == orig.to_multiset().count(
                a,
            ) by {
            vstd::seq_lib::to_multiset_contains(out@, a);
        }
        assert(out@.to_multiset().add(v@.to_multiset()) =~= orig.to_multiset());
    }
    while v.len() > 0
        invariant
            out@.len() + v@.len() == orig.len(),
            out@.to_multiset().add(v@.to_multiset()) == orig.to_multiset(),
            sorted_sessions_desc(out@),
        decreases v@.len(),
    {
        let ghost vpre = v@;
        let x = v.remove(0);
        proof {
            broadcast use vstd::multiset::group_multiset_axioms;

            assert(x == vpre[0]);
            assert(vpre.remove(0) =~= v@);
            vstd::seq_lib::to_multiset_remove(vpre, 0);
            vstd::seq_lib::to_multiset_contains(vpre, x);
            assert(vpre.contains(x));
            assert(vpre.to_multiset().count(x) > 0);
            assert(vpre.to_multiset() =~= v@.to_multiset().insert(x));
        }
        let mut pos: usize = 0;
        while pos < out.len() && out[pos].start_time >= x.start_time
            invariant
                0 <= pos <= out@.len(),
                forall|k: int| 0 <= k < pos ==> (#[trigger] out@[k]).start_time >= x.start_time,
            decreases out@.len() - pos,
        {
            pos = pos + 1;
        }
        let ghost opre = out@;
        out.insert(pos, x);
        proof {
            broadcast use vstd::multiset::group_multiset_axioms;

            vstd::seq_lib::to_multiset_insert(opre, pos as int, x);
            assert(out@.to_multiset().add(v@.to_multiset()) == orig.to_multiset()) by {
                assert(opre.to_multiset().insert(x).add(v@.to_multiset())
                    =~= opre.to_multiset().add(v@.to_multiset().insert(x)));
            }
            assert forall|i: int, j: int|
                0 <= i < j < out@.len() implies (#[trigger] out@[i]).start_time >= (
            #[trigger] out@[j]).start_time by {
                if j < pos {
                } else if i < pos && j == pos as int {
                    assert(out@[i] == opre[i]);
                } else if i == pos as int {
                    assert(out@[j] == opre[j - 1]);
                    assert((pos as int) < opre.len() ==> opre[pos as int].start_time
                        < x.start_time);
                    if j - 1 > pos as int {
                        assert(opre[j - 1].start_time <= opre[pos as int].start_time);
                    }
                } else if i < pos as int {
                    assert(out@[i] == opre[i]);
                    assert(out@[j] == opre[j - 1]);
                } else {
                    assert(out@[i] == opre[i - 1]);
                    assert(out@[j] == opre[j - 1]);
                }
            }
        }
    }
    proof {
        broadcast use vstd::multiset::group_multiset_axioms;

        assert forall|a: Session|
            out@.to_multiset().count(a) == orig.to_multiset().count(a) by {
            vstd::seq_lib::to_multiset_contains(v@, a);
            assert(!v@.contains(a));
        }
        assert(out@.to_multiset() =~= orig.to_multiset());
        vstd::seq_lib::to_multiset_len(out@);
        vstd::seq_lib::to_multiset_len(orig);
    }
    out
}

/// Screenshot records in non-increasing timestamp order.
pub open spec fn sorted_shots_desc(shots: Seq<Screenshot>) -> bool {
    forall|i: int, j: int|
        0 <= i < j < shots.len() ==> (#[trigger] shots[i]).timestamp >= (
        #[trigger] shots[j]).timestamp
}

/// Sessions in non-increasing start-time order.
pub open spec fn sorted_sessions_desc(sessions: Seq<Session>) -> bool {
    forall|i: int, j: int|
        0 <= i < j < sessions.len() ==> (#[trigger] sessions[i]).start_time >= (
        #[trigger] sessions[j]).start_time
}


/// The predicate selecting one session's screenshot records.
pub open spec fn shot_session_pred(session_id: i64) -> spec_fn(Screenshot) -> bool {
    |s: Screenshot| s.session_id == session_id
}

/// One session's screenshot records, in ledger order.
pub open spec fn shot_session_rows(shots: Seq<Screenshot>, session_id: i64) -> Seq<Screenshot> {
    shots.filter(shot_session_pred(session_id))
}

/// The predicate selecting screenshot records of the half-open range.
pub open spec fn shot_range_pred(from: i64, to: i64) -> spec_fn(Screenshot) -> bool {
    |s: Screenshot| from <= s.timestamp < to
}

/// The screenshot records of the half-open range, in ledger order.
pub open spec fn shot_range_rows(shots: Seq<Screenshot>, from: i64, to: i64) -> Seq<Screenshot> {
    shots.filter(shot_range_pred(from, to))
}

/// The predicate selecting the sessions started on one civil date in UTC.
pub open spec fn session_date_pred(date: Date) -> spec_fn(Session) -> bool {
    |s: Session| civil_of(s.start_time as int).0 == date.year as int && civil_of(
        s.start_time as int,
    ).1 == date.month as int && civil_of(s.start_time as int).2 == date.day as int
}

/// The sessions started on one civil date, in ledger order.
pub open spec fn sessions_of_date(sessions: Seq<Session>, date: Date) -> Seq<Session> {
    sessions.filter(session_date_pred(date))
}

/// A summary carries the session's fields and its row counts.
pub open spec fn summary_matches(
    rows: Seq<WindowActivity>,
    shots: Seq<Screenshot>,
    s: Session,
    m: SessionSummary,
) -> bool {
    &&& m.id == s.id
    &&& m.start_time == s.start_time
    &&& m.end_time == s.end_time
    &&& m.duration == s.duration
    &&& m.activity_count as int == session_rows(rows, s.id).len()
    &&& m.screenshot_count as int == shot_session_rows(shots, s.id).len()
}

/// A session listing is a descending ordering of exactly the date's
/// sessions, each carried with its row counts.
pub open spec fn session_listing_ok(
    sessions: Seq<Session>,
    rows: Seq<WindowActivity>,
    shots: Seq<Screenshot>,
    date: Date,
    sorted: Seq<Session>,
    out: Seq<SessionSummary>,
) -> bool {
    &&& sorted.to_multiset() == sessions_of_date(sessions, date).to_multiset()
    &&& sorted_sessions_desc(sorted)
    &&& out.len() == sorted.len()
    &&& forall|i: int|
        0 <= i < out.len() ==> summary_matches(rows, shots, sorted[i], #[trigger] out[i])
}

/// A correct recent-screenshot listing: a prefix of some descending
/// ordering of all screenshot records, cut at the requested count.
pub open spec fn recent_shots_ok(shots: Seq<Screenshot>, limit: int, r: Seq<Screenshot>) -> bool {
    exists|sorted: Seq<Screenshot>|
        {
            &&& sorted.to_multiset() == shots.to_multiset()
            &&& sorted_shots_desc(sorted)
            &&& r == sorted.subrange(
                0,
                if limit <= sorted.len() {
                    limit
                } else {
                    sorted.len() as int
                },
            )
        }
}

/// A correct range listing of screenshot records: some descending
/// ordering of exactly the range's records.
pub open spec fn shots_in_range_ok(
    shots: Seq<Screenshot>,
    from: i64,
    to: i64,
    r: Seq<Screenshot>,
) -> bool {
    exists|sorted: Seq<Screenshot>|
        {
            &&& sorted.to_multiset() == shot_range_rows(shots, from, to).to_multiset()
            &&& sorted_shots_desc(sorted)
            &&& r == sorted
        }
}

/// A correct session listing for a date: some descending ordering of
/// exactly the date's sessions underlies the summaries.
pub open spec fn sessions_for_date_ok(
    sessions: Seq<Session>,
    rows: Seq<WindowActivity>,
    shots: Seq<Screenshot>,
    date: Date,
    out: Seq<SessionSummary>,
) -> bool {
    exists|sorted: Seq<Session>| session_listing_ok(sessions, rows, shots, date, sorted, out)
}

/// Copies of one session's activity rows, in ledger order.
fn rows_of_session(rows: &Vec<WindowActivity>, session_id: i64) -> (r: Vec<WindowActivity>)
    ensures
        r@ == session_rows(rows@, session_id),
{
    let mut out: Vec<WindowActivity> = Vec::new();
    let mut i: usize = 0;
    proof {
        assert(rows@.subrange(0, 0) =~= Seq::<WindowActivity>::empty());
        reveal(Seq::filter);
    }
    while i < rows.len()
        invariant
            0 <= i <= rows@.len(),
            out@ == rows@.subrange(0, i as int).filter(session_pred(session_id)),
        decreases rows@.len() - i,
    {
        proof {
            assert(rows@.subrange(0, i as int + 1) =~= rows@.subrange(0, i as int).push(
                rows@[i as int],
            ));
            crate::seqs::lemma_filter_push(
                rows@.subrange(0, i as int),
                rows@[i as int],
                session_pred(session_id),
            );
        }
        if rows[i].session_id == session_id {
            let c = copy_row(&rows[i]);
            out.push(c);
        }
        i = i + 1;
    }
    proof {
        assert(rows@.subrange(0, rows@.len() as int) =~= rows@);
    }
    out
}

/// Copies of the activity rows of one civil date, in ledger order.
fn rows_of_date(rows: &Vec<WindowActivity>, date: Date) -> (r: Vec<WindowActivity>)
    requires
        forall|i: int| 0 <= i < rows@.len() ==> valid_ts((#[trigger] rows@[i]).timestamp as int),
    ensures
        r@ == date_rows(rows@, date),
{
    let mut out: Vec<WindowActivity> = Vec::new();
    let mut i: usize = 0;
    proof {
        assert(rows@.subrange(0, 0) =~= Seq::<WindowActivity>::empty());
        reveal(Seq::filter);
    }
    while i < rows.len()
        invariant
            0 <= i <= rows@.len(),
            forall|n: int|
                0 <= n < rows@.len() ==> valid_ts((#[trigger] rows@[n]).timestamp as int),
            out@ == rows@.subrange(0, i as int).filter(date_pred(date)),
        decreases rows@.len() - i,
    {
        proof {
            assert(rows@.subrange(0, i as int + 1) =~= rows@.subrange(0, i as int).push(
                rows@[i as int],
            ));
            crate::seqs::lemma_filter_push(
                rows@.subrange(0, i as int),
                rows@[i as int],
                date_pred(date),
            );
        }
        let cd = crate::time::civil_date_of(rows[i].timestamp);
        if cd.0 as i64 == date.year && cd.1 as i64 == date.month && cd.2 as i64 == date.day {
            let c = copy_row(&rows[i]);
            out.push(c);
        }
        i = i + 1;
    }
    proof {
        assert(rows@.subrange(0, rows@.len() as int) =~= rows@);
    }
    out
}

/// Copies of the activity rows of the half-open range, in ledger order.
fn rows_in_range(rows: &Vec<WindowActivity>, from: i64, to: i64) -> (r: Vec<WindowActivity>)
    ensures
        r@ == crate::aggregate::range_rows(rows@, from, to),
{
    let mut out: Vec<WindowActivity> = Vec::new();
    let mut i: usize = 0;
    proof {
        assert(rows@.subrange(0, 0) =~= Seq::<WindowActivity>::empty());
        reveal(Seq::filter);
    }
    while i < rows.len()
        invariant
            0 <= i <= rows@.len(),
            out@ == rows@.subrange(0, i as int).filter(crate::aggregate::range_pred(from, to)),
        decreases rows@.len() - i,
    {
        proof {
            assert(rows@.subrange(0, i as int + 1) =~= rows@.subrange(0, i as int).push(
                rows@[i as int],
            ));
            crate::seqs::lemma_filter_push(
                rows@.subrange(0, i as int),
                rows@[i as int],
                crate::aggregate::range_pred(from, to),
            );
        }
        if from <= rows[i].timestamp && rows[i].timestamp < to {
            let c = copy_row(&rows[i]);
            out.push(c);
        }
        i = i + 1;
    }
    proof {
        assert(rows@.subrange(0, rows@.len() as int) =~= rows@);
    }
    out
}

/// Copies of the screenshot records of the half-open range, in ledger order.
fn shots_in_range(shots: &Vec<Screenshot>, from: i64, to: i64) -> (r: Vec<Screenshot>)
    ensures
        r@ == shot_range_rows(shots@, from, to),
{
    let mut out: Vec<Screenshot> = Vec::new();
    let mut i: usize = 0;
    proof {
        assert(shots@.subrange(0, 0) =~= Seq::<Screenshot>::empty());
        reveal(Seq::filter);
    }
    while i < shots.len()
        invariant
            0 <= i <= shots@.len(),
            out@ == shots@.subrange(0, i as int).filter(shot_range_pred(from, to)),
        decreases shots@.len() - i,
    {
        proof {
            assert(shots@.subrange(0, i as int + 1) =~= shots@.subrange(0, i as int).push(
                shots@[i as int],
            ));
            crate::seqs::lemma_filter_push(
                shots@.subrange(0, i as int),
                shots@[i as int],
                shot_range_pred(from, to),
            );
        }
        if from <= shots[i].timestamp && shots[i].timestamp < to {
            let c = copy_screenshot(&shots[i]);
            out.push(c);
        }
        i = i + 1;
    }
    proof {
        assert(shots@.subrange(0, shots@.len() as int) =~= shots@);
    }
    out
}

/// Annotates sorted rows with their 1-based rank.
fn annotate_flows(sortedv: Vec<WindowActivity>) -> (r: Vec<AppLifecycleFlow>)
    requires
        sortedv@.len() < i64::MAX,
    ensures
        r@.len() == sortedv@.len(),
        forall|i: int| 0 <= i < r@.len() ==> flow_matches(#[trigger] r@[i], sortedv@[i], i),
{
    let mut out: Vec<AppLifecycleFlow> = Vec::new();
    let mut i: usize = 0;
    while i < sortedv.len()
        invariant
            0 <= i <= sortedv@.len(),
            sortedv@.len() < i64::MAX,
            out@.len() == i,
            forall|n: int| 0 <= n < i ==> flow_matches(#[trigger] out@[n], sortedv@[n], n),
        decreases sortedv@.len() - i,
    {
        let a = &sortedv[i];
        out.push(
            AppLifecycleFlow {
                id: a.id,
                app_id: a.app_id.clone(),
                window_title: a.window_title.clone(),
                event_type: a.event_type,
                timestamp: a.timestamp,
                duration: a.duration,
                position: (i as i64) + 1,
            },
        );
        i = i + 1;
    }
    out
}

/// Turns sorted rows into timeline entries.
fn make_events(sortedv: Vec<WindowActivity>) -> (r: Vec<TimelineEvent>)
    ensures
        r@.len() == sortedv@.len(),
        forall|i: int| 0 <= i < r@.len() ==> event_matches(#[trigger] r@[i], sortedv@[i]),
{
    let mut out: Vec<TimelineEvent> = Vec::new();
    let mut i: usize = 0;
    while i < sortedv.len()
        invariant
            0 <= i <= sortedv@.len(),
            out@.len() == i,
            forall|n: int| 0 <= n < i ==> event_matches(#[trigger] out@[n], sortedv@[n]),
        decreases sortedv@.len() - i,
    {
        let a = &sortedv[i];
        out.push(
            TimelineEvent {
                timestamp: a.timestamp,
                event_type: a.event_type,
                app_id: a.app_id.clone(),
                window_title: Some(a.window_title.clone()),
                metadata: match &a.metadata {
                    Some(s) => Some(s.clone()),
                    None => None,
                },
            },
        );
        i = i + 1;
    }
    out
}

/// How many activity rows reference a session.
fn count_rows_of_session(rows: &Vec<WindowActivity>, session_id: i64) -> (c: i64)
    requires
        rows@.len() < i64::MAX,
    ensures
        c as int == session_rows(rows@, session_id).len(),
        c >= 0,
{
    let mut c: i64 = 0;
    let mut i: usize = 0;
    proof {
        assert(rows@.subrange(0, 0) =~= Seq::<WindowActivity>::empty());
        reveal(Seq::filter);
    }
    while i < rows.len()
        invariant
            0 <= i <= rows@.len(),
            rows@.len() < i64::MAX,
            0 <= c,
            c as int == rows@.subrange(0, i as int).filter(session_pred(session_id)).len(),
        decreases rows@.len() - i,
    {
        proof {
            assert(rows@.subrange(0, i as int + 1) =~= rows@.subrange(0, i as int).push(
                rows@[i as int],
            ));
            crate::seqs::lemma_filter_push(
                rows@.subrange(0, i as int),
                rows@[i as int],
                session_pred(session_id),
            );
            rows@.subrange(0, i as int + 1).lemma_filter_len(session_pred(session_id));
        }
        if rows[i].session_id == session_id {
            c = c + 1;
        }
        i = i + 1;
    }
    proof {
        assert(rows@.subrange(0, rows@.len() as int) =~= rows@);
    }
    c
}

/// How many screenshot records reference a session.
fn count_shots_of_session(shots: &Vec<Screenshot>, session_id: i64) -> (c: i64)
    requires
        shots@.len() < i64::MAX,
    ensures
        c as int == shot_session_rows(shots@, session_id).len(),
        c >= 0,
{
    let mut c: i64 = 0;
    let mut i: usize = 0;
    proof {
        assert(shots@.subrange(0, 0) =~= Seq::<Screenshot>::empty());
        reveal(Seq::filter);
    }
    while i < shots.len()
        invariant
            0 <= i <= shots@.len(),
            shots@.len() < i64::MAX,
            0 <= c,
            c as int == shots@.subrange(0, i as int).filter(
                shot_session_pred(session_id),
            ).len(),
        decreases shots@.len() - i,
    {
        proof {
            assert(shots@.subrange(0, i as int + 1) =~= shots@.subrange(0, i as int).push(
                shots@[i as int],
            ));
            crate::seqs::lemma_filter_push(
                shots@.subrange(0, i as int),
                shots@[i as int],
                shot_session_pred(session_id),
            );
            shots@.subrange(0, i as int + 1).lemma_filter_len(shot_session_pred(session_id));
        }
        if shots[i].session_id == session_id {
            c = c + 1;
        }
        i = i + 1;
    }
    proof {
        assert(shots@.subrange(0, shots@.len() as int) =~= shots@);
    }
    c
}

impl crate::store::Store {
    /// The activity rows of one session, ordered by timestamp ascending,
    /// each annotated with its 1-based rank. An unknown session yields an
    /// empty listing.
    pub fn get_session_flow(&self, session_id: i64) -> (flows: Vec<AppLifecycleFlow>)
        requires
            self.wf(),
        ensures
            exists|sorted: Seq<WindowActivity>|
                flow_listing_ok(session_rows(self.activities@, session_id), sorted, flows@),
    {
        let srows = rows_of_session(&self.activities, session_id);
        proof {
            self.lemma_lens_bound();
            self.activities@.lemma_filter_len(session_pred(session_id));
        }
        let sortedv = sort_rows_asc(srows);
        proof {
            vstd::seq_lib::to_multiset_len(sortedv@);
            vstd::seq_lib::to_multiset_len(session_rows(self.activities@, session_id));
        }
        let flows = annotate_flows(sortedv);
        proof {
            assert(flow_listing_ok(
                session_rows(self.activities@, session_id),
                sortedv@,
                flows@,
            ));
        }
        flows
    }

    /// The activity rows of one civil date, ordered by timestamp ascending,
    /// each annotated with its 1-based rank.
    pub fn get_app_lifecycle_flow(&self, date: Date) -> (flows: Vec<AppLifecycleFlow>)
        requires
            self.wf(),
        ensures
            exists|sorted: Seq<WindowActivity>|
                flow_listing_ok(date_rows(self.activities@, date), sorted, flows@),
    {
        proof {
            assert forall|i: int| 0 <= i < self.activities@.len() implies valid_ts((
            #[trigger] self.activities@[i]).timestamp as int) by {}
        }
        let srows = rows_of_date(&self.activities, date);
        proof {
            self.lemma_lens_bound();
            self.activities@.lemma_filter_len(date_pred(date));
        }
        let sortedv = sort_rows_asc(srows);
        proof {
            vstd::seq_lib::to_multiset_len(sortedv@);
            vstd::seq_lib::to_multiset_len(date_rows(self.activities@, date));
        }
        let flows = annotate_flows(sortedv);
        proof {
            assert(flow_listing_ok(date_rows(self.activities@, date), sortedv@, flows@));
        }
        flows
    }

    /// The activity rows of `[from, to)` as a unified timeline, ordered by
    /// timestamp descending. Fails if and only if the range is reversed.
    pub fn get_unified_timeline_events(&self, from: i64, to: i64) -> (r: Result<
        Vec<TimelineEvent>,
        AppError,
    >)
        requires
            self.wf(),
        ensures
            match r {
                Ok(events) => from <= to && range_timeline_ok(
                    self.activities@,
                    from,
                    to,
                    events@,
                ),
                Err(e) => from > to && e matches AppError::InvalidInput(_),
            },
    {
        if from > to {
            return Err(AppError::InvalidInput(String::from_str("reversed time range")));
        }
        let srows = rows_in_range(&self.activities, from, to);
        let sortedv = sort_rows_desc(srows);
        let events = make_events(sortedv);
        proof {
            let srw = crate::aggregate::range_rows(self.activities@, from, to);
            assert(timeline_ok(srw, sortedv@, events@));
            assert(range_timeline_ok(self.activities@, from, to, events@));
        }
        Ok(events)
    }

    /// One session's activity rows as a unified timeline, ordered by
    /// timestamp descending.
    pub fn get_unified_timeline_events_for_session(&self, session_id: i64) -> (events: Vec<
        TimelineEvent,
    >)
        requires
            self.wf(),
        ensures
            exists|sorted: Seq<WindowActivity>|
                timeline_ok(session_rows(self.activities@, session_id), sorted, events@),
    {
        let srows = rows_of_session(&self.activities, session_id);
        let sortedv = sort_rows_desc(srows);
        let events = make_events(sortedv);
        proof {
            assert(timeline_ok(session_rows(self.activities@, session_id), sortedv@, events@));
        }
        events
    }

    /// The most recent screenshot records: at most `limit`, ordered by
    /// timestamp descending.
    pub fn get_recent_screenshots(&self, limit: usize) -> (r: Vec<Screenshot>)
        requires
            self.wf(),
        ensures
            recent_shots_ok(self.screenshots@, limit as int, r@),
    {
        let mut all: Vec<Screenshot> = Vec::new();
        let mut i: usize = 0;
        while i < self.screenshots.len()
            invariant
                0 <= i <= self.screenshots@.len(),
                all@ == self.screenshots@.subrange(0, i as int),
            decreases self.screenshots@.len() - i,
        {
            proof {
                assert(self.screenshots@.subrange(0, i as int + 1)
                    =~= self.screenshots@.subrange(0, i as int).push(
                    self.screenshots@[i as int],
                ));
            }
            let c = copy_screenshot(&self.screenshots[i]);
            all.push(c);
            i = i + 1;
        }
        proof {
            assert(self.screenshots@.subrange(0, self.screenshots@.len() as int)
                =~= self.screenshots@);
        }
        let mut sortedv = sort_shots_desc(all);
        let ghost sorted = sortedv@;
        if limit < sortedv.len() {
            sortedv.truncate(limit);
        }
        proof {
            if (limit as int) < sorted.len() {
                assert(sortedv@ == sorted.subrange(0, limit as int));
            } else {
                assert(sortedv@ =~= sorted.subrange(0, sorted.len() as int));
            }
            assert(recent_shots_ok(self.screenshots@, limit as int, sortedv@));
        }
        sortedv
    }

    /// The screenshot records of `[from, to)`, ordered by timestamp
    /// descending. Fails if and only if the range is reversed.
    pub fn get_screenshots_in_range(&self, from: i64, to: i64) -> (r: Result<
        Vec<Screenshot>,
        AppError,
    >)
        requires
            self.wf(),
        ensures
            match r {
                Ok(shots) => from <= to && shots_in_range_ok(
                    self.screenshots@,
                    from,
                    to,
                    shots@,
                ),
                Err(e) => from > to && e matches AppError::InvalidInput(_),
            },
    {
        if from > to {
            return Err(AppError::InvalidInput(String::from_str("reversed time range")));
        }
        let srows = shots_in_range(&self.screenshots, from, to);
        let sortedv = sort_shots_desc(srows);
        proof {
            assert(shots_in_range_ok(self.screenshots@, from, to, sortedv@));
        }
        Ok(sortedv)
    }

    /// The sessions started on one civil date, newest first, each with its
    /// activity and screenshot row counts.
    pub fn get_sessions_for_date(&self, date: Date) -> (r: Vec<SessionSummary>)
        requires
            self.wf(),
        ensures
            sessions_for_date_ok(self.sessions@, self.activities@, self.screenshots@, date, r@),
    {
        // select the date's sessions
        let mut sel: Vec<Session> = Vec::new();
        let mut i: usize = 0;
        proof {
            assert(self.sessions@.subrange(0, 0) =~= Seq::<Session>::empty());
            reveal(Seq::filter);
        }
        while i < self.sessions.len()
            invariant
                self.wf(),
                0 <= i <= self.sessions@.len(),
                sel@ == self.sessions@.subrange(0, i as int).filter(session_date_pred(date)),
            decreases self.sessions@.len() - i,
        {
            proof {
                assert(self.sessions@.subrange(0, i as int + 1) =~= self.sessions@.subrange(
                    0,
                    i as int,
                ).push(self.sessions@[i as int]));
                crate::seqs::lemma_filter_push(
                    self.sessions@.subrange(0, i as int),
                    self.sessions@[i as int],
                    session_date_pred(date),
                );
                assert(valid_ts(self.sessions@[i as int].start_time as int));
            }
            let s = self.sessions[i];
            let cd = crate::time::civil_date_of(s.start_time);
            if cd.0 as i64 == date.year && cd.1 as i64 == date.month && cd.2 as i64 == date.day {
                sel.push(s);
            }
            i = i + 1;
        }
        proof {
            assert(self.sessions@.subrange(0, self.sessions@.len() as int) =~= self.sessions@);
        }
        let sortedv = sort_sessions_desc(sel);
        proof {
            self.lemma_lens_bound();
        }
        // summaries with row counts
        let mut out: Vec<SessionSummary> = Vec::new();
        let mut w: usize = 0;
        while w < sortedv.len()
            invariant
                self.wf(),
                0 <= w <= sortedv@.len(),
                out@.len() == w,
                self.activities@.len() < i64::MAX,
                self.screenshots@.len() < i64::MAX,
                forall|n: int|
                    0 <= n < w ==> summary_matches(
                        self.activities@,
                        self.screenshots@,
                        sortedv@[n],
                        #[trigger] out@[n],
                    ),
            decreases sortedv@.len() - w,
        {
            let s = sortedv[w];
            let ac = count_rows_of_session(&self.activities, s.id);
            let sc = count_shots_of_session(&self.screenshots, s.id);
            out.push(
                SessionSummary {
                    id: s.id,
                    start_time: s.start_time,
                    end_time: s.end_time,
                    duration: s.duration,
                    activity_count: ac,
                    screenshot_count: sc,
                },
            );
            w = w + 1;
        }
        proof {
            assert(session_listing_ok(
                self.sessions@,
                self.activities@,
                self.screenshots@,
                date,
                sortedv@,
                out@,
            ));
            assert(sessions_for_date_ok(
                self.sessions@,
                self.activities@,
                self.screenshots@,
                date,
                out@,
            ));
        }
        out
    }
}

} // verus!

//! Read-side aggregation over the ledger: per-app statistics for a half-open
//! time range `[from, to)`, calendar heatmaps, ordered timelines and session
//! summaries. Every query computes against one point-in-time snapshot of the
//! ledger, and an invalid range is rejected, never silently repaired.

use vstd::multiset::Multiset;
use vstd::pervasive::VecAdditionalExecFns;
use vstd::prelude::*;

use crate::error::AppError;
use crate::store::{dur_of, durs_nonneg, sum_durations, WindowActivity};

verus! {

/// Per-app aggregate over a queried range. The percentage is held in
/// hundredths of a percent (basis points of the range total), so that the
/// share stays exact integer arithmetic.
#[derive(Debug, Clone)]
pub struct AppStats {
    pub app_id: String,
    pub total_duration: i64,
    pub session_count: i64,
    pub last_used: i64,
    pub percentage: i64,
    pub window_count: i64,
}

/// The predicate selecting rows of the half-open range `[from, to)`.
pub open spec fn range_pred(from: i64, to: i64) -> spec_fn(WindowActivity) -> bool {
    |a: WindowActivity| from <= a.timestamp < to
}

/// The rows of the half-open range `[from, to)`, in ledger order.
pub open spec fn range_rows(rows: Seq<WindowActivity>, from: i64, to: i64) -> Seq<
    WindowActivity,
> {
    rows.filter(range_pred(from, to))
}

/// The predicate selecting rows of one app.
pub open spec fn app_pred(app: Seq<char>) -> spec_fn(WindowActivity) -> bool {
    |a: WindowActivity| a.app_id@ == app
}

/// The rows of one app within the half-open range `[from, to)`.
pub open spec fn app_rows(
    rows: Seq<WindowActivity>,
    app: Seq<char>,
    from: i64,
    to: i64,
) -> Seq<WindowActivity> {
    range_rows(rows, from, to).filter(app_pred(app))
}

/// Dwell time: the cumulative duration an app held focus within the range,
/// the sum of its pulse durations recorded there.
pub open spec fn dwell(rows: Seq<WindowActivity>, app: Seq<char>, from: i64, to: i64) -> int {
    sum_durations(app_rows(rows, app, from, to))
}

/// Recording one pulse extends exactly its app's dwell time, by exactly
/// its duration, over any window that contains it: for any sample
/// sequence, per-app dwell over `[from, to)` is the sum of the pulse
/// durations recorded for that app in that window, pulse by pulse.
pub proof fn lemma_dwell_accumulates(
    rows: Seq<WindowActivity>,
    p: WindowActivity,
    app: Seq<char>,
    from: i64,
    to: i64,
)
    ensures
        dwell(rows.push(p), app, from, to) == dwell(rows, app, from, to) + (
        if from <= p.timestamp < to && p.app_id@ == app {
            dur_of(p)
        } else {
            0int
        }),
{
    crate::seqs::lemma_filter_push(rows, p, range_pred(from, to));
    if from <= p.timestamp < to {
        crate::seqs::lemma_filter_push(range_rows(rows, from, to), p, app_pred(app));
        if p.app_id@ == app {
            crate::store::lemma_sum_durations_push(app_rows(rows, app, from, to), p);
        }
    }
}

/// The session id of each row, in order.
pub open spec fn session_ids(rows: Seq<WindowActivity>) -> Seq<i64> {
    rows.map_values(|a: WindowActivity| a.session_id)
}

/// First-occurrence deduplication of a sequence of ids; its length is the
/// number of distinct ids.
pub open spec fn dedup(s: Seq<i64>) -> Seq<i64>
    decreases s.len(),
{
    if s.len() == 0 {
        Seq::empty()
    } else {
        let d = dedup(s.drop_last());
        if d.contains(s.last()) {
            d
        } else {
            d.push(s.last())
        }
    }
}

/// The deduplicated sequence holds exactly the ids of the original, so a
/// session count over it misses no session that touched the app.
pub proof fn lemma_dedup_contains(s: Seq<i64>)
    ensures
        forall|x: i64| dedup(s).contains(x) <==> s.contains(x),
    decreases s.len(),
{
    if s.len() > 0 {
        lemma_dedup_contains(s.drop_last());
        let d = dedup(s.drop_last());
        assert forall|x: i64| dedup(s).contains(x) <==> s.contains(x) by {
            if s.contains(x) {
                let i = choose|i: int| 0 <= i < s.len() && s[i] == x;
                if i < s.len() - 1 {
                    assert(s.drop_last()[i] == x);
                    assert(s.drop_last().contains(x));
                    assert(d.contains(x));
                    if d.contains(s.last()) {
                        assert(dedup(s).contains(x));
                    } else {
                        let w = choose|w: int| 0 <= w < d.len() && d[w] == x;
                        assert(dedup(s)[w] == x);
                    }
                } else {
                    if d.contains(s.last()) {
                        assert(dedup(s).contains(x));
                    } else {
                        assert(dedup(s)[dedup(s).len() - 1] == x);
                    }
                }
            }
            if dedup(s).contains(x) {
                let w = choose|w: int| 0 <= w < dedup(s).len() && dedup(s)[w] == x;
                if d.contains(s.last()) && w < d.len() || !d.contains(s.last()) && w < d.len() {
                    assert(d[w] == x);
                    assert(d.contains(x));
                    assert(s.drop_last().contains(x));
                    let i = choose|i: int| 0 <= i < s.drop_last().len() && s.drop_last()[i] == x;
                    assert(s.drop_last()[i] == s[i]);
                    assert(s.contains(x));
                } else {
                    assert(x == s.last());
                    assert(s[s.len() - 1] == x);
                }
            }
        }
    }
}

/// Deduplication yields no duplicates, so a session count over it counts
/// each session once: together with the lemma above, `session_count` is
/// the number of distinct sessions touching the app in the range.
pub proof fn lemma_dedup_distinct(s: Seq<i64>)
    ensures
        forall|i: int, j: int|
            0 <= i < j < dedup(s).len() ==> dedup(s)[i] != dedup(s)[j],
    decreases s.len(),
{
    if s.len() > 0 {
        lemma_dedup_distinct(s.drop_last());
        let d = dedup(s.drop_last());
        if !d.contains(s.last()) {
            assert forall|i: int, j: int|
                0 <= i < j < dedup(s).len() implies dedup(s)[i] != dedup(s)[j] by {
                if j < d.len() {
                } else {
                    assert(dedup(s)[j] == s.last());
                    assert(d.contains(d[i]));
                }
            }
        }
    }
}

/// Deduplication cannot lengthen a sequence.
pub proof fn lemma_dedup_len(s: Seq<i64>)
    ensures
        dedup(s).len() <= s.len(),
    decreases s.len(),
{
    if s.len() > 0 {
        lemma_dedup_len(s.drop_last());
    }
}

/// Mapping to session ids commutes with appending a row.
pub proof fn lemma_session_ids_push(rows: Seq<WindowActivity>, a: WindowActivity)
    ensures
        session_ids(rows.push(a)) =~= session_ids(rows).push(a.session_id),
{
}

/// The greatest timestamp among a non-empty sequence of rows.
pub open spec fn max_ts(rows: Seq<WindowActivity>) -> int
    decreases rows.len(),
{
    if rows.len() <= 1 {
        rows[0].timestamp as int
    } else {
        let m = max_ts(rows.drop_last());
        if rows.last().timestamp as int > m {
            rows.last().timestamp as int
        } else {
            m
        }
    }
}

/// Working aggregate for one app while scanning the ledger.
struct AppAgg {
    app_id: String,
    total: i64,
    count: i64,
    last: i64,
    sessions: Vec<i64>,
}

/// Sum of the working totals.
spec fn sum_totals(aggs: Seq<AppAgg>) -> int
    decreases aggs.len(),
{
    if aggs.len() == 0 {
        0
    } else {
        sum_totals(aggs.drop_last()) + aggs.last().total as int
    }
}

proof fn lemma_sum_totals_push(aggs: Seq<AppAgg>, e: AppAgg)
    ensures
        sum_totals(aggs.push(e)) == sum_totals(aggs) + e.total as int,
{
    assert(aggs.push(e).drop_last() =~= aggs);
}

proof fn lemma_sum_totals_update(aggs: Seq<AppAgg>, j: int, e: AppAgg)
    requires
        0 <= j < aggs.len(),
    ensures
        sum_totals(aggs.update(j, e)) == sum_totals(aggs) - aggs[j].total as int
            + e.total as int,
    decreases aggs.len(),
{
    let upd = aggs.update(j, e);
    if j == aggs.len() - 1 {
        assert(upd.drop_last() =~= aggs.drop_last());
        assert(upd.last() == e);
    } else {
        assert(upd.drop_last() =~= aggs.drop_last().update(j, e));
        assert(upd.last() == aggs.last());
        lemma_sum_totals_update(aggs.drop_last(), j, e);
    }
}

/// The fields of one working aggregate describe exactly the rows of its app
/// within the range.
spec fn agg_inv(
    rows: Seq<WindowActivity>,
    from: i64,
    to: i64,
    e: AppAgg,
) -> bool {
    let ars = app_rows(rows, e.app_id@, from, to);
    &&& ars.len() > 0
    &&& e.total as int == sum_durations(ars)
    &&& e.total >= 0
    &&& e.count as int == ars.len()
    &&& e.last as int == max_ts(ars)
    &&& e.sessions@ == dedup(session_ids(ars))
}

/// Filtering keeps durations non-negative.
pub proof fn lemma_durs_nonneg_filter(
    rows: Seq<WindowActivity>,
    pred: spec_fn(WindowActivity) -> bool,
)
    requires
        durs_nonneg(rows),
    ensures
        durs_nonneg(rows.filter(pred)),
    decreases rows.len(),
{
    reveal(Seq::filter);
    if rows.len() > 0 {
        assert forall|i: int| 0 <= i < rows.drop_last().len() implies dur_of(
            #[trigger] rows.drop_last()[i],
        ) >= 0 by {
            assert(rows.drop_last()[i] == rows[i]);
        }
        lemma_durs_nonneg_filter(rows.drop_last(), pred);
        let out = rows.filter(pred);
        let sub = rows.drop_last().filter(pred);
        assert forall|i: int| 0 <= i < out.len() implies dur_of(#[trigger] out[i]) >= 0 by {
            if pred(rows.last()) {
                if i < sub.len() {
                    assert(out[i] == sub[i]);
                }
            } else {
                assert(out[i] == sub[i]);
            }
        }
    }
}

/// Appending a row with a greater timestamp raises the maximum; any other
/// append leaves it.
proof fn lemma_max_ts_push(rows: Seq<WindowActivity>, a: WindowActivity)
    requires
        rows.len() > 0,
    ensures
        max_ts(rows.push(a)) == if a.timestamp as int > max_ts(rows) {
            a.timestamp as int
        } else {
            max_ts(rows)
        },
{
    assert(rows.push(a).drop_last() =~= rows);
    assert(rows.push(a).last() == a);
}

/// Whether a plain id occurs in a vector.
fn contains_i64(v: &Vec<i64>, x: i64) -> (r: bool)
    ensures
        r == v@.contains(x),
{
    let mut i: usize = 0;
    while i < v.len()
        invariant
            0 <= i <= v@.len(),
            forall|j: int| 0 <= j < i ==> v@[j] != x,
        decreases v@.len() - i,
    {
        if v[i] == x {
            assert(v@[i as int] == x);
            return true;
        }
        i = i + 1;
    }
    false
}

/// Finds the working aggregate of an app, if one exists.
fn find_agg(entries: &Vec<AppAgg>, app: &String) -> (r: Option<usize>)
    ensures
        match r {
            Some(j) => 0 <= j < entries@.len() && entries@[j as int].app_id@ == app@,
            None => forall|j: int|
                0 <= j < entries@.len() ==> (#[trigger] entries@[j].app_id)@ != app@,
        },
{
    let mut j: usize = 0;
    while j < entries.len()
        invariant
            0 <= j <= entries@.len(),
            forall|k: int| 0 <= k < j ==> (#[trigger] entries@[k].app_id)@ != app@,
        decreases entries@.len() - j,
    {
        if entries[j].app_id == *app {
            return Some(j);
        }
        j = j + 1;
    }
    None
}

/// One scan of the ledger rows, building one working aggregate per app seen
/// within the range. The working totals always sum to the range total.
fn accumulate_app_aggs(rows: &Vec<WindowActivity>, from: i64, to: i64) -> (r: Vec<AppAgg>)
    requires
        durs_nonneg(rows@),
        sum_durations(rows@) <= i64::MAX,
        rows@.len() < i64::MAX,
    ensures
        forall|j1: int, j2: int|
            0 <= j1 < j2 < r@.len() ==> (#[trigger] r@[j1].app_id)@ != (
            #[trigger] r@[j2].app_id)@,
        forall|j: int| 0 <= j < r@.len() ==> agg_inv(rows@, from, to, #[trigger] r@[j]),
        forall|i: int|
            #![trigger rows@[i]]
            0 <= i < rows@.len() && from <= rows@[i].timestamp < to ==> exists|j: int|
                0 <= j < r@.len() && (#[trigger] r@[j].app_id)@ == rows@[i].app_id@,
        sum_totals(r@) == sum_durations(range_rows(rows@, from, to)),
{
    let mut entries: Vec<AppAgg> = Vec::new();
    let mut i: usize = 0;
    proof {
        assert(rows@.subrange(0, 0) =~= Seq::<WindowActivity>::empty());
        reveal(Seq::filter);
    }
    while i < rows.len()
        invariant
            0 <= i <= rows@.len(),
            durs_nonneg(rows@),
            sum_durations(rows@) <= i64::MAX,
            rows@.len() < i64::MAX,
            forall|j1: int, j2: int|
                0 <= j1 < j2 < entries@.len() ==> (#[trigger] entries@[j1].app_id)@ != (
                #[trigger] entries@[j2].app_id)@,
            forall|j: int|
                0 <= j < entries@.len() ==> agg_inv(
                    rows@.subrange(0, i as int),
                    from,
                    to,
                    #[trigger] entries@[j],
                ),
            forall|k: int|
                #![trigger rows@[k]]
                0 <= k < i && from <= rows@[k].timestamp < to ==> exists|j: int|
                    0 <= j < entries@.len() && (#[trigger] entries@[j].app_id)@
                        == rows@[k].app_id@,
            sum_totals(entries@) == sum_durations(
                range_rows(rows@.subrange(0, i as int), from, to),
            ),
        decreases rows@.len() - i,
    {
        let ghost prefix = rows@.subrange(0, i as int);
        let ghost prefix1 = rows@.subrange(0, i as int + 1);
        let ghost arow = rows@[i as int];
        proof {
            assert(prefix1 =~= prefix.push(arow));
            crate::seqs::lemma_filter_push(prefix, arow, range_pred(from, to));
        }
        let in_range = from <= rows[i].timestamp && rows[i].timestamp < to;
        if !in_range {
            proof {
                assert(range_rows(prefix1, from, to) == range_rows(prefix, from, to));
                assert forall|j: int| 0 <= j < entries@.len() implies agg_inv(
                    prefix1,
                    from,
                    to,
                    #[trigger] entries@[j],
                ) by {
                    assert(app_rows(prefix1, entries@[j].app_id@, from, to) == app_rows(
                        prefix,
                        entries@[j].app_id@,
                        from,
                        to,
                    ));
                }
            }
        } else {
            let d: i64 = match rows[i].duration {
                Some(x) => x,
                None => 0,
            };
            let ghost rr0 = range_rows(prefix, from, to);
            let ghost rr1 = range_rows(prefix1, from, to);
            proof {
                assert(rr1 == rr0.push(arow));
                crate::store::lemma_sum_durations_push(rr0, arow);
                assert(d as int == dur_of(arow));
                // bounds that both branches use
                assert forall|k: int| 0 <= k < prefix1.len() implies dur_of(
                    #[trigger] prefix1[k],
                ) >= 0 by {
                    assert(prefix1[k] == rows@[k]);
                }
                lemma_durs_nonneg_filter(prefix1, range_pred(from, to));
                crate::store::lemma_sum_durations_filter_le(prefix1, range_pred(from, to));
                crate::store::lemma_sum_durations_prefix_le(rows@, i as int + 1);
                prefix1.lemma_filter_len(range_pred(from, to));
            }
            match find_agg(&entries, &rows[i].app_id) {
                Some(j) => {
                    let ghost app = entries@[j as int].app_id@;
                    let ghost ars0 = app_rows(prefix, app, from, to);
                    let ghost ars1 = app_rows(prefix1, app, from, to);
                    proof {
                        crate::seqs::lemma_filter_push(rr0, arow, app_pred(app));
                        assert(ars1 == ars0.push(arow));
                        crate::store::lemma_sum_durations_push(ars0, arow);
                        lemma_durs_nonneg_filter(rr1, app_pred(app));
                        crate::store::lemma_sum_durations_filter_le(rr1, app_pred(app));
                        rr1.lemma_filter_len(app_pred(app));
                        lemma_max_ts_push(ars0, arow);
                        lemma_session_ids_push(ars0, arow);
                        assert(session_ids(ars0).push(arow.session_id).drop_last() =~= session_ids(
                            ars0,
                        ));
                    }
                    let ghost e0 = entries@;
                    let mut e = AppAgg {
                        app_id: String::new(),
                        total: 0,
                        count: 0,
                        last: 0,
                        sessions: Vec::new(),
                    };
                    entries.set_and_swap(j, &mut e);
                    assert(e.total as int + d as int == sum_durations(ars1));
                    assert(sum_durations(ars1) <= i64::MAX);
                    e.total = e.total + d;
                    assert(e.count as int + 1 == ars1.len());
                    assert(ars1.len() <= rr1.len() <= prefix1.len() < i64::MAX);
                    e.count = e.count + 1;
                    if rows[i].timestamp > e.last {
                        e.last = rows[i].timestamp;
                    }
                    if !contains_i64(&e.sessions, rows[i].session_id) {
                        e.sessions.push(rows[i].session_id);
                    }
                    entries.set_and_swap(j, &mut e);
                    proof {
                        assert(entries@ =~= e0.update(j as int, entries@[j as int]));
                        lemma_sum_totals_update(e0, j as int, entries@[j as int]);
                    }
                    proof {
                        assert(entries@[j as int].app_id@ == app);
                        assert(agg_inv(prefix1, from, to, entries@[j as int]));
                        assert forall|k: int|
                            #![trigger rows@[k]]
                            0 <= k < i as int + 1 && from <= rows@[k].timestamp < to implies exists|
                            jj: int,
                        |
                            0 <= jj < entries@.len() && (#[trigger] entries@[jj].app_id)@
                                == rows@[k].app_id@ by {
                            if k < i as int {
                                let jj = choose|jj: int|
                                    0 <= jj < e0.len() && (#[trigger] e0[jj].app_id)@
                                        == rows@[k].app_id@;
                                assert(entries@[jj].app_id@ == rows@[k].app_id@);
                            } else {
                                assert(entries@[j as int].app_id@ == rows@[k].app_id@);
                            }
                        }
                        assert forall|k: int|
                            0 <= k < entries@.len() && k != j implies agg_inv(
                            prefix1,
                            from,
                            to,
                            #[trigger] entries@[k],
                        ) by {
                            crate::seqs::lemma_filter_push(
                                rr0,
                                arow,
                                app_pred(entries@[k].app_id@),
                            );
                            assert(app_rows(prefix1, entries@[k].app_id@, from, to) == app_rows(
                                prefix,
                                entries@[k].app_id@,
                                from,
                                to,
                            ));
                        }
                    }
                },
                None => {
                    proof {
                        crate::seqs::lemma_filter_push(rr0, arow, app_pred(arow.app_id@));
                        assert(app_rows(prefix, arow.app_id@, from, to).len() == 0) by {
                            let ars0 = app_rows(prefix, arow.app_id@, from, to);
                            if ars0.len() > 0 {
                                crate::seqs::lemma_filter_membership(rr0, app_pred(arow.app_id@));
                                let w = choose|w: int| 0 <= w < rr0.len() && rr0[w] == ars0[0];
                                crate::seqs::lemma_filter_membership(
                                    prefix,
                                    range_pred(from, to),
                                );
                                let v = choose|v: int|
                                    0 <= v < prefix.len() && prefix[v] == rr0[w];
                                assert(rows@[v] == prefix[v]);
                                assert(from <= rows@[v].timestamp < to);
                                assert(rows@[v].app_id@ == arow.app_id@);
                            }
                        }
                        assert(app_rows(prefix1, arow.app_id@, from, to) =~= Seq::<
                            WindowActivity,
                        >::empty().push(arow));
                        crate::store::lemma_sum_durations_push(
                            Seq::<WindowActivity>::empty(),
                            arow,
                        );
                        lemma_session_ids_push(Seq::<WindowActivity>::empty(), arow);
                        assert(session_ids(Seq::<WindowActivity>::empty()) =~= Seq::<
                            i64,
                        >::empty());
                        let s1 = Seq::<i64>::empty().push(arow.session_id);
                        assert(s1.drop_last() =~= Seq::<i64>::empty());
                        assert(dedup(Seq::<i64>::empty()) =~= Seq::<i64>::empty());
                        assert(!Seq::<i64>::empty().contains(arow.session_id));
                        assert(dedup(s1) =~= s1);
                    }
                    let mut sessions: Vec<i64> = Vec::new();
                    sessions.push(rows[i].session_id);
                    let e = AppAgg {
                        app_id: rows[i].app_id.clone(),
                        total: d,
                        count: 1,
                        last: rows[i].timestamp,
                        sessions,
                    };
                    proof {
                        lemma_sum_totals_push(entries@, e);
                    }
                    let ghost old_entries = entries@;
                    entries.push(e);
                    proof {
                        assert(entries@[entries@.len() - 1].app_id@ == arow.app_id@);
                        assert(agg_inv(prefix1, from, to, entries@[entries@.len() - 1]));
                        assert forall|k: int|
                            #![trigger rows@[k]]
                            0 <= k < i as int + 1 && from <= rows@[k].timestamp < to implies exists|
                            jj: int,
                        |
                            0 <= jj < entries@.len() && (#[trigger] entries@[jj].app_id)@
                                == rows@[k].app_id@ by {
                            if k < i as int {
                                let jj = choose|jj: int|
                                    0 <= jj < old_entries.len() && (
                                    #[trigger] old_entries[jj].app_id)@ == rows@[k].app_id@;
                                assert(entries@[jj].app_id@ == rows@[k].app_id@);
                            } else {
                                assert(entries@[entries@.len() - 1].app_id@ == rows@[k].app_id@);
                            }
                        }
                        assert forall|k: int|
                            0 <= k < entries@.len() - 1 implies agg_inv(
                            prefix1,
                            from,
                            to,
                            #[trigger] entries@[k],
                        ) by {
                            assert(entries@[k] == old_entries[k]);
                            crate::seqs::lemma_filter_push(
                                rr0,
                                arow,
                                app_pred(entries@[k].app_id@),
                            );
                            assert(app_rows(prefix1, entries@[k].app_id@, from, to) == app_rows(
                                prefix,
                                entries@[k].app_id@,
                                from,
                                to,
                            ));
                        }
                    }
                },
            }
        }
        i = i + 1;
    }
    proof {
        assert(rows@.subrange(0, rows@.len() as int) =~= rows@);
    }
    entries
}

/// The share of a range total, in hundredths of a percent, rounded down;
/// zero when the range total is zero.
pub open spec fn pct_of(tot: int, t: int) -> int {
    if t > 0 {
        tot * 10000 / t
    } else {
        0
    }
}

/// Sum of the percentage fields.
pub open spec fn sum_pcts(stats: Seq<AppStats>) -> int
    decreases stats.len(),
{
    if stats.len() == 0 {
        0
    } else {
        sum_pcts(stats.drop_last()) + stats.last().percentage as int
    }
}

/// Sum of the total-duration fields.
pub open spec fn sum_stat_tots(stats: Seq<AppStats>) -> int
    decreases stats.len(),
{
    if stats.len() == 0 {
        0
    } else {
        sum_stat_tots(stats.drop_last()) + stats.last().total_duration as int
    }
}

/// Every working total is bounded by the sum of all of them.
proof fn lemma_sum_totals_element_le(aggs: Seq<AppAgg>, k: int)
    requires
        0 <= k < aggs.len(),
        forall|j: int| 0 <= j < aggs.len() ==> (#[trigger] aggs[j]).total >= 0,
    ensures
        aggs[k].total as int <= sum_totals(aggs),
    decreases aggs.len(),
{
    if k == aggs.len() - 1 {
        lemma_sum_totals_nonneg(aggs.drop_last());
    } else {
        assert forall|j: int| 0 <= j < aggs.drop_last().len() implies (
        #[trigger] aggs.drop_last()[j]).total >= 0 by {
            assert(aggs.drop_last()[j] == aggs[j]);
        }
        lemma_sum_totals_element_le(aggs.drop_last(), k);
    }
}

proof fn lemma_sum_totals_nonneg(aggs: Seq<AppAgg>)
    requires
        forall|j: int| 0 <= j < aggs.len() ==> (#[trigger] aggs[j]).total >= 0,
    ensures
        sum_totals(aggs) >= 0,
    decreases aggs.len(),
{
    if aggs.len() > 0 {
        assert forall|j: int| 0 <= j < aggs.drop_last().len() implies (
        #[trigger] aggs.drop_last()[j]).total >= 0 by {
            assert(aggs.drop_last()[j] == aggs[j]);
        }
        lemma_sum_totals_nonneg(aggs.drop_last());
    }
}

/// Rounding each share down keeps the shares summing to at most the whole:
/// with a positive range total `t` and every entry's percentage the rounded
/// share of its total, the percentages sum to at most 100%.
pub proof fn lemma_pct_sum_bound(stats: Seq<AppStats>, t: int)
    requires
        t > 0,
        forall|i: int|
            0 <= i < stats.len() ==> (#[trigger] stats[i]).percentage as int == pct_of(
                stats[i].total_duration as int,
                t,
            ) && stats[i].total_duration >= 0,
        sum_stat_tots(stats) <= t,
    ensures
        sum_pcts(stats) <= 10000,
{
    lemma_pct_scaled_bound(stats, t);
    let p = sum_pcts(stats);
    assert(p * t <= sum_stat_tots(stats) * 10000);
    assert(sum_stat_tots(stats) * 10000 <= t * 10000) by (nonlinear_arith)
        requires
            sum_stat_tots(stats) <= t,
    ;
    assert(p <= 10000) by (nonlinear_arith)
        requires
            p * t <= t * 10000,
            t > 0,
    ;
}

/// Scaled form of the bound: the percentage sum times the total is at most
/// the duration sum times the full scale.
proof fn lemma_pct_scaled_bound(stats: Seq<AppStats>, t: int)
    requires
        t > 0,
        forall|i: int|
            0 <= i < stats.len() ==> (#[trigger] stats[i]).percentage as int == pct_of(
                stats[i].total_duration as int,
                t,
            ) && stats[i].total_duration >= 0,
    ensures
        sum_pcts(stats) * t <= sum_stat_tots(stats) * 10000,
    decreases stats.len(),
{
    if stats.len() == 0 {
    } else {
        let d = stats.drop_last();
        assert forall|i: int|
            0 <= i < d.len() implies (#[trigger] d[i]).percentage as int == pct_of(
            d[i].total_duration as int,
            t,
        ) && d[i].total_duration >= 0 by {
            assert(d[i] == stats[i]);
        }
        lemma_pct_scaled_bound(d, t);
        let tot = stats.last().total_duration as int;
        let p = stats.last().percentage as int;
        vstd::arithmetic::div_mod::lemma_fundamental_div_mod(tot * 10000, t);
        vstd::arithmetic::div_mod::lemma_remainder_lower(tot * 10000, t);
        assert(p == tot * 10000 / t);
        assert(t * (tot * 10000 / t) <= tot * 10000);
        assert(p * t <= tot * 10000) by (nonlinear_arith)
            requires
                t * p <= tot * 10000,
        ;
        assert((sum_pcts(d) + p) * t == sum_pcts(d) * t + p * t) by (nonlinear_arith);
    }
}

/// A rounded share of a part that is at most the whole is at most 100%.
proof fn lemma_pct_le_scale(tot: int, t: int)
    requires
        0 <= tot <= t,
        t > 0,
    ensures
        0 <= pct_of(tot, t) <= 10000,
{
    vstd::arithmetic::div_mod::lemma_div_pos_is_pos(tot * 10000, t);
    assert(tot * 10000 >= 0) by (nonlinear_arith)
        requires
            tot >= 0,
    ;
    assert(tot * 10000 <= t * 10000) by (nonlinear_arith)
        requires
            tot <= t,
    ;
    vstd::arithmetic::div_mod::lemma_div_is_ordered(tot * 10000, t * 10000, t);
    vstd::arithmetic::div_mod::lemma_div_multiples_vanish(10000, t);
    assert(t * 10000 == 10000 * t) by (nonlinear_arith);
}

/// The published statistic carrying the fields of a working aggregate, with
/// its percentage computed against the range total `t`.
spec fn stat_matches_agg(e: AppAgg, t: i64, s: AppStats) -> bool {
    &&& s.app_id@ == e.app_id@
    &&& s.total_duration == e.total
    &&& s.session_count as int == e.sessions@.len()
    &&& s.last_used == e.last
    &&& s.window_count == e.count
    &&& s.percentage as int == pct_of(e.total as int, t as int)
}

/// Turns working aggregates into published statistics, computing each
/// percentage as the entry's rounded share of the range total `t`.
fn finalize_stats(aggs: Vec<AppAgg>, t: i64) -> (r: Vec<AppStats>)
    requires
        t >= 0,
        forall|j: int| 0 <= j < aggs@.len() ==> 0 <= (#[trigger] aggs@[j]).total <= t,
        forall|j: int| 0 <= j < aggs@.len() ==> (#[trigger] aggs@[j]).sessions@.len() < i64::MAX,
    ensures
        r@.len() == aggs@.len(),
        forall|j: int|
            0 <= j < r@.len() ==> stat_matches_agg(aggs@[j], t, #[trigger] r@[j]),
{
    let ghost orig = aggs@;
    let mut aggs = aggs;
    let mut out: Vec<AppStats> = Vec::new();
    while aggs.len() > 0
        invariant
            t >= 0,
            out@.len() + aggs@.len() == orig.len(),
            aggs@ == orig.subrange(out@.len() as int, orig.len() as int),
            forall|j: int| 0 <= j < orig.len() ==> 0 <= (#[trigger] orig[j]).total <= t,
            forall|j: int|
                0 <= j < orig.len() ==> (#[trigger] orig[j]).sessions@.len() < i64::MAX,
            forall|j: int|
                0 <= j < out@.len() ==> stat_matches_agg(orig[j], t, #[trigger] out@[j]),
        decreases aggs@.len(),
    {
        let ghost k = out@.len() as int;
        let e = aggs.remove(0);
        proof {
            assert(e == orig[k]);
            assert(aggs@ =~= orig.subrange(k + 1, orig.len() as int));
        }
        let pct: i64 = if t > 0 {
            proof {
                lemma_pct_le_scale(e.total as int, t as int);
            }
            (((e.total as u128) * 10000) / (t as u128)) as i64
        } else {
            0
        };
        let sc = e.sessions.len();
        out.push(
            AppStats {
                app_id: e.app_id,
                total_duration: e.total,
                session_count: sc as i64,
                last_used: e.last,
                percentage: pct,
                window_count: e.count,
            },
        );
    }
    proof {
        assert(out@.len() == orig.len());
    }
    out
}

/// Removing an entry takes its contributions out of both sums.
proof fn lemma_stat_sums_remove(s: Seq<AppStats>, k: int)
    requires
        0 <= k < s.len(),
    ensures
        sum_stat_tots(s.remove(k)) == sum_stat_tots(s) - s[k].total_duration as int,
        sum_pcts(s.remove(k)) == sum_pcts(s) - s[k].percentage as int,
    decreases s.len(),
{
    if k == s.len() - 1 {
        assert(s.remove(k) =~= s.drop_last());
    } else {
        assert(s.remove(k).drop_last() =~= s.drop_last().remove(k));
        assert(s.remove(k).last() == s.last());
        lemma_stat_sums_remove(s.drop_last(), k);
    }
}

/// Reordering entries changes neither sum.
proof fn lemma_stat_sums_permutation(a: Seq<AppStats>, b: Seq<AppStats>)
    requires
        a.to_multiset() == b.to_multiset(),
    ensures
        sum_stat_tots(a) == sum_stat_tots(b),
        sum_pcts(a) == sum_pcts(b),
    decreases a.len(),
{
    broadcast use vstd::multiset::group_multiset_axioms;

    vstd::seq_lib::to_multiset_len(a);
    vstd::seq_lib::to_multiset_len(b);
    if a.len() > 0 {
        let x = a.last();
        vstd::seq_lib::to_multiset_contains(a, x);
        vstd::seq_lib::to_multiset_contains(b, x);
        assert(a.contains(x)) by {
            assert(a[a.len() - 1] == x);
        }
        assert(b.contains(x));
        let k = choose|k: int| 0 <= k < b.len() && b[k] == x;
        vstd::seq_lib::to_multiset_remove(a, a.len() - 1);
        vstd::seq_lib::to_multiset_remove(b, k);
        assert(a.remove(a.len() - 1) =~= a.drop_last());
        assert(a.drop_last().to_multiset() == b.remove(k).to_multiset());
        lemma_stat_sums_permutation(a.drop_last(), b.remove(k));
        lemma_stat_sums_remove(b, k);
    }
}

/// Sorts statistics by total duration, largest first, by insertion. Keeps
/// the entries themselves (as a multiset) and their pairwise-distinct apps.
fn sort_stats_desc(v: Vec<AppStats>) -> (r: Vec<AppStats>)
    requires
        forall|i: int, j: int|
            0 <= i < j < v@.len() ==> (#[trigger] v@[i].app_id)@ != (#[trigger] v@[j].app_id)@,
    ensures
        r@.len() == v@.len(),
        r@.to_multiset() == v@.to_multiset(),
        forall|i: int, j: int|
            0 <= i < j < r@.len() ==> (#[trigger] r@[i]).total_duration >= (
            #[trigger] r@[j]).total_duration,
        forall|i: int, j: int|
            0 <= i < j < r@.len() ==> (#[trigger] r@[i].app_id)@ != (#[trigger] r@[j].app_id)@,
{
    let ghost orig = v@;
    let mut v = v;
    let mut out: Vec<AppStats> = Vec::new();
    proof {
        broadcast use vstd::multiset::group_multiset_axioms;

        assert forall|a: AppStats|
            out@.to_multiset().add(v@.to_multiset()).count(a) == orig.to_multiset().count(
                a,
            ) by {
            vstd::seq_lib::to_multiset_contains(out@, a);
        }
        assert(out@.to_multiset().add(v@.to_multiset()) =~= orig.to_multiset());
    }
    while v.len() > 0
        invariant
            out@.len() + v@.len() == orig.len(),
            out@.to_multiset().add(v@.to_multiset()) == orig.to_multiset(),
            forall|i: int, j: int|
                0 <= i < j < out@.len() ==> (#[trigger] out@[i]).total_duration >= (
                #[trigger] out@[j]).total_duration,
            forall|i: int, j: int|
                0 <= i < j < out@.len() ==> (#[trigger] out@[i].app_id)@ != (
                #[trigger] out@[j].app_id)@,
            forall|i: int, j: int|
                0 <= i < out@.len() && 0 <= j < v@.len() ==> (#[trigger] out@[i].app_id)@ != (
                #[trigger] v@[j].app_id)@,
            forall|i: int, j: int|
                0 <= i < j < v@.len() ==> (#[trigger] v@[i].app_id)@ != (
                #[trigger] v@[j].app_id)@,
        decreases v@.len(),
    {
        let ghost vpre = v@;
        let x = v.remove(0);
        proof {
            broadcast use vstd::multiset::group_multiset_axioms;

            assert(x == vpre[0]);
            assert(vpre.remove(0) =~= v@);
            vstd::seq_lib::to_multiset_remove(vpre, 0);
            vstd::seq_lib::to_multiset_contains(vpre, x);
            assert(vpre.contains(x));
            assert(vpre.to_multiset().count(x) > 0);
            assert(vpre.to_multiset() =~= v@.to_multiset().insert(x));
        }
        // position of the first entry with a smaller total
        let mut pos: usize = 0;
        while pos < out.len() && out[pos].total_duration >= x.total_duration
            invariant
                0 <= pos <= out@.len(),
                forall|k: int|
                    0 <= k < pos ==> (#[trigger] out@[k]).total_duration >= x.total_duration,
            decreases out@.len() - pos,
        {
            pos = pos + 1;
        }
        let ghost opre = out@;
        out.insert(pos, x);
        proof {
            broadcast use vstd::multiset::group_multiset_axioms;

            vstd::seq_lib::to_multiset_insert(opre, pos as int, x);
            assert(out@.to_multiset().add(v@.to_multiset()) == orig.to_multiset()) by {
                assert(opre.to_multiset().insert(x).add(v@.to_multiset())
                    =~= opre.to_multiset().add(v@.to_multiset().insert(x)));
            }
            // ordering
            assert forall|i: int, j: int|
                0 <= i < j < out@.len() implies (#[trigger] out@[i]).total_duration >= (
            #[trigger] out@[j]).total_duration by {
                if j < pos {
                } else if i < pos && j == pos as int {
                    assert(out@[i] == opre[i]);
                } else if i == pos as int {
                    assert(out@[j] == opre[j - 1]);
                    assert((pos as int) < opre.len() ==> opre[pos as int].total_duration
                        < x.total_duration);
                    if j - 1 > pos as int {
                        assert(opre[j - 1].total_duration <= opre[pos as int].total_duration);
                    }
                } else if i < pos as int {
                    assert(out@[i] == opre[i]);
                    assert(out@[j] == opre[j - 1]);
                } else {
                    assert(out@[i] == opre[i - 1]);
                    assert(out@[j] == opre[j - 1]);
                }
            }
            // apps stay pairwise distinct within the sorted part
            assert forall|i: int, j: int|
                0 <= i < j < out@.len() implies (#[trigger] out@[i].app_id)@ != (
            #[trigger] out@[j].app_id)@ by {
                if i == pos as int {
                    assert(out@[j] == opre[j - 1]);
                } else if j == pos as int {
                    assert(out@[i] == opre[i]);
                } else {
                    let i0: int = if i < pos as int {
                        i
                    } else {
                        i - 1
                    };
                    let j0: int = if j < pos as int {
                        j
                    } else {
                        j - 1
                    };
                    assert(out@[i] == opre[i0]);
                    assert(out@[j] == opre[j0]);
                }
            }
            // apps of the sorted part stay distinct from the unsorted rest
            assert forall|i: int, j: int|
                0 <= i < out@.len() && 0 <= j < v@.len() implies (#[trigger] out@[i].app_id)@
                != (#[trigger] v@[j].app_id)@ by {
                assert(v@[j] == vpre[j + 1]);
                if i == pos as int {
                } else {
                    let i0: int = if i < pos as int {
                        i
                    } else {
                        i - 1
                    };
                    assert(out@[i] == opre[i0]);
                }
            }
            // the rest keeps pairwise-distinct apps
            assert forall|i: int, j: int|
                0 <= i < j < v@.len() implies (#[trigger] v@[i].app_id)@ != (
            #[trigger] v@[j].app_id)@ by {
                assert(v@[i] == vpre[i + 1]);
                assert(v@[j] == vpre[j + 1]);
            }
        }
    }
    proof {
        broadcast use vstd::multiset::group_multiset_axioms;

        assert forall|a: AppStats|
            out@.to_multiset().count(a) == orig.to_multiset().count(a) by {
            vstd::seq_lib::to_multiset_contains(v@, a);
            assert(!v@.contains(a));
        }
        assert(out@.to_multiset() =~= orig.to_multiset());
    }
    out
}

/// The range total: the summed duration of every row in `[from, to)`.
pub open spec fn range_total(rows: Seq<WindowActivity>, from: i64, to: i64) -> int {
    sum_durations(range_rows(rows, from, to))
}

/// What one published statistics entry says about the ledger rows: its app
/// occurs in the range, and every field is the corresponding aggregate of
/// exactly that app's rows there. The percentage is the app's dwell time as
/// a rounded share of the range total, in hundredths of a percent.
pub open spec fn stats_inv(
    rows: Seq<WindowActivity>,
    from: i64,
    to: i64,
    s: AppStats,
) -> bool {
    let ars = app_rows(rows, s.app_id@, from, to);
    &&& ars.len() > 0
    &&& s.total_duration as int == dwell(rows, s.app_id@, from, to)
    &&& s.total_duration >= 0
    &&& s.window_count as int == ars.len()
    &&& s.last_used as int == max_ts(ars)
    &&& s.session_count as int == dedup(session_ids(ars)).len()
    &&& s.percentage as int == pct_of(s.total_duration as int, range_total(rows, from, to))
}

/// A sum of zero percentages is zero.
proof fn lemma_sum_pcts_zero(stats: Seq<AppStats>)
    requires
        forall|i: int| 0 <= i < stats.len() ==> (#[trigger] stats[i]).percentage == 0,
    ensures
        sum_pcts(stats) == 0,
    decreases stats.len(),
{
    if stats.len() > 0 {
        assert forall|i: int|
            0 <= i < stats.drop_last().len() implies (
        #[trigger] stats.drop_last()[i]).percentage == 0 by {
            assert(stats.drop_last()[i] == stats[i]);
        }
        lemma_sum_pcts_zero(stats.drop_last());
    }
}

/// Matching entries sum to the same totals.
proof fn lemma_finalize_sums(aggs: Seq<AppAgg>, t: i64, stats: Seq<AppStats>)
    requires
        stats.len() == aggs.len(),
        forall|k: int| 0 <= k < aggs.len() ==> stat_matches_agg(aggs[k], t, #[trigger] stats[k]),
    ensures
        sum_stat_tots(stats) == sum_totals(aggs),
    decreases aggs.len(),
{
    if aggs.len() > 0 {
        assert forall|k: int|
            0 <= k < aggs.drop_last().len() implies stat_matches_agg(
            aggs.drop_last()[k],
            t,
            #[trigger] stats.drop_last()[k],
        ) by {
            assert(aggs.drop_last()[k] == aggs[k]);
            assert(stats.drop_last()[k] == stats[k]);
        }
        lemma_finalize_sums(aggs.drop_last(), t, stats.drop_last());
        assert(stat_matches_agg(aggs.last(), t, stats[aggs.len() - 1]));
    }
}

/// Everything a correct per-app statistics listing says of the ledger
/// rows: one entry per app with rows in the range, each entry the exact
/// aggregate of its app's rows, listed by total duration largest first,
/// with percentages that sum to at most 100% and are all zero when the
/// range total is zero.
pub open spec fn app_stats_ok(
    rows: Seq<WindowActivity>,
    from: i64,
    to: i64,
    stats: Seq<AppStats>,
) -> bool {
    &&& forall|i: int|
        0 <= i < stats.len() ==> stats_inv(rows, from, to, #[trigger] stats[i])
    &&& forall|i: int, j: int|
        0 <= i < j < stats.len() ==> (#[trigger] stats[i].app_id)@ != (
        #[trigger] stats[j].app_id)@
    &&& forall|i: int, j: int|
        0 <= i < j < stats.len() ==> (#[trigger] stats[i]).total_duration >= (
        #[trigger] stats[j]).total_duration
    &&& forall|i: int|
        #![trigger rows[i]]
        0 <= i < rows.len() && from <= rows[i].timestamp < to ==> exists|j: int|
            0 <= j < stats.len() && (#[trigger] stats[j].app_id)@ == rows[i].app_id@
    &&& sum_pcts(stats) <= 10000
    &&& (range_total(rows, from, to) == 0 ==> forall|i: int|
        0 <= i < stats.len() ==> (#[trigger] stats[i]).percentage == 0)
}

impl crate::store::Store {
    /// The ledger never holds `i64::MAX` or more activity rows: row ids are
    /// strictly increasing and bounded by the id counter.
    pub proof fn lemma_activities_len_bound(self)
        requires
            self.wf(),
        ensures
            self.activities@.len() < i64::MAX,
    {
        let rows = self.activities@;
        if rows.len() > 0 {
            let key = |a: WindowActivity| a.id as int;
            crate::seqs::lemma_increasing_key_lower(rows, key, rows.len() - 1);
            assert(key(rows[0]) >= 1);
            assert(key(rows[rows.len() - 1]) < self.next_id as int);
        }
    }

    /// Per-app statistics over `[from, to)`: one entry per app that has rows
    /// there, listed by total duration, largest first. Fails if and only if
    /// the range is reversed. The percentages of one result sum to at most
    /// 100%, and are all zero when the range total is zero.
    pub fn get_app_stats(&self, from: i64, to: i64) -> (r: Result<Vec<AppStats>, AppError>)
        requires
            self.wf(),
        ensures
            match r {
                Ok(stats) => from <= to && app_stats_ok(self.activities@, from, to, stats@),
                Err(e) => {
                    &&& from > to
                    &&& e matches AppError::InvalidInput(_)
                },
            },
    {
        if from > to {
            return Err(AppError::InvalidInput(String::from_str("reversed time range")));
        }
        let ghost rows = self.activities@;
        proof {
            self.lemma_activities_len_bound();
        }
        let aggs = accumulate_app_aggs(&self.activities, from, to);

        // the range total, against the same snapshot
        let mut t: i64 = 0;
        let mut k: usize = 0;
        proof {
            assert(rows.subrange(0, 0) =~= Seq::<WindowActivity>::empty());
            reveal(Seq::filter);
        }
        while k < self.activities.len()
            invariant
                self.wf(),
                rows == self.activities@,
                0 <= k <= rows.len(),
                t >= 0,
                t as int == sum_durations(range_rows(rows.subrange(0, k as int), from, to)),
            decreases rows.len() - k,
        {
            let ghost prefix = rows.subrange(0, k as int);
            let ghost prefix1 = rows.subrange(0, k as int + 1);
            let ghost arow = rows[k as int];
            proof {
                assert(prefix1 =~= prefix.push(arow));
                crate::seqs::lemma_filter_push(prefix, arow, range_pred(from, to));
            }
            if from <= self.activities[k].timestamp && self.activities[k].timestamp < to {
                let d: i64 = match self.activities[k].duration {
                    Some(x) => x,
                    None => 0,
                };
                proof {
                    crate::store::lemma_sum_durations_push(
                        range_rows(prefix, from, to),
                        arow,
                    );
                    assert forall|w: int| 0 <= w < prefix1.len() implies dur_of(
                        #[trigger] prefix1[w],
                    ) >= 0 by {
                        assert(prefix1[w] == rows[w]);
                    }
                    lemma_durs_nonneg_filter(prefix1, range_pred(from, to));
                    crate::store::lemma_sum_durations_filter_le(prefix1, range_pred(from, to));
                    crate::store::lemma_sum_durations_prefix_le(rows, k as int + 1);
                }
                t = t + d;
            }
            k = k + 1;
        }
        proof {
            assert(rows.subrange(0, rows.len() as int) =~= rows);
            assert(t as int == range_total(rows, from, to));
            assert(t as int == sum_totals(aggs@));
        }

        // the working totals are non-negative and bounded by the range total
        proof {
            assert forall|j: int| 0 <= j < aggs@.len() implies 0 <= (#[trigger] aggs@[j]).total
                <= t by {
                assert(agg_inv(rows, from, to, aggs@[j]));
                assert forall|w: int| 0 <= w < aggs@.len() implies (
                #[trigger] aggs@[w]).total >= 0 by {
                    assert(agg_inv(rows, from, to, aggs@[w]));
                }
                lemma_sum_totals_element_le(aggs@, j);
            }
            assert forall|j: int| 0 <= j < aggs@.len() implies (
            #[trigger] aggs@[j]).sessions@.len() < i64::MAX by {
                assert(agg_inv(rows, from, to, aggs@[j]));
                let ars = app_rows(rows, aggs@[j].app_id@, from, to);
                lemma_dedup_len(session_ids(ars));
                assert(session_ids(ars).len() == ars.len());
                range_rows(rows, from, to).lemma_filter_len(app_pred(aggs@[j].app_id@));
                rows.lemma_filter_len(range_pred(from, to));
            }
        }
        let ghost gaggs = aggs@;
        let stats0 = finalize_stats(aggs, t);
        proof {
            assert forall|i: int, j: int|
                0 <= i < j < stats0@.len() implies (#[trigger] stats0@[i].app_id)@ != (
            #[trigger] stats0@[j].app_id)@ by {
                assert(stat_matches_agg(gaggs[i], t, stats0@[i]));
                assert(stat_matches_agg(gaggs[j], t, stats0@[j]));
            }
        }
        let stats = sort_stats_desc(stats0);
        proof {
            broadcast use vstd::multiset::group_multiset_axioms;

            // every sorted entry is one of the finalized entries
            assert forall|i: int| 0 <= i < stats@.len() implies stats_inv(
                rows,
                from,
                to,
                #[trigger] stats@[i],
            ) && (#[trigger] stats@[i]).percentage as int == pct_of(
                stats@[i].total_duration as int,
                t as int,
            ) by {
                vstd::seq_lib::to_multiset_contains(stats@, stats@[i]);
                assert(stats@.contains(stats@[i]));
                vstd::seq_lib::to_multiset_contains(stats0@, stats@[i]);
                assert(stats0@.contains(stats@[i]));
                let j = choose|j: int| 0 <= j < stats0@.len() && stats0@[j] == stats@[i];
                assert(stat_matches_agg(gaggs[j], t, stats0@[j]));
                assert(agg_inv(rows, from, to, gaggs[j]));
            }
            // completeness: every in-range row's app has an entry
            assert forall|i: int|
                #![trigger rows[i]]
                0 <= i < rows.len() && from <= rows[i].timestamp < to implies exists|j: int|
                0 <= j < stats@.len() && (#[trigger] stats@[j].app_id)@ == rows[i].app_id@ by {
                let jj = choose|jj: int|
                    0 <= jj < gaggs.len() && (#[trigger] gaggs[jj].app_id)@ == rows[i].app_id@;
                assert(stat_matches_agg(gaggs[jj], t, stats0@[jj]));
                vstd::seq_lib::to_multiset_contains(stats0@, stats0@[jj]);
                assert(stats0@.contains(stats0@[jj]));
                vstd::seq_lib::to_multiset_contains(stats@, stats0@[jj]);
                assert(stats@.contains(stats0@[jj]));
                let w = choose|w: int| 0 <= w < stats@.len() && stats@[w] == stats0@[jj];
                assert(stats@[w].app_id@ == rows[i].app_id@);
            }
            // the percentages sum to at most 100%
            lemma_finalize_sums(gaggs, t, stats0@);
            lemma_stat_sums_permutation(stats0@, stats@);
            if t > 0 {
                lemma_pct_sum_bound(stats@, t as int);
            } else {
                lemma_sum_pcts_zero(stats@);
            }
            assert(app_stats_ok(rows, from, to, stats@));
        }
        Ok(stats)
    }
}

} // verus!

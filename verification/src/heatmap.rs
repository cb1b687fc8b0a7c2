//! Calendar heatmaps: bucketed counts and duration sums of the ledger rows
//! in a half-open range, at three granularities — day-of-week x hour,
//! day-of-month x hour, and day-of-year x hour. Buckets within one
//! granularity are disjoint and their durations sum to the range total.

use vstd::pervasive::VecAdditionalExecFns;
use vstd::prelude::*;

use crate::aggregate::{range_pred, range_rows, range_total};
use crate::error::AppError;
use crate::store::{dur_of, sum_durations, WindowActivity};
use crate::time::{civil_day_of, civil_of, day_of_year_of, hour_of, valid_ts, weekday_of};

verus! {

/// One bucket of the day-of-week x hour heatmap.
#[derive(Debug, Clone, Copy, PartialEq, Eq, Structural)]
pub struct ActivityHeatmapData {
    pub day_of_week: i64,
    pub hour_of_day: i64,
    pub activity_count: i64,
    pub total_duration: i64,
}

/// One bucket of the day-of-month x hour heatmap.
#[derive(Debug, Clone, PartialEq, Eq, Structural)]
pub struct ActivityHeatmapMonthData {
    pub day_of_month: i64,
    pub hour_of_day: i64,
    pub activity_count: i64,
    pub total_duration: i64,
}

/// One bucket of the day-of-year x hour heatmap.
#[derive(Debug, Clone, PartialEq, Eq, Structural)]
pub struct ActivityHeatmapYearData {
    pub day_of_year: i64,
    pub hour_of_day: i64,
    pub activity_count: i64,
    pub total_duration: i64,
}

/// The two bucket coordinates and the duration of one in-range row.
pub open spec fn keyed_pred(k1: i64, k2: i64) -> spec_fn((i64, i64, i64)) -> bool {
    |p: (i64, i64, i64)| p.0 == k1 && p.1 == k2
}

/// The keyed rows of one bucket.
pub open spec fn key_rows(pairs: Seq<(i64, i64, i64)>, k1: i64, k2: i64) -> Seq<
    (i64, i64, i64),
> {
    pairs.filter(keyed_pred(k1, k2))
}

/// Sum of the duration components.
pub open spec fn sum_vals(pairs: Seq<(i64, i64, i64)>) -> int
    decreases pairs.len(),
{
    if pairs.len() == 0 {
        0
    } else {
        sum_vals(pairs.drop_last()) + pairs.last().2 as int
    }
}

proof fn lemma_sum_vals_push(pairs: Seq<(i64, i64, i64)>, p: (i64, i64, i64))
    ensures
        sum_vals(pairs.push(p)) == sum_vals(pairs) + p.2 as int,
{
    assert(pairs.push(p).drop_last() =~= pairs);
}

proof fn lemma_sum_vals_filter_le(pairs: Seq<(i64, i64, i64)>, pred: spec_fn((i64, i64, i64)) -> bool)
    requires
        forall|n: int| 0 <= n < pairs.len() ==> (#[trigger] pairs[n]).2 >= 0,
    ensures
        sum_vals(pairs.filter(pred)) <= sum_vals(pairs),
    decreases pairs.len(),
{
    reveal(Seq::filter);
    if pairs.len() > 0 {
        assert forall|n: int| 0 <= n < pairs.drop_last().len() implies (
        #[trigger] pairs.drop_last()[n]).2 >= 0 by {
            assert(pairs.drop_last()[n] == pairs[n]);
        }
        lemma_sum_vals_filter_le(pairs.drop_last(), pred);
        if pred(pairs.last()) {
            lemma_sum_vals_push(pairs.drop_last().filter(pred), pairs.last());
        }
    }
}

/// One bucket entry of the keyed grouping: coordinates, row count, sum.
struct KeyAgg {
    k1: i64,
    k2: i64,
    count: i64,
    total: i64,
}

spec fn sum_bucket_totals(aggs: Seq<KeyAgg>) -> int
    decreases aggs.len(),
{
    if aggs.len() == 0 {
        0
    } else {
        sum_bucket_totals(aggs.drop_last()) + aggs.last().total as int
    }
}

proof fn lemma_sum_bucket_totals_push(aggs: Seq<KeyAgg>, e: KeyAgg)
    ensures
        sum_bucket_totals(aggs.push(e)) == sum_bucket_totals(aggs) + e.total as int,
{
    assert(aggs.push(e).drop_last() =~= aggs);
}

proof fn lemma_sum_bucket_totals_update(aggs: Seq<KeyAgg>, j: int, e: KeyAgg)
    requires
        0 <= j < aggs.len(),
    ensures
        sum_bucket_totals(aggs.update(j, e)) == sum_bucket_totals(aggs) - aggs[j].total as int
            + e.total as int,
    decreases aggs.len(),
{
    let upd = aggs.update(j, e);
    if j == aggs.len() - 1 {
        assert(upd.drop_last() =~= aggs.drop_last());
        assert(upd.last() == e);
    } else {
        assert(upd.drop_last() =~= aggs.drop_last().update(j, e));
        assert(upd.last() == aggs.last());
        lemma_sum_bucket_totals_update(aggs.drop_last(), j, e);
    }
}

/// The fields of one bucket describe exactly its keyed rows.
spec fn key_agg_inv(pairs: Seq<(i64, i64, i64)>, e: KeyAgg) -> bool {
    let krs = key_rows(pairs, e.k1, e.k2);
    &&& krs.len() > 0
    &&& e.count as int == krs.len()
    &&& e.total as int == sum_vals(krs)
    &&& e.total >= 0
}

fn find_key(entries: &Vec<KeyAgg>, k1: i64, k2: i64) -> (r: Option<usize>)
    ensures
        match r {
            Some(j) => 0 <= j < entries@.len() && entries@[j as int].k1 == k1
                && entries@[j as int].k2 == k2,
            None => forall|j: int|
                0 <= j < entries@.len() ==> !((#[trigger] entries@[j]).k1 == k1 && entries@[j].k2
                    == k2),
        },
{
    let mut j: usize = 0;
    while j < entries.len()
        invariant
            0 <= j <= entries@.len(),
            forall|w: int|
                0 <= w < j ==> !((#[trigger] entries@[w]).k1 == k1 && entries@[w].k2 == k2),
        decreases entries@.len() - j,
    {
        if entries[j].k1 == k1 && entries[j].k2 == k2 {
            return Some(j);
        }
        j = j + 1;
    }
    None
}

/// Groups keyed rows by their coordinates: one bucket per distinct pair,
/// counting rows and summing durations. The bucket totals sum to the total
/// of all keyed rows.
fn group_keyed(pairs: &Vec<(i64, i64, i64)>) -> (r: Vec<KeyAgg>)
    requires
        forall|n: int| 0 <= n < pairs@.len() ==> (#[trigger] pairs@[n]).2 >= 0,
        sum_vals(pairs@) <= i64::MAX,
        pairs@.len() < i64::MAX,
    ensures
        forall|j1: int, j2: int|
            0 <= j1 < j2 < r@.len() ==> !((#[trigger] r@[j1]).k1 == (#[trigger] r@[j2]).k1
                && r@[j1].k2 == r@[j2].k2),
        forall|j: int| 0 <= j < r@.len() ==> key_agg_inv(pairs@, #[trigger] r@[j]),
        forall|n: int|
            #![trigger pairs@[n]]
            0 <= n < pairs@.len() ==> exists|j: int|
                0 <= j < r@.len() && (#[trigger] r@[j]).k1 == pairs@[n].0 && r@[j].k2
                    == pairs@[n].1,
        sum_bucket_totals(r@) == sum_vals(pairs@),
{
    let mut entries: Vec<KeyAgg> = Vec::new();
    let mut i: usize = 0;
    proof {
        assert(pairs@.subrange(0, 0) =~= Seq::<(i64, i64, i64)>::empty());
        reveal(Seq::filter);
    }
    while i < pairs.len()
        invariant
            0 <= i <= pairs@.len(),
            forall|n: int| 0 <= n < pairs@.len() ==> (#[trigger] pairs@[n]).2 >= 0,
            sum_vals(pairs@) <= i64::MAX,
            pairs@.len() < i64::MAX,
            forall|j1: int, j2: int|
                0 <= j1 < j2 < entries@.len() ==> !((#[trigger] entries@[j1]).k1 == (
                #[trigger] entries@[j2]).k1 && entries@[j1].k2 == entries@[j2].k2),
            forall|j: int|
                0 <= j < entries@.len() ==> key_agg_inv(
                    pairs@.subrange(0, i as int),
                    #[trigger] entries@[j],
                ),
            forall|n: int|
                #![trigger pairs@[n]]
                0 <= n < i ==> exists|j: int|
                    0 <= j < entries@.len() && (#[trigger] entries@[j]).k1 == pairs@[n].0
                        && entries@[j].k2 == pairs@[n].1,
            sum_bucket_totals(entries@) == sum_vals(pairs@.subrange(0, i as int)),
        decreases pairs@.len() - i,
    {
        let ghost prefix = pairs@.subrange(0, i as int);
        let ghost prefix1 = pairs@.subrange(0, i as int + 1);
        let ghost p = pairs@[i as int];
        let (k1, k2, d) = (pairs[i].0, pairs[i].1, pairs[i].2);
        proof {
            assert(prefix1 =~= prefix.push(p));
            lemma_sum_vals_push(prefix, p);
            assert forall|n: int| 0 <= n < prefix1.len() implies (#[trigger] prefix1[n]).2
                >= 0 by {
                assert(prefix1[n] == pairs@[n]);
            }
        }
        proof {
            // the new row's duration keeps all bucket sums within bounds
            assert(sum_vals(prefix1) <= sum_vals(pairs@)) by {
                lemma_sum_vals_suffix_le(pairs@, i as int + 1);
            }
        }
        match find_key(&entries, k1, k2) {
            Some(j) => {
                let ghost krs0 = key_rows(prefix, k1, k2);
                let ghost krs1 = key_rows(prefix1, k1, k2);
                proof {
                    crate::seqs::lemma_filter_push(prefix, p, keyed_pred(k1, k2));
                    assert(krs1 == krs0.push(p));
                    lemma_sum_vals_push(krs0, p);
                    lemma_sum_vals_filter_le(prefix1, keyed_pred(k1, k2));
                    prefix1.lemma_filter_len(keyed_pred(k1, k2));
                }
                let e0 = KeyAgg {
                    k1,
                    k2,
                    count: entries[j].count + 1,
                    total: entries[j].total + d,
                };
                let ghost epre = entries@;
                entries.set(j, e0);
                proof {
                    lemma_sum_bucket_totals_update(epre, j as int, entries@[j as int]);
                    assert(key_agg_inv(prefix1, entries@[j as int]));
                    assert forall|w: int|
                        0 <= w < entries@.len() && w != j implies key_agg_inv(
                        prefix1,
                        #[trigger] entries@[w],
                    ) by {
                        assert(entries@[w] == epre[w]);
                        crate::seqs::lemma_filter_push(
                            prefix,
                            p,
                            keyed_pred(entries@[w].k1, entries@[w].k2),
                        );
                    }
                    assert forall|n: int|
                        #![trigger pairs@[n]]
                        0 <= n < i as int + 1 implies exists|w: int|
                        0 <= w < entries@.len() && (#[trigger] entries@[w]).k1 == pairs@[n].0
                            && entries@[w].k2 == pairs@[n].1 by {
                        if n < i as int {
                            let w = choose|w: int|
                                0 <= w < epre.len() && (#[trigger] epre[w]).k1 == pairs@[n].0
                                    && epre[w].k2 == pairs@[n].1;
                            assert(entries@[w].k1 == pairs@[n].0 && entries@[w].k2
                                == pairs@[n].1);
                        } else {
                            assert(entries@[j as int].k1 == pairs@[n].0 && entries@[j as int].k2
                                == pairs@[n].1);
                        }
                    }
                }
            },
            None => {
                proof {
                    crate::seqs::lemma_filter_push(prefix, p, keyed_pred(k1, k2));
                    assert(key_rows(prefix, k1, k2).len() == 0) by {
                        let krs = key_rows(prefix, k1, k2);
                        if krs.len() > 0 {
                            crate::seqs::lemma_filter_membership(prefix, keyed_pred(k1, k2));
                            let v = choose|v: int| 0 <= v < prefix.len() && prefix[v] == krs[0];
                            assert(pairs@[v] == prefix[v]);
                        }
                    }
                    assert(key_rows(prefix1, k1, k2) =~= Seq::<(i64, i64, i64)>::empty().push(
                        p,
                    ));
                    lemma_sum_vals_push(Seq::<(i64, i64, i64)>::empty(), p);
                }
                let e = KeyAgg { k1, k2, count: 1, total: d };
                proof {
                    lemma_sum_bucket_totals_push(entries@, e);
                }
                let ghost epre = entries@;
                entries.push(e);
                proof {
                    assert(key_agg_inv(prefix1, entries@[entries@.len() - 1]));
                    assert forall|w: int|
                        0 <= w < entries@.len() - 1 implies key_agg_inv(
                        prefix1,
                        #[trigger] entries@[w],
                    ) by {
                        assert(entries@[w] == epre[w]);
                        crate::seqs::lemma_filter_push(
                            prefix,
                            p,
                            keyed_pred(entries@[w].k1, entries@[w].k2),
                        );
                    }
                    assert forall|n: int|
                        #![trigger pairs@[n]]
                        0 <= n < i as int + 1 implies exists|w: int|
                        0 <= w < entries@.len() && (#[trigger] entries@[w]).k1 == pairs@[n].0
                            && entries@[w].k2 == pairs@[n].1 by {
                        if n < i as int {
                            let w = choose|w: int|
                                0 <= w < epre.len() && (#[trigger] epre[w]).k1 == pairs@[n].0
                                    && epre[w].k2 == pairs@[n].1;
                            assert(entries@[w].k1 == pairs@[n].0 && entries@[w].k2
                                == pairs@[n].1);
                        } else {
                            assert(entries@[entries@.len() - 1].k1 == pairs@[n].0
                                && entries@[entries@.len() - 1].k2 == pairs@[n].1);
                        }
                    }
                }
            },
        }
        i = i + 1;
    }
    proof {
        assert(pairs@.subrange(0, pairs@.len() as int) =~= pairs@);
    }
    entries
}

/// A prefix of non-negative values sums to no more than the whole.
proof fn lemma_sum_vals_suffix_le(pairs: Seq<(i64, i64, i64)>, k: int)
    requires
        forall|n: int| 0 <= n < pairs.len() ==> (#[trigger] pairs[n]).2 >= 0,
        0 <= k <= pairs.len(),
    ensures
        sum_vals(pairs.subrange(0, k)) <= sum_vals(pairs),
    decreases pairs.len() - k,
{
    if k == pairs.len() {
        assert(pairs.subrange(0, k) =~= pairs);
    } else {
        lemma_sum_vals_suffix_le(pairs, k + 1);
        assert(pairs.subrange(0, k + 1).drop_last() =~= pairs.subrange(0, k));
        assert(pairs.subrange(0, k + 1).last() == pairs[k]);
    }
}

/// Rows and their keyed images are filtered in lockstep: matching
/// predicates select rows at the same positions, so count and sum agree.
proof fn lemma_parallel_filter(
    rr: Seq<WindowActivity>,
    pairs: Seq<(i64, i64, i64)>,
    bp: spec_fn(WindowActivity) -> bool,
    kp: spec_fn((i64, i64, i64)) -> bool,
)
    requires
        pairs.len() == rr.len(),
        forall|n: int| 0 <= n < rr.len() ==> (#[trigger] pairs[n]).2 as int == dur_of(rr[n]),
        forall|n: int| 0 <= n < rr.len() ==> (bp(#[trigger] rr[n]) <==> kp(pairs[n])),
    ensures
        pairs.filter(kp).len() == rr.filter(bp).len(),
        sum_vals(pairs.filter(kp)) == sum_durations(rr.filter(bp)),
    decreases rr.len(),
{
    reveal(Seq::filter);
    if rr.len() > 0 {
        assert forall|n: int| 0 <= n < rr.drop_last().len() implies (
        #[trigger] pairs.drop_last()[n]).2 as int == dur_of(rr.drop_last()[n]) && (bp(
            rr.drop_last()[n],
        ) <==> kp(pairs.drop_last()[n])) by {
            assert(pairs.drop_last()[n] == pairs[n]);
            assert(rr.drop_last()[n] == rr[n]);
        }
        lemma_parallel_filter(rr.drop_last(), pairs.drop_last(), bp, kp);
        assert(bp(rr.last()) <==> kp(pairs.last())) by {
            assert(rr[rr.len() - 1] == rr.last());
        }
        if bp(rr.last()) {
            lemma_sum_vals_push(pairs.drop_last().filter(kp), pairs.last());
            crate::store::lemma_sum_durations_push(rr.drop_last().filter(bp), rr.last());
            assert(pairs.last().2 as int == dur_of(rr.last())) by {
                assert(pairs[pairs.len() - 1] == pairs.last());
            }
        }
    }
}

/// Parallel sequences sum alike.
proof fn lemma_parallel_sum(rr: Seq<WindowActivity>, pairs: Seq<(i64, i64, i64)>)
    requires
        pairs.len() == rr.len(),
        forall|n: int| 0 <= n < rr.len() ==> (#[trigger] pairs[n]).2 as int == dur_of(rr[n]),
    ensures
        sum_vals(pairs) == sum_durations(rr),
    decreases rr.len(),
{
    if rr.len() > 0 {
        assert forall|n: int| 0 <= n < rr.drop_last().len() implies (
        #[trigger] pairs.drop_last()[n]).2 as int == dur_of(rr.drop_last()[n]) by {
            assert(pairs.drop_last()[n] == pairs[n]);
            assert(rr.drop_last()[n] == rr[n]);
        }
        lemma_parallel_sum(rr.drop_last(), pairs.drop_last());
        assert(pairs[pairs.len() - 1] == pairs.last());
        assert(rr[rr.len() - 1] == rr.last());
    }
}

/// The bucket predicate of the day-of-week x hour granularity.
pub open spec fn week_pred(dow: i64, h: i64) -> spec_fn(WindowActivity) -> bool {
    |a: WindowActivity| weekday_of(a.timestamp as int) == dow as int && hour_of(
        a.timestamp as int,
    ) == h as int
}

/// The rows of one day-of-week x hour bucket within the range.
pub open spec fn week_bucket_rows(
    rows: Seq<WindowActivity>,
    from: i64,
    to: i64,
    dow: i64,
    h: i64,
) -> Seq<WindowActivity> {
    range_rows(rows, from, to).filter(week_pred(dow, h))
}

/// The bucket predicate of the day-of-month x hour granularity.
pub open spec fn month_pred(dom: i64, h: i64) -> spec_fn(WindowActivity) -> bool {
    |a: WindowActivity| civil_of(a.timestamp as int).2 == dom as int && hour_of(
        a.timestamp as int,
    ) == h as int
}

/// The rows of one day-of-month x hour bucket within the range.
pub open spec fn month_bucket_rows(
    rows: Seq<WindowActivity>,
    from: i64,
    to: i64,
    dom: i64,
    h: i64,
) -> Seq<WindowActivity> {
    range_rows(rows, from, to).filter(month_pred(dom, h))
}

/// The bucket predicate of the day-of-year x hour granularity.
pub open spec fn year_pred(doy: i64, h: i64) -> spec_fn(WindowActivity) -> bool {
    |a: WindowActivity| civil_of(a.timestamp as int).3 == doy as int && hour_of(
        a.timestamp as int,
    ) == h as int
}

/// The rows of one day-of-year x hour bucket within the range.
pub open spec fn year_bucket_rows(
    rows: Seq<WindowActivity>,
    from: i64,
    to: i64,
    doy: i64,
    h: i64,
) -> Seq<WindowActivity> {
    range_rows(rows, from, to).filter(year_pred(doy, h))
}

/// Sum of the week-bucket durations.
pub open spec fn sum_week_totals(hm: Seq<ActivityHeatmapData>) -> int
    decreases hm.len(),
{
    if hm.len() == 0 {
        0
    } else {
        sum_week_totals(hm.drop_last()) + hm.last().total_duration as int
    }
}

/// Sum of the month-bucket durations.
pub open spec fn sum_month_totals(hm: Seq<ActivityHeatmapMonthData>) -> int
    decreases hm.len(),
{
    if hm.len() == 0 {
        0
    } else {
        sum_month_totals(hm.drop_last()) + hm.last().total_duration as int
    }
}

/// Sum of the year-bucket durations.
pub open spec fn sum_year_totals(hm: Seq<ActivityHeatmapYearData>) -> int
    decreases hm.len(),
{
    if hm.len() == 0 {
        0
    } else {
        sum_year_totals(hm.drop_last()) + hm.last().total_duration as int
    }
}

/// A keyed image of one row under the week granularity.
pub open spec fn week_rel(a: WindowActivity, p: (i64, i64, i64)) -> bool {
    &&& p.0 as int == weekday_of(a.timestamp as int)
    &&& p.1 as int == hour_of(a.timestamp as int)
    &&& p.2 as int == dur_of(a)
}

proof fn lemma_week_heat_sums(entries: Seq<KeyAgg>, hm: Seq<ActivityHeatmapData>)
    requires
        hm.len() == entries.len(),
        forall|j: int|
            0 <= j < entries.len() ==> (#[trigger] hm[j]).total_duration == entries[j].total,
    ensures
        sum_week_totals(hm) == sum_bucket_totals(entries),
    decreases entries.len(),
{
    if entries.len() > 0 {
        assert forall|j: int|
            0 <= j < entries.drop_last().len() implies (
        #[trigger] hm.drop_last()[j]).total_duration == entries.drop_last()[j].total by {
            assert(hm.drop_last()[j] == hm[j]);
            assert(entries.drop_last()[j] == entries[j]);
        }
        lemma_week_heat_sums(entries.drop_last(), hm.drop_last());
        assert(hm[hm.len() - 1] == hm.last());
    }
}

/// Everything a correct week heatmap says of the ledger rows: buckets are
/// pairwise disjoint, each bucket counts and sums exactly its rows, every
/// in-range row falls in some bucket, and the bucket durations sum to the
/// range total. The order of the buckets is left unspecified; callers that
/// display them sort by their own criterion.
pub open spec fn week_heatmap_ok(
    rows: Seq<WindowActivity>,
    from: i64,
    to: i64,
    hm: Seq<ActivityHeatmapData>,
) -> bool {
    &&& forall|j1: int, j2: int|
        0 <= j1 < j2 < hm.len() ==> !((#[trigger] hm[j1]).day_of_week == (
        #[trigger] hm[j2]).day_of_week && hm[j1].hour_of_day == hm[j2].hour_of_day)
    &&& forall|j: int|
        0 <= j < hm.len() ==> {
            let e = #[trigger] hm[j];
            let brs = week_bucket_rows(rows, from, to, e.day_of_week, e.hour_of_day);
            &&& brs.len() > 0
            &&& e.activity_count as int == brs.len()
            &&& e.total_duration as int == sum_durations(brs)
        }
    &&& forall|i: int|
        #![trigger rows[i]]
        0 <= i < rows.len() && from <= rows[i].timestamp < to ==> exists|j: int|
            0 <= j < hm.len() && (#[trigger] hm[j]).day_of_week as int == weekday_of(
                rows[i].timestamp as int,
            ) && hm[j].hour_of_day as int == hour_of(rows[i].timestamp as int)
    &&& sum_week_totals(hm) == range_total(rows, from, to)
}

impl crate::store::Store {
    /// The day-of-week x hour heatmap of `[from, to)`: one bucket per
    /// distinct pair, counting its rows and summing their durations; the
    /// bucket durations sum to the range total. Buckets come in the order
    /// their first row appears; no order is promised. Fails if and only if
    /// the range is reversed.
    #[verifier::rlimit(60)]
    pub fn get_activity_heatmap(&self, from: i64, to: i64) -> (r: Result<
        Vec<ActivityHeatmapData>,
        AppError,
    >)
        requires
            self.wf(),
        ensures
            match r {
                Ok(hm) => from <= to && week_heatmap_ok(self.activities@, from, to, hm@),
                Err(e) => {
                    &&& from > to
                    &&& e matches AppError::InvalidInput(_)
                },
            },
    {
        if from > to {
            return Err(AppError::InvalidInput(String::from_str("reversed time range")));
        }
        let ghost rows = self.activities@;
        let mut pairs: Vec<(i64, i64, i64)> = Vec::new();
        let mut k: usize = 0;
        proof {
            assert(rows.subrange(0, 0) =~= Seq::<WindowActivity>::empty());
            reveal(Seq::filter);
        }
        while k < self.activities.len()
            invariant
                self.wf(),
                rows == self.activities@,
                0 <= k <= rows.len(),
                pairs@.len() == range_rows(rows.subrange(0, k as int), from, to).len(),
                forall|n: int|
                    0 <= n < pairs@.len() ==> week_rel(
                        range_rows(rows.subrange(0, k as int), from, to)[n],
                        #[trigger] pairs@[n],
                    ),
            decreases rows.len() - k,
        {
            let ghost prefix = rows.subrange(0, k as int);
            let ghost prefix1 = rows.subrange(0, k as int + 1);
            let ghost arow = rows[k as int];
            proof {
                assert(prefix1 =~= prefix.push(arow));
                crate::seqs::lemma_filter_push(prefix, arow, range_pred(from, to));
                assert(valid_ts(self.activities@[k as int].timestamp as int));
            }
            let ts = self.activities[k].timestamp;
            if from <= ts && ts < to {
                let wd = crate::time::weekday_of_ts(ts);
                let h = crate::time::hour_of_ts(ts);
                let d: i64 = match self.activities[k].duration {
                    Some(x) => x,
                    None => 0,
                };
                let ghost ppre = pairs@;
                pairs.push((wd, h, d));
                proof {
                    let rr0 = range_rows(prefix, from, to);
                    let rr1 = range_rows(prefix1, from, to);
                    assert(rr1 == rr0.push(arow));
                    assert forall|n: int| 0 <= n < pairs@.len() implies week_rel(
                        rr1[n],
                        #[trigger] pairs@[n],
                    ) by {
                        if n < ppre.len() {
                            assert(pairs@[n] == ppre[n]);
                            assert(rr1[n] == rr0[n]);
                        } else {
                            assert(pairs@[n] == (wd, h, d));
                            assert(rr1[n] == arow);
                        }
                    }
                }
            }
            k = k + 1;
        }
        proof {
            assert(rows.subrange(0, rows.len() as int) =~= rows);
        }
        let ghost rr = range_rows(rows, from, to);
        proof {
            assert forall|n: int| 0 <= n < rows.len() implies dur_of(#[trigger] rows[n])
                >= 0 by {
                assert(self.activities@[n] == rows[n]);
            }
            crate::aggregate::lemma_durs_nonneg_filter(rows, range_pred(from, to));
            assert forall|n: int| 0 <= n < pairs@.len() implies (#[trigger] pairs@[n]).2
                >= 0 by {
                assert(week_rel(rr[n], pairs@[n]));
            }
            assert forall|n: int| 0 <= n < rr.len() implies (#[trigger] pairs@[n]).2 as int
                == dur_of(rr[n]) by {
                assert(week_rel(rr[n], pairs@[n]));
            }
            lemma_parallel_sum(rr, pairs@);
            crate::store::lemma_sum_durations_filter_le(rows, range_pred(from, to));
            self.lemma_activities_len_bound();
            rows.lemma_filter_len(range_pred(from, to));
        }
        let entries = group_keyed(&pairs);
        let mut hm: Vec<ActivityHeatmapData> = Vec::new();
        let mut w: usize = 0;
        while w < entries.len()
            invariant
                0 <= w <= entries@.len(),
                hm@.len() == w,
                forall|j: int|
                    0 <= j < w ==> {
                        let e = #[trigger] hm@[j];
                        &&& e.day_of_week == entries@[j].k1
                        &&& e.hour_of_day == entries@[j].k2
                        &&& e.activity_count == entries@[j].count
                        &&& e.total_duration == entries@[j].total
                    },
            decreases entries@.len() - w,
        {
            hm.push(
                ActivityHeatmapData {
                    day_of_week: entries[w].k1,
                    hour_of_day: entries[w].k2,
                    activity_count: entries[w].count,
                    total_duration: entries[w].total,
                },
            );
            w = w + 1;
        }
        proof {
            assert forall|j: int| 0 <= j < hm@.len() implies {
                let e = #[trigger] hm@[j];
                let brs = week_bucket_rows(rows, from, to, e.day_of_week, e.hour_of_day);
                &&& brs.len() > 0
                &&& e.activity_count as int == brs.len()
                &&& e.total_duration as int == sum_durations(brs)
            } by {
                let e = hm@[j];
                assert(key_agg_inv(pairs@, entries@[j]));
                assert forall|n: int|
                    0 <= n < rr.len() implies (week_pred(e.day_of_week, e.hour_of_day)(
                    #[trigger] rr[n],
                ) <==> keyed_pred(e.day_of_week, e.hour_of_day)(pairs@[n])) by {
                    assert(week_rel(rr[n], pairs@[n]));
                }
                assert forall|n: int| 0 <= n < rr.len() implies (#[trigger] pairs@[n]).2 as int
                    == dur_of(rr[n]) by {
                    assert(week_rel(rr[n], pairs@[n]));
                }
                lemma_parallel_filter(
                    rr,
                    pairs@,
                    week_pred(e.day_of_week, e.hour_of_day),
                    keyed_pred(e.day_of_week, e.hour_of_day),
                );
            }
            assert forall|i: int|
                #![trigger rows[i]]
                0 <= i < rows.len() && from <= rows[i].timestamp < to implies exists|j: int|
                0 <= j < hm@.len() && (#[trigger] hm@[j]).day_of_week as int == weekday_of(
                    rows[i].timestamp as int,
                ) && hm@[j].hour_of_day as int == hour_of(rows[i].timestamp as int) by {
                rows.lemma_filter_contains(range_pred(from, to), i);
                let n = choose|n: int| 0 <= n < rr.len() && rr[n] == rows[i];
                assert(week_rel(rr[n], pairs@[n]));
                let jj = choose|jj: int|
                    0 <= jj < entries@.len() && (#[trigger] entries@[jj]).k1 == pairs@[n].0
                        && entries@[jj].k2 == pairs@[n].1;
                assert(hm@[jj].day_of_week as int == weekday_of(rows[i].timestamp as int)
                    && hm@[jj].hour_of_day as int == hour_of(rows[i].timestamp as int));
            }
            lemma_week_heat_sums(entries@, hm@);
            assert(week_heatmap_ok(rows, from, to, hm@));
        }
        Ok(hm)
    }
}

/// A keyed image of one row under the month granularity.
pub open spec fn month_rel(a: WindowActivity, p: (i64, i64, i64)) -> bool {
    &&& p.0 as int == civil_day_of(a.timestamp as int)
    &&& p.1 as int == hour_of(a.timestamp as int)
    &&& p.2 as int == dur_of(a)
}

proof fn lemma_month_heat_sums(entries: Seq<KeyAgg>, hm: Seq<ActivityHeatmapMonthData>)
    requires
        hm.len() == entries.len(),
        forall|j: int|
            0 <= j < entries.len() ==> (#[trigger] hm[j]).total_duration == entries[j].total,
    ensures
        sum_month_totals(hm) == sum_bucket_totals(entries),
    decreases entries.len(),
{
    if entries.len() > 0 {
        assert forall|j: int|
            0 <= j < entries.drop_last().len() implies (
        #[trigger] hm.drop_last()[j]).total_duration == entries.drop_last()[j].total by {
            assert(hm.drop_last()[j] == hm[j]);
            assert(entries.drop_last()[j] == entries[j]);
        }
        lemma_month_heat_sums(entries.drop_last(), hm.drop_last());
        assert(hm[hm.len() - 1] == hm.last());
    }
}

/// Everything a correct month heatmap says of the ledger rows: buckets are
/// pairwise disjoint, each bucket counts and sums exactly its rows, every
/// in-range row falls in some bucket, and the bucket durations sum to the
/// range total. The order of the buckets is left unspecified; callers that
/// display them sort by their own criterion.
pub open spec fn month_heatmap_ok(
    rows: Seq<WindowActivity>,
    from: i64,
    to: i64,
    hm: Seq<ActivityHeatmapMonthData>,
) -> bool {
    &&& forall|j1: int, j2: int|
        0 <= j1 < j2 < hm.len() ==> !((#[trigger] hm[j1]).day_of_month == (
        #[trigger] hm[j2]).day_of_month && hm[j1].hour_of_day == hm[j2].hour_of_day)
    &&& forall|j: int|
        0 <= j < hm.len() ==> {
            let e = #[trigger] hm[j];
            let brs = month_bucket_rows(rows, from, to, e.day_of_month, e.hour_of_day);
            &&& brs.len() > 0
            &&& e.activity_count as int == brs.len()
            &&& e.total_duration as int == sum_durations(brs)
        }
    &&& forall|i: int|
        #![trigger rows[i]]
        0 <= i < rows.len() && from <= rows[i].timestamp < to ==> exists|j: int|
            0 <= j < hm.len() && (#[trigger] hm[j]).day_of_month as int == civil_day_of(
                rows[i].timestamp as int,
            ) && hm[j].hour_of_day as int == hour_of(rows[i].timestamp as int)
    &&& sum_month_totals(hm) == range_total(rows, from, to)
}

impl crate::store::Store {
    /// The day-of-month x hour heatmap of `[from, to)`: one bucket per
    /// distinct pair, counting its rows and summing their durations; the
    /// bucket durations sum to the range total. Buckets come in the order
    /// their first row appears; no order is promised. Fails if and only if
    /// the range is reversed.
    #[verifier::rlimit(60)]
    pub fn get_activity_heatmap_month(&self, from: i64, to: i64) -> (r: Result<
        Vec<ActivityHeatmapMonthData>,
        AppError,
    >)
        requires
            self.wf(),
        ensures
            match r {
                Ok(hm) => from <= to && month_heatmap_ok(self.activities@, from, to, hm@),
                Err(e) => {
                    &&& from > to
                    &&& e matches AppError::InvalidInput(_)
                },
            },
    {
        if from > to {
            return Err(AppError::InvalidInput(String::from_str("reversed time range")));
        }
        let ghost rows = self.activities@;
        let mut pairs: Vec<(i64, i64, i64)> = Vec::new();
        let mut k: usize = 0;
        proof {
            assert(rows.subrange(0, 0) =~= Seq::<WindowActivity>::empty());
            reveal(Seq::filter);
        }
        while k < self.activities.len()
            invariant
                self.wf(),
                rows == self.activities@,
                0 <= k <= rows.len(),
                pairs@.len() == range_rows(rows.subrange(0, k as int), from, to).len(),
                forall|n: int|
                    0 <= n < pairs@.len() ==> month_rel(
                        range_rows(rows.subrange(0, k as int), from, to)[n],
                        #[trigger] pairs@[n],
                    ),
            decreases rows.len() - k,
        {
            let ghost prefix = rows.subrange(0, k as int);
            let ghost prefix1 = rows.subrange(0, k as int + 1);
            let ghost arow = rows[k as int];
            proof {
                assert(prefix1 =~= prefix.push(arow));
                crate::seqs::lemma_filter_push(prefix, arow, range_pred(from, to));
                assert(valid_ts(self.activities@[k as int].timestamp as int));
            }
            let ts = self.activities[k].timestamp;
            if from <= ts && ts < to {
                let cd = crate::time::civil_date_of(ts);
                let wd = cd.2 as i64;
                let h = crate::time::hour_of_ts(ts);
                let d: i64 = match self.activities[k].duration {
                    Some(x) => x,
                    None => 0,
                };
                let ghost ppre = pairs@;
                pairs.push((wd, h, d));
                proof {
                    let rr0 = range_rows(prefix, from, to);
                    let rr1 = range_rows(prefix1, from, to);
                    assert(rr1 == rr0.push(arow));
                    assert forall|n: int| 0 <= n < pairs@.len() implies month_rel(
                        rr1[n],
                        #[trigger] pairs@[n],
                    ) by {
                        if n < ppre.len() {
                            assert(pairs@[n] == ppre[n]);
                            assert(rr1[n] == rr0[n]);
                        } else {
                            assert(pairs@[n] == (wd, h, d));
                            assert(rr1[n] == arow);
                        }
                    }
                }
            }
            k = k + 1;
        }
        proof {
            assert(rows.subrange(0, rows.len() as int) =~= rows);
        }
        let ghost rr = range_rows(rows, from, to);
        proof {
            assert forall|n: int| 0 <= n < rows.len() implies dur_of(#[trigger] rows[n])
                >= 0 by {
                assert(self.activities@[n] == rows[n]);
            }
            crate::aggregate::lemma_durs_nonneg_filter(rows, range_pred(from, to));
            assert forall|n: int| 0 <= n < pairs@.len() implies (#[trigger] pairs@[n]).2
                >= 0 by {
                assert(month_rel(rr[n], pairs@[n]));
            }
            assert forall|n: int| 0 <= n < rr.len() implies (#[trigger] pairs@[n]).2 as int
                == dur_of(rr[n]) by {
                assert(month_rel(rr[n], pairs@[n]));
            }
            lemma_parallel_sum(rr, pairs@);
            crate::store::lemma_sum_durations_filter_le(rows, range_pred(from, to));
            self.lemma_activities_len_bound();
            rows.lemma_filter_len(range_pred(from, to));
        }
        let entries = group_keyed(&pairs);
        let mut hm: Vec<ActivityHeatmapMonthData> = Vec::new();
        let mut w: usize = 0;
        while w < entries.len()
            invariant
                0 <= w <= entries@.len(),
                hm@.len() == w,
                forall|j: int|
                    0 <= j < w ==> {
                        let e = #[trigger] hm@[j];
                        &&& e.day_of_month == entries@[j].k1
                        &&& e.hour_of_day == entries@[j].k2
                        &&& e.activity_count == entries@[j].count
                        &&& e.total_duration == entries@[j].total
                    },
            decreases entries@.len() - w,
        {
            hm.push(
                ActivityHeatmapMonthData {
                    day_of_month: entries[w].k1,
                    hour_of_day: entries[w].k2,
                    activity_count: entries[w].count,
                    total_duration: entries[w].total,
                },
            );
            w = w + 1;
        }
        proof {
            assert forall|j: int| 0 <= j < hm@.len() implies {
                let e = #[trigger] hm@[j];
                let brs = month_bucket_rows(rows, from, to, e.day_of_month, e.hour_of_day);
                &&& brs.len() > 0
                &&& e.activity_count as int == brs.len()
                &&& e.total_duration as int == sum_durations(brs)
            } by {
                let e = hm@[j];
                assert(key_agg_inv(pairs@, entries@[j]));
                assert forall|n: int|
                    0 <= n < rr.len() implies (month_pred(e.day_of_month, e.hour_of_day)(
                    #[trigger] rr[n],
                ) <==> keyed_pred(e.day_of_month, e.hour_of_day)(pairs@[n])) by {
                    assert(month_rel(rr[n], pairs@[n]));
                }
                assert forall|n: int| 0 <= n < rr.len() implies (#[trigger] pairs@[n]).2 as int
                    == dur_of(rr[n]) by {
                    assert(month_rel(rr[n], pairs@[n]));
                }
                lemma_parallel_filter(
                    rr,
                    pairs@,
                    month_pred(e.day_of_month, e.hour_of_day),
                    keyed_pred(e.day_of_month, e.hour_of_day),
                );
            }
            assert forall|i: int|
                #![trigger rows[i]]
                0 <= i < rows.len() && from <= rows[i].timestamp < to implies exists|j: int|
                0 <= j < hm@.len() && (#[trigger] hm@[j]).day_of_month as int == civil_day_of(
                    rows[i].timestamp as int,
                ) && hm@[j].hour_of_day as int == hour_of(rows[i].timestamp as int) by {
                rows.lemma_filter_contains(range_pred(from, to), i);
                let n = choose|n: int| 0 <= n < rr.len() && rr[n] == rows[i];
                assert(month_rel(rr[n], pairs@[n]));
                let jj = choose|jj: int|
                    0 <= jj < entries@.len() && (#[trigger] entries@[jj]).k1 == pairs@[n].0
                        && entries@[jj].k2 == pairs@[n].1;
                assert(hm@[jj].day_of_month as int == civil_day_of(rows[i].timestamp as int)
                    && hm@[jj].hour_of_day as int == hour_of(rows[i].timestamp as int));
            }
            lemma_month_heat_sums(entries@, hm@);
            assert(month_heatmap_ok(rows, from, to, hm@));
        }
        Ok(hm)
    }
}

/// A keyed image of one row under the year granularity.
pub open spec fn year_rel(a: WindowActivity, p: (i64, i64, i64)) -> bool {
    &&& p.0 as int == day_of_year_of(a.timestamp as int)
    &&& p.1 as int == hour_of(a.timestamp as int)
    &&& p.2 as int == dur_of(a)
}

proof fn lemma_year_heat_sums(entries: Seq<KeyAgg>, hm: Seq<ActivityHeatmapYearData>)
    requires
        hm.len() == entries.len(),
        forall|j: int|
            0 <= j < entries.len() ==> (#[trigger] hm[j]).total_duration == entries[j].total,
    ensures
        sum_year_totals(hm) == sum_bucket_totals(entries),
    decreases entries.len(),
{
    if entries.len() > 0 {
        assert forall|j: int|
            0 <= j < entries.drop_last().len() implies (
        #[trigger] hm.drop_last()[j]).total_duration == entries.drop_last()[j].total by {
            assert(hm.drop_last()[j] == hm[j]);
            assert(entries.drop_last()[j] == entries[j]);
        }
        lemma_year_heat_sums(entries.drop_last(), hm.drop_last());
        assert(hm[hm.len() - 1] == hm.last());
    }
}

/// Everything a correct year heatmap says of the ledger rows: buckets are
/// pairwise disjoint, each bucket counts and sums exactly its rows, every
/// in-range row falls in some bucket, and the bucket durations sum to the
/// range total. The order of the buckets is left unspecified; callers that
/// display them sort by their own criterion.
pub open spec fn year_heatmap_ok(
    rows: Seq<WindowActivity>,
    from: i64,
    to: i64,
    hm: Seq<ActivityHeatmapYearData>,
) -> bool {
    &&& forall|j1: int, j2: int|
        0 <= j1 < j2 < hm.len() ==> !((#[trigger] hm[j1]).day_of_year == (
        #[trigger] hm[j2]).day_of_year && hm[j1].hour_of_day == hm[j2].hour_of_day)
    &&& forall|j: int|
        0 <= j < hm.len() ==> {
            let e = #[trigger] hm[j];
            let brs = year_bucket_rows(rows, from, to, e.day_of_year, e.hour_of_day);
            &&& brs.len() > 0
            &&& e.activity_count as int == brs.len()
            &&& e.total_duration as int == sum_durations(brs)
        }
    &&& forall|i: int|
        #![trigger rows[i]]
        0 <= i < rows.len() && from <= rows[i].timestamp < to ==> exists|j: int|
            0 <= j < hm.len() && (#[trigger] hm[j]).day_of_year as int == day_of_year_of(
                rows[i].timestamp as int,
            ) && hm[j].hour_of_day as int == hour_of(rows[i].timestamp as int)
    &&& sum_year_totals(hm) == range_total(rows, from, to)
}

impl crate::store::Store {
    /// The day-of-year x hour heatmap of `[from, to)`: one bucket per
    /// distinct pair, counting its rows and summing their durations; the
    /// bucket durations sum to the range total. Buckets come in the order
    /// their first row appears; no order is promised. Fails if and only if
    /// the range is reversed.
    #[verifier::rlimit(60)]
    pub fn get_activity_heatmap_year(&self, from: i64, to: i64) -> (r: Result<
        Vec<ActivityHeatmapYearData>,
        AppError,
    >)
        requires
            self.wf(),
        ensures
            match r {
                Ok(hm) => from <= to && year_heatmap_ok(self.activities@, from, to, hm@),
                Err(e) => {
                    &&& from > to
                    &&& e matches AppError::InvalidInput(_)
                },
            },
    {
        if from > to {
            return Err(AppError::InvalidInput(String::from_str("reversed time range")));
        }
        let ghost rows = self.activities@;
        let mut pairs: Vec<(i64, i64, i64)> = Vec::new();
        let mut k: usize = 0;
        proof {
            assert(rows.subrange(0, 0) =~= Seq::<WindowActivity>::empty());
            reveal(Seq::filter);
        }
        while k < self.activities.len()
            invariant
                self.wf(),
                rows == self.activities@,
                0 <= k <= rows.len(),
                pairs@.len() == range_rows(rows.subrange(0, k as int), from, to).len(),
                forall|n: int|
                    0 <= n < pairs@.len() ==> year_rel(
                        range_rows(rows.subrange(0, k as int), from, to)[n],
                        #[trigger] pairs@[n],
                    ),
            decreases rows.len() - k,
        {
            let ghost prefix = rows.subrange(0, k as int);
            let ghost prefix1 = rows.subrange(0, k as int + 1);
            let ghost arow = rows[k as int];
            proof {
                assert(prefix1 =~= prefix.push(arow));
                crate::seqs::lemma_filter_push(prefix, arow, range_pred(from, to));
                assert(valid_ts(self.activities@[k as int].timestamp as int));
            }
            let ts = self.activities[k].timestamp;
            if from <= ts && ts < to {
                let cd = crate::time::civil_date_of(ts);
                let wd = cd.3 as i64;
                let h = crate::time::hour_of_ts(ts);
                let d: i64 = match self.activities[k].duration {
                    Some(x) => x,
                    None => 0,
                };
                let ghost ppre = pairs@;
                pairs.push((wd, h, d));
                proof {
                    let rr0 = range_rows(prefix, from, to);
                    let rr1 = range_rows(prefix1, from, to);
                    assert(rr1 == rr0.push(arow));
                    assert forall|n: int| 0 <= n < pairs@.len() implies year_rel(
                        rr1[n],
                        #[trigger] pairs@[n],
                    ) by {
                        if n < ppre.len() {
                            assert(pairs@[n] == ppre[n]);
                            assert(rr1[n] == rr0[n]);
                        } else {
                            assert(pairs@[n] == (wd, h, d));
                            assert(rr1[n] == arow);
                        }
                    }
                }
            }
            k = k + 1;
        }
        proof {
            assert(rows.subrange(0, rows.len() as int) =~= rows);
        }
        let ghost rr = range_rows(rows, from, to);
        proof {
            assert forall|n: int| 0 <= n < rows.len() implies dur_of(#[trigger] rows[n])
                >= 0 by {
                assert(self.activities@[n] == rows[n]);
            }
            crate::aggregate::lemma_durs_nonneg_filter(rows, range_pred(from, to));
            assert forall|n: int| 0 <= n < pairs@.len() implies (#[trigger] pairs@[n]).2
                >= 0 by {
                assert(year_rel(rr[n], pairs@[n]));
            }
            assert forall|n: int| 0 <= n < rr.len() implies (#[trigger] pairs@[n]).2 as int
                == dur_of(rr[n]) by {
                assert(year_rel(rr[n], pairs@[n]));
            }
            lemma_parallel_sum(rr, pairs@);
            crate::store::lemma_sum_durations_filter_le(rows, range_pred(from, to));
            self.lemma_activities_len_bound();
            rows.lemma_filter_len(range_pred(from, to));
        }
        let entries = group_keyed(&pairs);
        let mut hm: Vec<ActivityHeatmapYearData> = Vec::new();
        let mut w: usize = 0;
        while w < entries.len()
            invariant
                0 <= w <= entries@.len(),
                hm@.len() == w,
                forall|j: int|
                    0 <= j < w ==> {
                        let e = #[trigger] hm@[j];
                        &&& e.day_of_year == entries@[j].k1
                        &&& e.hour_of_day == entries@[j].k2
                        &&& e.activity_count == entries@[j].count
                        &&& e.total_duration == entries@[j].total
                    },
            decreases entries@.len() - w,
        {
            hm.push(
                ActivityHeatmapYearData {
                    day_of_year: entries[w].k1,
                    hour_of_day: entries[w].k2,
                    activity_count: entries[w].count,
                    total_duration: entries[w].total,
                },
            );
            w = w + 1;
        }
        proof {
            assert forall|j: int| 0 <= j < hm@.len() implies {
                let e = #[trigger] hm@[j];
                let brs = year_bucket_rows(rows, from, to, e.day_of_year, e.hour_of_day);
                &&& brs.len() > 0
                &&& e.activity_count as int == brs.len()
                &&& e.total_duration as int == sum_durations(brs)
            } by {
                let e = hm@[j];
                assert(key_agg_inv(pairs@, entries@[j]));
                assert forall|n: int|
                    0 <= n < rr.len() implies (year_pred(e.day_of_year, e.hour_of_day)(
                    #[trigger] rr[n],
                ) <==> keyed_pred(e.day_of_year, e.hour_of_day)(pairs@[n])) by {
                    assert(year_rel(rr[n], pairs@[n]));
                }
                assert forall|n: int| 0 <= n < rr.len() implies (#[trigger] pairs@[n]).2 as int
                    == dur_of(rr[n]) by {
                    assert(year_rel(rr[n], pairs@[n]));
                }
                lemma_parallel_filter(
                    rr,
                    pairs@,
                    year_pred(e.day_of_year, e.hour_of_day),
                    keyed_pred(e.day_of_year, e.hour_of_day),
                );
            }
            assert forall|i: int|
                #![trigger rows[i]]
                0 <= i < rows.len() && from <= rows[i].timestamp < to implies exists|j: int|
                0 <= j < hm@.len() && (#[trigger] hm@[j]).day_of_year as int == day_of_year_of(
                    rows[i].timestamp as int,
                ) && hm@[j].hour_of_day as int == hour_of(rows[i].timestamp as int) by {
                rows.lemma_filter_contains(range_pred(from, to), i);
                let n = choose|n: int| 0 <= n < rr.len() && rr[n] == rows[i];
                assert(year_rel(rr[n], pairs@[n]));
                let jj = choose|jj: int|
                    0 <= jj < entries@.len() && (#[trigger] entries@[jj]).k1 == pairs@[n].0
                        && entries@[jj].k2 == pairs@[n].1;
                assert(hm@[jj].day_of_year as int == day_of_year_of(rows[i].timestamp as int)
                    && hm@[jj].hour_of_day as int == hour_of(rows[i].timestamp as int));
            }
            lemma_year_heat_sums(entries@, hm@);
            assert(year_heatmap_ok(rows, from, to, hm@));
        }
        Ok(hm)
    }
}

} // verus!

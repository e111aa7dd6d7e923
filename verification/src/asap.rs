use vstd::arithmetic::div_mod::{lemma_fundamental_div_mod, lemma_mod_bound};
use vstd::prelude::*;

use crate::error::TsError;
use crate::series::{
    sort_points, sort_points_vec, sorted_by_ts, ExplicitSeries, NormalSeries, TSPoint, TimeSeries,
};

verus! {

/// Gap-filling policy handed to the normalization collaborator; linear
/// interpolation is the only modeled method.
#[derive(Clone, Copy, Debug, PartialEq, Eq, Structural)]
pub enum GapfillMethod {
    Linear,
}

/// Capability interface for the external "normalize an irregular series onto
/// an evenly spaced grid with gap interpolation" kernel. The library consumes
/// it and demands of every implementation: a non-positive interval is
/// refused; the only failure is lack of data to extrapolate; a successful
/// result is a grid starting at the first input timestamp whose step is the
/// requested interval, with at least one value.
pub trait Normalizer {
    fn normalize(
        &self,
        series: &ExplicitSeries,
        interval: i64,
        method: GapfillMethod,
    ) -> (r: Result<NormalSeries, TsError>)
        requires
            series.wf(),
            series.ordered,
            series.points@.len() >= 1,
        ensures
            interval <= 0 ==> r is Err,
            r matches Err(e) ==> e == TsError::InsufficientData,
            r matches Ok(ns) ==> ns.step_interval == interval && ns.values@.len() >= 1
                && ns.start_ts == series.points@.first().ts,
    ;
}

/// Capability interface for the external adaptive moving-average kernel: the
/// output length is driven by `resolution` but only bounded, never promised,
/// by the contract — it can only be at most the input length.
pub trait Smoother {
    fn smooth(&self, values: &Vec<u64>, resolution: i32) -> (r: Vec<u64>)
        requires
            1 <= resolution,
        ensures
            r@.len() <= values@.len(),
    ;
}

/// Smooth a raw value sequence directly, bypassing accumulation.
pub fn asap_smooth_raw<S: Smoother>(smoother: &S, data: Vec<u64>, resolution: i32) -> (r: Vec<u64>)
    requires
        1 <= resolution,
    ensures
        r@.len() <= data@.len(),
{
    smoother.smooth(&data, resolution)
}

/// Aggregation state for the smoothing transform: the growing series plus the
/// per-group target resolution.
#[derive(Clone, Debug)]
pub struct ASAPTransState {
    pub ts: TimeSeries,
    pub resolution: i32,
}

impl ASAPTransState {
    pub open spec fn wf(&self) -> bool {
        &&& self.resolution >= 1
        &&& (self.ts matches TimeSeries::Explicit(e) ==> e.wf() && e.points@.len() >= 1)
    }
}

/// Row feed for the smoothing aggregate. A row with a missing timestamp or
/// value is skipped silently; the first complete row creates the state (and
/// is where an unusable resolution is rejected); later rows append in O(1).
pub fn asap_trans(
    state: Option<ASAPTransState>,
    ts: Option<i64>,
    val: Option<u64>,
    resolution: i32,
) -> (r: Result<Option<ASAPTransState>, TsError>)
    requires
        state matches Some(st) ==> st.wf(),
    ensures
        ts is None || val is None ==> r == Ok::<Option<ASAPTransState>, TsError>(state),
        ts is Some && val is Some ==> (match state {
            None => (if resolution <= 0 {
                r == Err::<Option<ASAPTransState>, TsError>(TsError::ConfigurationError)
            } else {
                r matches Ok(st2) && st2 matches Some(st) && st.resolution == resolution && (
                st.ts matches TimeSeries::Explicit(e) && e.ordered && e.points@ == seq![
                    TSPoint { ts: ts.unwrap(), val: val.unwrap() },
                ])
            }),
            Some(st0) => (match st0.ts {
                TimeSeries::Explicit(e0) => r matches Ok(st2) && st2 matches Some(st)
                    && st.resolution == st0.resolution && (st.ts matches TimeSeries::Explicit(e)
                    && e.points@ == e0.points@.push(TSPoint { ts: ts.unwrap(), val: val.unwrap() })
                    && e.ordered == (e0.ordered && e0.points@.last().ts <= ts.unwrap())),
                TimeSeries::Normal(_) => r == Err::<Option<ASAPTransState>, TsError>(
                    TsError::InvariantViolation,
                ),
            }),
        }),
        r matches Ok(Some(st)) ==> st.wf(),
{
    let t = match ts {
        None => { return Ok(state) },
        Some(t) => t,
    };
    let v = match val {
        None => { return Ok(state) },
        Some(v) => v,
    };
    let p = TSPoint { ts: t, val: v };
    match state {
        None => {
            if resolution <= 0 {
                Err(TsError::ConfigurationError)
            } else {
                let mut points: Vec<TSPoint> = Vec::new();
                points.push(p);
                let series = ExplicitSeries { ordered: true, points };
                Ok(Some(ASAPTransState { ts: TimeSeries::Explicit(series), resolution }))
            }
        },
        Some(st0) => {
            match st0.ts {
                TimeSeries::Explicit(mut e) => {
                    e.add_point(p);
                    Ok(Some(ASAPTransState { ts: TimeSeries::Explicit(e), resolution: st0.resolution }))
                },
                TimeSeries::Normal(_) => Err(TsError::InvariantViolation),
            }
        },
    }
}

/// The timestamp gaps between successive points, carried as timestamps so the
/// sorting routine for points can order them.
pub open spec fn gap_points(s: Seq<TSPoint>) -> Seq<TSPoint> {
    if s.len() <= 1 {
        Seq::empty()
    } else {
        Seq::new((s.len() - 1) as nat, |i: int| TSPoint { ts: (s[i + 1].ts - s[i].ts) as i64, val: 0 })
    }
}

/// The median consecutive gap: the upper-middle element of the sorted gap
/// list — for an even count this is the element at index `len / 2`, not an
/// average of the two middle elements.
pub open spec fn median_gap(s: Seq<TSPoint>) -> int {
    sort_points(gap_points(s))[gap_points(s).len() as int / 2].ts as int
}

/// The selected bucket width: the even-bucket candidate `span / resolution`,
/// truncated down to a multiple of the median gap.
pub open spec fn downsample_interval(s: Seq<TSPoint>, resolution: int) -> int {
    (s.last().ts - s.first().ts) / resolution / median_gap(s) * median_gap(s)
}

/// Estimate a bucket width for downsampling a sorted series to roughly
/// `resolution` buckets, robust to uneven sampling: the even-split candidate
/// is snapped down to a multiple of the median inter-sample gap. A
/// non-positive median gap (duplicate adjacent timestamps dominate) cannot
/// feed the division and is reported, not crashed on.
pub fn find_downsample_interval(series: &ExplicitSeries, resolution: i64) -> (r: Result<
    i64,
    TsError,
>)
    requires
        series.wf(),
        series.ordered,
        2 <= series.points@.len(),
        1 <= resolution,
        series.points@.last().ts - series.points@.first().ts <= i64::MAX,
    ensures
        median_gap(series.points@) <= 0 ==> r == Err::<i64, TsError>(TsError::InvariantViolation),
        median_gap(series.points@) > 0 ==> (r matches Ok(v) && v as int == downsample_interval(
            series.points@,
            resolution as int,
        )),
{
    let ghost s = series.points@;
    let n = series.points.len();
    let first = series.points[0];
    let last = series.points[n - 1];
    proof {
        assert(s[0].ts <= s[n - 1].ts);
    }
    let span: i64 = last.ts - first.ts;
    let mut diffs: Vec<TSPoint> = Vec::new();
    let mut i: usize = 1;
    while i < n
        invariant
            1 <= i <= n,
            n == s.len(),
            series.points@ == s,
            sorted_by_ts(s),
            span == s.last().ts - s.first().ts,
            diffs@.len() == i - 1,
            forall|k: int| 0 <= k < i - 1 ==> diffs@[k] == gap_points(s)[k],
        decreases n - i,
    {
        proof {
            assert(s[i - 1].ts <= s[i as int].ts);
            assert(s[0].ts <= s[i - 1].ts);
            assert(s[i as int].ts <= s[n - 1].ts);
        }
        let d: i64 = series.points[i].ts - series.points[i - 1].ts;
        diffs.push(TSPoint { ts: d, val: 0 });
        i = i + 1;
    }
    proof {
        assert(diffs@ =~= gap_points(s));
        crate::series::lemma_sort_points_props(gap_points(s));
    }
    sort_points_vec(&mut diffs);
    let mid = diffs.len() / 2;
    let med: i64 = diffs[mid].ts;
    proof {
        assert(med as int == median_gap(s));
    }
    if med <= 0 {
        return Err(TsError::InvariantViolation);
    }
    let cand: u64 = (span as u64) / (resolution as u64);
    let medu: u64 = med as u64;
    let q: u64 = cand / medu;
    proof {
        lemma_fundamental_div_mod(cand as int, medu as int);
        lemma_mod_bound(cand as int, medu as int);
        assert(q as int == cand as int / medu as int);
        assert(cand as int == medu as int * (cand as int / medu as int) + cand as int % medu
            as int);
        assert(0 <= cand as int % medu as int);
        assert((q as int) * (medu as int) <= cand as int);
        assert(med as int == median_gap(s));
        assert(cand as int == (s.last().ts - s.first().ts) / (resolution as int));
    }
    let out: u64 = q * medu;
    Ok(out as i64)
}

/// The rescaled step width of the final output: the normalized step times the
/// trimmed value count, divided (truncating) by the smoothed value count, so
/// the output spans the same wall-clock range as the normalized input.
pub open spec fn rescale_step(interval: int, trimmed_len: int, out_len: int) -> int {
    interval * trimmed_len / out_len
}

/// The final series is a correct rescale of some normalized length: the
/// smoothed values cover the normalized (trimmed) span.
pub open spec fn valid_rescale(interval: int, out: NormalSeries) -> bool {
    exists|tlen: int|
        out.values@.len() <= tlen && #[trigger] rescale_step(
            interval,
            tlen,
            out.values@.len() as int,
        ) == out.step_interval
}

/// Build the output series from the smoothing collaborator's values: same
/// start, step widened so the smoothed output still covers the span of the
/// `trimmed_len` normalized values it came from. An empty smoothed sequence,
/// or a step that cannot be represented, is a defensive failure.
pub fn rescale_output(start_ts: i64, step_interval: i64, trimmed_len: usize, smoothed: Vec<u64>) -> (r:
    Result<NormalSeries, TsError>)
    requires
        1 <= step_interval,
    ensures
        smoothed@.len() == 0 ==> r == Err::<NormalSeries, TsError>(TsError::InvariantViolation),
        smoothed@.len() > 0 && rescale_step(
            step_interval as int,
            trimmed_len as int,
            smoothed@.len() as int,
        ) > i64::MAX ==> r == Err::<NormalSeries, TsError>(TsError::InvariantViolation),
        smoothed@.len() > 0 && rescale_step(
            step_interval as int,
            trimmed_len as int,
            smoothed@.len() as int,
        ) <= i64::MAX ==> (r matches Ok(ns) && ns.start_ts == start_ts && ns.step_interval
            as int == rescale_step(step_interval as int, trimmed_len as int, smoothed@.len() as int)
            && ns.values@ == smoothed@),
{
    if smoothed.len() == 0 {
        return Err(TsError::InvariantViolation);
    }
    proof {
        vstd::arithmetic::mul::lemma_mul_upper_bound(
            step_interval as int,
            i64::MAX as int,
            trimmed_len as int,
            usize::MAX as int,
        );
    }
    let prod: u128 = (step_interval as u128) * (trimmed_len as u128);
    let q: u128 = prod / (smoothed.len() as u128);
    if q > i64::MAX as u128 {
        return Err(TsError::InvariantViolation);
    }
    Ok(NormalSeries { start_ts, step_interval: q as i64, values: smoothed })
}

/// Finalize the smoothing aggregate: sort once, pick the bucket width (the
/// heuristic when the series is dense enough, an even per-point split when
/// sparse), normalize with linear gapfill, drop the systematically irregular
/// last value, smooth, and rescale. Every failure is reported; there is no
/// partial output.
pub fn asap_final<N: Normalizer, S: Smoother>(
    state: Option<ASAPTransState>,
    normalizer: &N,
    smoother: &S,
) -> (r: Result<Option<NormalSeries>, TsError>)
    requires
        state matches Some(st) ==> st.wf(),
    ensures
        state is None ==> r == Ok::<Option<NormalSeries>, TsError>(None),
        state matches Some(st) ==> (match st.ts {
            TimeSeries::Normal(_) => r == Err::<Option<NormalSeries>, TsError>(
                TsError::InvariantViolation,
            ),
            TimeSeries::Explicit(es) => ({
            let sorted = sort_points(es.points@);
            let span = sorted.last().ts - sorted.first().ts;
            let dense = sorted.len() >= 2 * st.resolution;
            &&& (span > i64::MAX ==> r == Err::<Option<NormalSeries>, TsError>(
                TsError::InvariantViolation,
            ))
            &&& (span <= i64::MAX && dense && median_gap(sorted) <= 0 ==> r == Err::<
                Option<NormalSeries>,
                TsError,
            >(TsError::InvariantViolation))
            &&& (span <= i64::MAX && (dense ==> median_gap(sorted) > 0) ==> ({
                let interval = if dense {
                    downsample_interval(sorted, st.resolution as int)
                } else {
                    span / (sorted.len() as int)
                };
                &&& (r matches Err(e) ==> e == TsError::InsufficientData || e
                    == TsError::InvariantViolation)
                &&& (interval <= 0 ==> r == Err::<Option<NormalSeries>, TsError>(
                    TsError::InsufficientData,
                ))
                &&& (r matches Ok(out) ==> (out matches Some(ns) && interval >= 1
                    && ns.start_ts == sorted.first().ts && ns.values@.len() >= 1 && valid_rescale(
                    interval,
                    ns,
                )))
            }))
        }),
        }),
{
    let st = match state {
        None => { return Ok(None) },
        Some(st) => st,
    };
    let mut series = match st.ts {
        TimeSeries::Explicit(e) => e,
        TimeSeries::Normal(_) => { return Err(TsError::InvariantViolation) },
    };
    series.sort();
    let ghost sorted = series.points@;
    let n = series.points.len();
    let first_ts = series.points[0].ts;
    let last_ts = series.points[n - 1].ts;
    proof {
        assert(sorted[0].ts <= sorted[n - 1].ts);
    }
    if (last_ts as i128) - (first_ts as i128) > i64::MAX as i128 {
        return Err(TsError::InvariantViolation);
    }
    let span: i64 = last_ts - first_ts;
    let resolution = st.resolution;
    let dense = n >= 2 * (resolution as usize);
    let interval: i64 = if dense {
        match find_downsample_interval(&series, resolution as i64) {
            Ok(v) => v,
            Err(e) => { return Err(e) },
        }
    } else {
        ((span as u64) / (n as u64)) as i64
    };
    let normal = match normalizer.normalize(&series, interval, GapfillMethod::Linear) {
        Ok(ns) => ns,
        Err(_) => { return Err(TsError::InsufficientData) },
    };
    let mut values = normal.values;
    values.pop();
    let trimmed_len = values.len();
    let smoothed = smoother.smooth(&values, resolution);
    match rescale_output(normal.start_ts, normal.step_interval, trimmed_len, smoothed) {
        Ok(ns) => Ok(Some(ns)),
        Err(e) => Err(e),
    }
}

} // verus!

use vstd::prelude::verus;

verus! {

proof fn lemma_uniform_span(s: Seq<TSPoint>, d: int, k: int)
    requires
        0 <= k < s.len(),
        forall|i: int| #![trigger s[i]] 0 <= i < s.len() - 1 ==> s[i + 1].ts - s[i].ts == d,
    ensures
        s[k].ts - s[0].ts == k * d,
    decreases k,
{
    if k > 0 {
        lemma_uniform_span(s, d, k - 1);
        assert(s[k as int].ts - s[k - 1].ts == d);
        assert(k * d == (k - 1) * d + d) by (nonlinear_arith);
    }
}

/// Interval heuristic determinism on uniform input: with perfectly uniform
/// spacing `d` the median gap is exactly `d`, and the selected interval is
/// the even-bucket candidate `(n - 1) * d / resolution` truncated down to a
/// multiple of `d`.
pub proof fn lemma_uniform_spacing_interval(s: Seq<TSPoint>, d: int, resolution: int)
    requires
        2 <= s.len(),
        1 <= d <= i64::MAX,
        1 <= resolution,
        forall|i: int| #![trigger s[i]] 0 <= i < s.len() - 1 ==> s[i + 1].ts - s[i].ts == d,
    ensures
        median_gap(s) == d,
        downsample_interval(s, resolution) == ((s.len() - 1) * d) / resolution / d * d,
{
    let g = gap_points(s);
    assert(forall|i: int| #![trigger g[i]] 0 <= i < g.len() ==> g[i] == (TSPoint {
        ts: d as i64,
        val: 0,
    }));
    assert(sorted_by_ts(g));
    crate::series::lemma_sort_points_of_sorted(g);
    assert(median_gap(s) == d);
    lemma_uniform_span(s, d, s.len() - 1);
    assert(s.last().ts - s.first().ts == (s.len() - 1) * d);
}

} // verus!

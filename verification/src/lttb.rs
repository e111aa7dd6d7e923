use vstd::arithmetic::div_mod::{lemma_div_is_ordered, lemma_div_multiples_vanish};
use vstd::prelude::*;

use crate::error::TsError;
use crate::fbits::{
    abs_bits, add_bits, bits_of_int, div_bits, f_of_int, f_to_usize, fabs, fadd, fdiv, fgt, fmul,
    fsub, gt_bits, mul_bits, sub_bits, usize_of_bits, HALF_BITS, NEG_ONE_BITS, ZERO_BITS,
};
use crate::series::{sort_points, sorted_by_ts, ExplicitSeries, TSPoint};

verus! {

/// Strictly increasing timestamps.
pub open spec fn strictly_increasing_ts(s: Seq<TSPoint>) -> bool {
    forall|i: int, j: int| 0 <= i < j < s.len() ==> s[i].ts < s[j].ts
}

pub open spec fn min_i(a: int, b: int) -> int {
    if a < b {
        a
    } else {
        b
    }
}

pub open spec fn max_i(a: int, b: int) -> int {
    if a > b {
        a
    } else {
        b
    }
}

/// The real-valued bucket width `(n - 2) / (t - 2)` as double bits: interior
/// points split into `t - 2` buckets, leaving room for the fixed endpoints.
pub open spec fn every_bits(n: int, t: int) -> u64 {
    div_bits(bits_of_int(n - 2), bits_of_int(t - 2))
}

/// The raw bucket boundary `trunc(k * every) + 1`, recomputed per iteration
/// in double precision, never as an upfront partition.
pub open spec fn raw_bound(n: int, t: int, k: int) -> int {
    usize_of_bits(mul_bits(bits_of_int(k), every_bits(n, t))) + 1
}

/// Highest exclusive end the selection window of bucket `i` may reach while
/// leaving one index for each later bucket and the fixed last point.
pub open spec fn hi_lim(n: int, t: int, i: int) -> int {
    n - 1 - (t - 3 - i)
}

/// Selection window start for bucket `i`: the raw boundary, kept inside
/// `[lo, hi_lim - 1]` so buckets stay ordered and indexable even if extreme
/// rounding were to disorder the raw boundaries.
pub open spec fn sel_offs(n: int, t: int, i: int, lo: int) -> int {
    max_i(min_i(raw_bound(n, t, i), hi_lim(n, t, i) - 1), lo)
}

/// Selection window end for bucket `i`, kept inside `[offs + 1, hi_lim]`.
pub open spec fn sel_to(n: int, t: int, i: int, lo: int) -> int {
    max_i(min_i(raw_bound(n, t, i + 1), hi_lim(n, t, i)), sel_offs(n, t, i, lo) + 1)
}

/// Averaging window start: the next bucket's raw start, kept below `n`.
pub open spec fn avg_start(n: int, t: int, i: int) -> int {
    min_i(raw_bound(n, t, i + 1), n - 1)
}

/// Averaging window end: the bucket-after-next raw start, kept within `n` and
/// past the start, so the average is always over at least one point.
pub open spec fn avg_end(n: int, t: int, i: int) -> int {
    max_i(min_i(raw_bound(n, t, i + 2), n), avg_start(n, t, i) + 1)
}

/// Sum of the timestamps of `data[s..e]`, exact integer arithmetic.
pub open spec fn sum_ts(data: Seq<TSPoint>, s: int, e: int) -> int
    decreases e - s,
{
    if e <= s {
        0
    } else {
        sum_ts(data, s, e - 1) + data[e - 1].ts
    }
}

/// Left fold of double addition over the values of `data[s..e]`.
pub open spec fn vsum_bits(data: Seq<TSPoint>, s: int, e: int) -> u64
    decreases e - s,
{
    if e <= s {
        ZERO_BITS
    } else {
        add_bits(vsum_bits(data, s, e - 1), data[e - 1].val)
    }
}

/// Integer division truncating toward zero (for a positive divisor), the
/// machine semantics of the timestamp averaging.
pub open spec fn tdiv(a: int, b: int) -> int {
    if a >= 0 {
        a / b
    } else {
        -((-a) / b)
    }
}

/// Truncating average of the timestamps over `data[s..e]`.
pub open spec fn bucket_avg_ts(data: Seq<TSPoint>, s: int, e: int) -> int {
    tdiv(sum_ts(data, s, e), e - s)
}

/// Double average of the values over `data[s..e]`.
pub open spec fn bucket_avg_val(data: Seq<TSPoint>, s: int, e: int) -> u64 {
    div_bits(vsum_bits(data, s, e), bits_of_int(e - s))
}

/// Twice-signed triangle area (in double bits) spanned by the previously
/// selected point `data[a]`, the candidate `data[idx]`, and the next bucket's
/// average `(ats, av)`: the cross-product formula, absolute value, half.
pub open spec fn area_bits(data: Seq<TSPoint>, a: int, ats: int, av: u64, idx: int) -> u64 {
    mul_bits(
        abs_bits(
            sub_bits(
                mul_bits(bits_of_int(data[a].ts - ats), sub_bits(data[idx].val, data[a].val)),
                mul_bits(bits_of_int(data[a].ts - data[idx].ts), sub_bits(av, data[a].val)),
            ),
        ),
        HALF_BITS,
    )
}

/// Running maximum over candidates `[offs, j)`: first maximum wins, seeded
/// with the window start and a sentinel area of minus one.
pub open spec fn scan_best(
    data: Seq<TSPoint>,
    a: int,
    ats: int,
    av: u64,
    offs: int,
    j: int,
) -> (int, u64)
    decreases j - offs,
{
    if j <= offs {
        (offs, NEG_ONE_BITS)
    } else {
        let prev = scan_best(data, a, ats, av, offs, j - 1);
        let ar = area_bits(data, a, ats, av, j - 1);
        if gt_bits(ar, prev.1) {
            (j - 1, ar)
        } else {
            prev
        }
    }
}

/// State after the first `i` buckets: the last selected index, the lower
/// window limit for the next bucket, and the output so far.
pub open spec fn lttb_state(data: Seq<TSPoint>, t: int, i: int) -> (int, int, Seq<TSPoint>)
    decreases i,
{
    if i <= 0 {
        (0, 1, seq![data[0]])
    } else {
        let prev = lttb_state(data, t, i - 1);
        let n = data.len() as int;
        let offs = sel_offs(n, t, i - 1, prev.1);
        let to = sel_to(n, t, i - 1, prev.1);
        let s = avg_start(n, t, i - 1);
        let e = avg_end(n, t, i - 1);
        let sel = scan_best(data, prev.0, bucket_avg_ts(data, s, e), bucket_avg_val(data, s, e), offs, to).0;
        (sel, to, prev.2.push(data[sel]))
    }
}

/// The full downsample: the input itself when the threshold asks for nothing
/// or for at least everything, otherwise the first point, one selection per
/// interior bucket, and the last point.
pub open spec fn lttb_points(data: Seq<TSPoint>, t: int) -> Seq<TSPoint> {
    if t == 0 || t >= data.len() {
        data
    } else {
        lttb_state(data, t, t - 2).2.push(data.last())
    }
}

pub proof fn lemma_scan_best_range(data: Seq<TSPoint>, a: int, ats: int, av: u64, offs: int, j: int)
    requires
        offs <= j,
    ensures
        offs <= scan_best(data, a, ats, av, offs, j).0,
        scan_best(data, a, ats, av, offs, j).0 < j || scan_best(data, a, ats, av, offs, j).0
            == offs,
    decreases j - offs,
{
    if j > offs {
        lemma_scan_best_range(data, a, ats, av, offs, j - 1);
    }
}

pub proof fn lemma_lttb_state_ok(data: Seq<TSPoint>, t: int, i: int)
    requires
        2 < t < data.len(),
        0 <= i <= t - 2,
    ensures
        ({
            let st = lttb_state(data, t, i);
            let n = data.len() as int;
            &&& st.2.len() == i + 1
            &&& 0 <= st.0 <= n - 2
            &&& st.0 < st.1
            &&& 1 <= st.1 <= n - 2 - (t - 3 - i)
            &&& st.2[0] == data[0]
            &&& st.2.last() == data[st.0]
            &&& (sorted_by_ts(data) ==> sorted_by_ts(st.2))
            &&& (strictly_increasing_ts(data) ==> strictly_increasing_ts(st.2))
        }),
    decreases i,
{
    let n = data.len() as int;
    if i == 0 {
    } else {
        lemma_lttb_state_ok(data, t, i - 1);
        let prev = lttb_state(data, t, i - 1);
        let offs = sel_offs(n, t, i - 1, prev.1);
        let to = sel_to(n, t, i - 1, prev.1);
        let s = avg_start(n, t, i - 1);
        let e = avg_end(n, t, i - 1);
        lemma_scan_best_range(data, prev.0, bucket_avg_ts(data, s, e), bucket_avg_val(data, s, e), offs, to);
        let sel = scan_best(
            data,
            prev.0,
            bucket_avg_ts(data, s, e),
            bucket_avg_val(data, s, e),
            offs,
            to,
        ).0;
        let st = lttb_state(data, t, i);
        assert(st.0 == sel && st.1 == to && st.2 == prev.2.push(data[sel]));
        assert(prev.1 <= hi_lim(n, t, i - 1) - 1);
        assert(offs <= hi_lim(n, t, i - 1) - 1);
        assert(offs + 1 <= to <= hi_lim(n, t, i - 1));
        assert(offs <= sel < to);
        assert(prev.0 < prev.1 <= offs <= sel);
        if sorted_by_ts(data) {
            assert forall|k: int| 0 <= k < prev.2.len() implies prev.2[k].ts <= data[sel].ts by {
                assert(prev.2[k].ts <= prev.2.last().ts);
                assert(data[prev.0].ts <= data[sel].ts);
            }
            assert(sorted_by_ts(st.2));
        }
        if strictly_increasing_ts(data) {
            assert forall|k: int| 0 <= k < prev.2.len() implies prev.2[k].ts < data[sel].ts by {
                if k < prev.2.len() - 1 {
                    assert(prev.2[k].ts < prev.2.last().ts);
                }
                assert(data[prev.0].ts < data[sel].ts);
            }
            assert(strictly_increasing_ts(st.2));
        }
    }
}

/// Shape of a bucketed downsample: exactly `t` points, the input's endpoints
/// kept, and time order (strict time order, when the input's is strict)
/// preserved.
pub proof fn lemma_lttb_shape(data: Seq<TSPoint>, t: int)
    requires
        2 < t < data.len(),
    ensures
        lttb_points(data, t).len() == t,
        lttb_points(data, t)[0] == data[0],
        lttb_points(data, t).last() == data.last(),
        sorted_by_ts(data) ==> sorted_by_ts(lttb_points(data, t)),
        strictly_increasing_ts(data) ==> strictly_increasing_ts(lttb_points(data, t)),
{
    let n = data.len() as int;
    lemma_lttb_state_ok(data, t, t - 2);
    let st = lttb_state(data, t, t - 2);
    let out = lttb_points(data, t);
    assert(out == st.2.push(data[n - 1]));
    if sorted_by_ts(data) {
        assert forall|k: int| 0 <= k < st.2.len() implies st.2[k].ts <= data[n - 1].ts by {
            assert(st.2[k].ts <= st.2.last().ts);
            assert(data[st.0].ts <= data[n - 1].ts);
        }
        assert(sorted_by_ts(out));
    }
    if strictly_increasing_ts(data) {
        assert forall|k: int| 0 <= k < st.2.len() implies st.2[k].ts < data[n - 1].ts by {
            if k < st.2.len() - 1 {
                assert(st.2[k].ts < st.2.last().ts);
            }
            assert(data[st.0].ts < data[n - 1].ts);
        }
        assert(strictly_increasing_ts(out));
    }
}

/// Truncating division of a windowed timestamp sum by the window size.
fn div_trunc(sum: i128, cnt: usize) -> (r: i64)
    requires
        1 <= cnt,
        sum <= cnt * (i64::MAX as int),
        cnt * (i64::MIN as int) <= sum,
    ensures
        r as int == tdiv(sum as int, cnt as int),
{
    if sum >= 0 {
        let q: u128 = (sum as u128) / (cnt as u128);
        proof {
            lemma_div_is_ordered(sum as int, cnt * (i64::MAX as int), cnt as int);
            lemma_div_multiples_vanish(i64::MAX as int, cnt as int);
        }
        q as i64
    } else {
        let q: u128 = ((-sum) as u128) / (cnt as u128);
        proof {
            lemma_div_is_ordered(-(sum as int), cnt * (-(i64::MIN as int)), cnt as int);
            lemma_div_multiples_vanish(-(i64::MIN as int), cnt as int);
        }
        let qi: i128 = -(q as i128);
        qi as i64
    }
}

/// Largest-triangle-three-buckets downsample of a point sequence to
/// `threshold` points. With a threshold of zero or one at least the input's
/// size, the input passes through unchanged; thresholds of one or two (the
/// algorithm needs room for both endpoints and an interior bucket) are the
/// caller's to reject beforehand. Bucket boundaries are recomputed per
/// iteration in double precision; each bucket keeps the first candidate
/// maximizing the triangle area against the previous selection and the next
/// bucket's average point.
pub fn lttb(data: &Vec<TSPoint>, threshold: usize) -> (r: Vec<TSPoint>)
    requires
        threshold == 0 || threshold >= data@.len() || threshold > 2,
    ensures
        threshold == 0 || threshold >= data@.len() ==> r@ == data@,
        r@ == lttb_points(data@, threshold as int),
        2 < threshold < data@.len() ==> r@.len() == threshold && r@[0] == data@[0] && r@.last()
            == data@.last(),
        sorted_by_ts(data@) ==> sorted_by_ts(r@),
        strictly_increasing_ts(data@) ==> strictly_increasing_ts(r@),
{
    let n = data.len();
    if threshold >= n || threshold == 0 {
        let mut out: Vec<TSPoint> = Vec::new();
        let mut i: usize = 0;
        while i < n
            invariant
                i <= n,
                n == data@.len(),
                out@ == data@.take(i as int),
            decreases n - i,
        {
            out.push(data[i]);
            proof {
                assert(data@.take(i + 1) =~= data@.take(i as int).push(data@[i as int]));
            }
            i = i + 1;
        }
        proof {
            assert(data@.take(n as int) =~= data@);
        }
        return out;
    }
    let t = threshold;
    let ghost dn = data@.len() as int;
    let ghost dt = t as int;
    let every: u64 = fdiv(f_of_int((n - 2) as i128), f_of_int((t - 2) as i128));
    proof {
        assert(every == every_bits(dn, dt));
    }
    let mut out: Vec<TSPoint> = Vec::new();
    out.push(data[0]);
    let mut a: usize = 0;
    let mut lo: usize = 1;
    let mut i: usize = 0;
    proof {
        assert(out@ =~= seq![data@[0]]);
    }
    while i < t - 2
        invariant
            2 < t < n,
            n == data@.len(),
            i <= t - 2,
            every == every_bits(dn, dt),
            dn == data@.len() as int,
            dt == t as int,
            a as int == lttb_state(data@, dt, i as int).0,
            lo as int == lttb_state(data@, dt, i as int).1,
            out@ == lttb_state(data@, dt, i as int).2,
        decreases t - 2 - i,
    {
        proof {
            lemma_lttb_state_ok(data@, dt, i as int);
        }
        let hi: usize = n - 1 - (t - 3 - i);
        let r0: usize = f_to_usize(fmul(f_of_int(i as i128), every));
        let r1: usize = f_to_usize(fmul(f_of_int((i + 1) as i128), every));
        let r2: usize = f_to_usize(fmul(f_of_int((i + 2) as i128), every));
        let mut offs: usize = if r0 >= hi - 1 {
            hi - 1
        } else {
            r0 + 1
        };
        if offs < lo {
            offs = lo;
        }
        let mut to: usize = if r1 >= hi {
            hi
        } else {
            r1 + 1
        };
        if to < offs + 1 {
            to = offs + 1;
        }
        let avg_s: usize = if r1 >= n - 1 {
            n - 1
        } else {
            r1 + 1
        };
        let mut avg_e: usize = if r2 >= n {
            n
        } else {
            r2 + 1
        };
        if avg_e < avg_s + 1 {
            avg_e = avg_s + 1;
        }
        proof {
            assert(offs as int == sel_offs(dn, dt, i as int, lo as int));
            assert(to as int == sel_to(dn, dt, i as int, lo as int));
            assert(avg_s as int == avg_start(dn, dt, i as int));
            assert(avg_e as int == avg_end(dn, dt, i as int));
        }
        let mut ts_sum: i128 = 0;
        let mut vs: u64 = ZERO_BITS;
        let mut j: usize = avg_s;
        while j < avg_e
            invariant
                avg_s <= j <= avg_e,
                avg_e <= n,
                n == data@.len(),
                ts_sum == sum_ts(data@, avg_s as int, j as int),
                (j - avg_s) * (i64::MIN as int) <= ts_sum <= (j - avg_s) * (i64::MAX as int),
                vs == vsum_bits(data@, avg_s as int, j as int),
            decreases avg_e - j,
        {
            ts_sum = ts_sum + (data[j].ts as i128);
            vs = fadd(vs, data[j].val);
            j = j + 1;
        }
        let cnt: usize = avg_e - avg_s;
        let avg_ts: i64 = div_trunc(ts_sum, cnt);
        let av: u64 = fdiv(vs, f_of_int(cnt as i128));
        proof {
            assert(avg_ts as int == bucket_avg_ts(data@, avg_s as int, avg_e as int));
            assert(av == bucket_avg_val(data@, avg_s as int, avg_e as int));
        }
        let a_ts: i64 = data[a].ts;
        let a_v: u64 = data[a].val;
        let mut best: usize = offs;
        let mut barea: u64 = NEG_ONE_BITS;
        let mut k: usize = offs;
        while k < to
            invariant
                offs <= k <= to,
                to <= n,
                n == data@.len(),
                a < n,
                a_ts == data@[a as int].ts,
                a_v == data@[a as int].val,
                best as int == scan_best(
                    data@,
                    a as int,
                    avg_ts as int,
                    av,
                    offs as int,
                    k as int,
                ).0,
                barea == scan_best(data@, a as int, avg_ts as int, av, offs as int, k as int).1,
                best < n,
            decreases to - k,
        {
            let dx1: i128 = (a_ts as i128) - (avg_ts as i128);
            let t1: u64 = fmul(f_of_int(dx1), fsub(data[k].val, a_v));
            let dx2: i128 = (a_ts as i128) - (data[k].ts as i128);
            let t2: u64 = fmul(f_of_int(dx2), fsub(av, a_v));
            let ar: u64 = fmul(fabs(fsub(t1, t2)), HALF_BITS);
            proof {
                assert(ar == area_bits(data@, a as int, avg_ts as int, av, k as int));
            }
            if fgt(ar, barea) {
                barea = ar;
                best = k;
            }
            k = k + 1;
        }
        out.push(data[best]);
        a = best;
        lo = to;
        i = i + 1;
        proof {
            assert(a as int == lttb_state(data@, dt, i as int).0);
            assert(lo as int == lttb_state(data@, dt, i as int).1);
            assert(out@ == lttb_state(data@, dt, i as int).2);
        }
    }
    out.push(data[n - 1]);
    proof {
        lemma_lttb_shape(data@, dt);
    }
    out
}

/// Aggregation state for the visual downsampling transform.
#[derive(Clone, Debug)]
pub struct LttbTrans {
    pub series: ExplicitSeries,
    pub resolution: usize,
}

impl LttbTrans {
    pub open spec fn wf(&self) -> bool {
        &&& self.resolution > 2
        &&& self.series.wf()
    }
}

/// Row feed for the downsampling aggregate. A row with a missing value is
/// skipped silently; the first kept row creates the state, and that is where
/// a resolution too small for the bucket scheme (at most two) is rejected,
/// before any point is accumulated.
pub fn lttb_trans(
    state: Option<LttbTrans>,
    time: i64,
    val: Option<u64>,
    resolution: i32,
) -> (r: Result<Option<LttbTrans>, TsError>)
    requires
        state matches Some(st) ==> st.wf(),
    ensures
        val is None ==> r == Ok::<Option<LttbTrans>, TsError>(state),
        val is Some ==> (match state {
            None => (if resolution <= 2 {
                r == Err::<Option<LttbTrans>, TsError>(TsError::ConfigurationError)
            } else {
                r matches Ok(st2) && st2 matches Some(st) && st.resolution == resolution as usize
                    && st.series.ordered && st.series.points@ == seq![
                    TSPoint { ts: time, val: val.unwrap() },
                ]
            }),
            Some(st0) => r matches Ok(st2) && st2 matches Some(st) && st.resolution
                == st0.resolution && st.series.points@ == st0.series.points@.push(
                TSPoint { ts: time, val: val.unwrap() },
            ) && st.series.ordered == (st0.series.ordered && (st0.series.points@.len() == 0
                || st0.series.points@.last().ts <= time)),
        }),
        r matches Ok(Some(st)) ==> st.wf(),
{
    let v = match val {
        None => { return Ok(state) },
        Some(v) => v,
    };
    let mut st = match state {
        Some(st) => st,
        None => {
            if resolution <= 2 {
                return Err(TsError::ConfigurationError);
            }
            LttbTrans { series: ExplicitSeries::new_explicit_series(), resolution: resolution as usize }
        },
    };
    st.series.add_point(TSPoint { ts: time, val: v });
    Ok(Some(st))
}

/// Finalize the downsampling aggregate: sort the accumulated points once
/// (stable in arrival order) and downsample them to the configured
/// resolution. The state is consumed; a group that never saw a complete row
/// produces nothing.
pub fn lttb_final(state: Option<LttbTrans>) -> (r: Option<Vec<TSPoint>>)
    requires
        state matches Some(st) ==> st.wf(),
    ensures
        state is None ==> r is None,
        state matches Some(st) ==> (r matches Some(v) && v@ == lttb_points(
            sort_points(st.series.points@),
            st.resolution as int,
        )),
{
    let st = match state {
        None => { return None },
        Some(st) => st,
    };
    let mut series = st.series;
    series.sort();
    let out = lttb(&series.points, st.resolution);
    Some(out)
}

} // verus!

use vstd::prelude::verus;

verus! {

/// Order independence of the downsampling aggregate: accumulating the same
/// multiset of points in any arrival order and finalizing produces the same
/// output, provided no two points share a timestamp. (With a shared
/// timestamp the stable sort keeps arrival order, so two arrival orders can
/// put the duplicates' values in different places.)
pub proof fn lemma_lttb_order_independence(s1: Seq<TSPoint>, s2: Seq<TSPoint>, t: int)
    requires
        s1.to_multiset() == s2.to_multiset(),
        crate::series::distinct_ts(s1),
    ensures
        lttb_points(sort_points(s1), t) == lttb_points(sort_points(s2), t),
{
    crate::series::lemma_sort_points_props(s1);
    crate::series::lemma_sort_points_props(s2);
    crate::series::lemma_distinct_ts_multiset(s1, sort_points(s1));
    crate::series::lemma_distinct_ts_multiset(s1, sort_points(s2));
    crate::series::lemma_sorted_multiset_unique(sort_points(s1), sort_points(s2));
}

} // verus!

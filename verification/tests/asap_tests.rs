use downsample::asap::{
    asap_final, asap_smooth_raw, asap_trans, find_downsample_interval, ASAPTransState,
    GapfillMethod, Normalizer, Smoother,
};
use downsample::error::TsError;
use downsample::series::{ExplicitSeries, NormalSeries, TSPoint, TimeSeries};

/// Substitutable stand-in for the external normalization kernel: buckets of
/// the requested width starting at the first timestamp, value-averaged per
/// bucket, empty buckets filled by linear interpolation between their filled
/// neighbors (edges extended).
struct LinearNormalizer;

impl Normalizer for LinearNormalizer {
    fn normalize(
        &self,
        series: &ExplicitSeries,
        interval: i64,
        _method: GapfillMethod,
    ) -> Result<NormalSeries, TsError> {
        if interval <= 0 {
            return Err(TsError::InsufficientData);
        }
        let pts = &series.points;
        let start = pts[0].ts;
        let last = pts[pts.len() - 1].ts;
        let m = ((last - start) / interval) as usize;
        if m == 0 {
            return Err(TsError::InsufficientData);
        }
        let mut sums = vec![0f64; m];
        let mut counts = vec![0usize; m];
        for p in pts.iter() {
            let mut idx = ((p.ts - start) / interval) as usize;
            if idx >= m {
                idx = m - 1;
            }
            sums[idx] += f64::from_bits(p.val);
            counts[idx] += 1;
        }
        let filled: Vec<usize> = (0..m).filter(|&i| counts[i] > 0).collect();
        let mut values = vec![0f64; m];
        for i in 0..m {
            if counts[i] > 0 {
                values[i] = sums[i] / counts[i] as f64;
            }
        }
        for i in 0..m {
            if counts[i] == 0 {
                let prev = filled.iter().rev().find(|&&k| k < i);
                let next = filled.iter().find(|&&k| k > i);
                values[i] = match (prev, next) {
                    (Some(&a), Some(&b)) => {
                        let frac = (i - a) as f64 / (b - a) as f64;
                        values[a] + (values[b] - values[a]) * frac
                    },
                    (Some(&a), None) => values[a],
                    (None, Some(&b)) => values[b],
                    (None, None) => return Err(TsError::InsufficientData),
                };
            }
        }
        Ok(NormalSeries {
            start_ts: start,
            step_interval: interval,
            values: values.into_iter().map(|v| v.to_bits()).collect(),
        })
    }
}

/// Substitutable stand-in for the external adaptive smoothing kernel: a plain
/// moving average with a five-value window (shorter inputs pass through).
struct MovingAvgSmoother;

const WINDOW: usize = 5;

impl Smoother for MovingAvgSmoother {
    fn smooth(&self, values: &Vec<u64>, _resolution: i32) -> Vec<u64> {
        if values.len() < WINDOW {
            return values.clone();
        }
        let vals: Vec<f64> = values.iter().map(|&b| f64::from_bits(b)).collect();
        let mut out = Vec::new();
        for i in 0..vals.len() - WINDOW + 1 {
            let mean: f64 = vals[i..i + WINDOW].iter().sum::<f64>() / WINDOW as f64;
            out.push(mean.to_bits());
        }
        out
    }
}

fn feed(rows: &[(i64, f64)], resolution: i32) -> Option<ASAPTransState> {
    let mut st = None;
    for &(t, v) in rows {
        st = asap_trans(st, Some(t), Some(v.to_bits()), resolution).unwrap();
    }
    st
}

fn series_of(rows: &[(i64, f64)]) -> ExplicitSeries {
    let mut s = ExplicitSeries::new_explicit_series();
    for &(t, v) in rows {
        s.add_point(TSPoint { ts: t, val: v.to_bits() });
    }
    s
}

#[test]
fn interval_heuristic_uniform_spacing() {
    // Ten points spaced 5 apart, resolution 3: candidate (45 / 3) = 15, the
    // median gap is 5, and 15 is already a multiple of 5.
    let rows: Vec<(i64, f64)> = (0..10).map(|i| (5 * i as i64, 1.0)).collect();
    let r = find_downsample_interval(&series_of(&rows), 3);
    assert_eq!(r, Ok(15));
    // Resolution 4: candidate 45 / 4 = 11 truncates to the multiple 10.
    let r = find_downsample_interval(&series_of(&rows), 4);
    assert_eq!(r, Ok(10));
}

#[test]
fn interval_heuristic_median_takes_upper_middle() {
    // Gaps [1, 3]: even count, the element at index 1 of the sorted gaps (3)
    // is the median, not the average 2. Candidate 4 / 1 = 4 snaps to 3.
    let rows = [(0, 1.0), (1, 1.0), (4, 1.0)];
    let r = find_downsample_interval(&series_of(&rows), 1);
    assert_eq!(r, Ok(3));
}

#[test]
fn interval_heuristic_duplicate_timestamps_report() {
    // Gaps [0, 0, 1]: the median is 0, which cannot divide the candidate.
    let rows = [(1, 1.0), (1, 2.0), (1, 3.0), (2, 4.0)];
    let r = find_downsample_interval(&series_of(&rows), 1);
    assert_eq!(r, Err(TsError::InvariantViolation));
    let out = asap_final(feed(&rows, 1), &LinearNormalizer, &MovingAvgSmoother);
    assert!(matches!(out, Err(TsError::InvariantViolation)));
}

#[test]
fn sparse_zero_span_is_insufficient_data() {
    // Two points on one timestamp, resolution far above the point count: the
    // sparse branch picks interval 0 and normalization must refuse.
    let rows = [(7, 1.0), (7, 2.0)];
    let out = asap_final(feed(&rows, 5), &LinearNormalizer, &MovingAvgSmoother);
    assert!(matches!(out, Err(TsError::InsufficientData)));
}

#[test]
fn asap_trans_skips_missing_fields() {
    let st = feed(&[(1, 1.0), (2, 2.0)], 3).unwrap();
    let st = asap_trans(Some(st), None, Some(9.0f64.to_bits()), 3).unwrap().unwrap();
    let st = asap_trans(Some(st), Some(9), None, 3).unwrap().unwrap();
    match &st.ts {
        TimeSeries::Explicit(e) => assert_eq!(e.points.len(), 2),
        TimeSeries::Normal(_) => unreachable!(),
    }
    assert!(matches!(asap_trans(None, None, Some(1.0f64.to_bits()), 3), Ok(None)));
}

#[test]
fn asap_trans_rejects_unusable_resolution() {
    let r = asap_trans(None, Some(1), Some(1.0f64.to_bits()), 0);
    assert!(matches!(r, Err(TsError::ConfigurationError)));
    let r = asap_trans(None, Some(1), Some(1.0f64.to_bits()), -3);
    assert!(matches!(r, Err(TsError::ConfigurationError)));
}

#[test]
fn asap_final_empty_group() {
    let out = asap_final(None, &LinearNormalizer, &MovingAvgSmoother).unwrap();
    assert!(out.is_none());
}

#[test]
fn asap_final_rejects_normal_variant() {
    let st = ASAPTransState {
        ts: TimeSeries::Normal(NormalSeries { start_ts: 0, step_interval: 1, values: vec![0] }),
        resolution: 3,
    };
    let out = asap_final(Some(st), &LinearNormalizer, &MovingAvgSmoother);
    assert!(matches!(out, Err(TsError::InvariantViolation)));
}

#[test]
fn asap_smooth_raw_bounds_length() {
    let data: Vec<u64> = (0..10).map(|i| (i as f64).to_bits()).collect();
    let out = asap_smooth_raw(&MovingAvgSmoother, data.clone(), 4);
    assert_eq!(out.len(), 6);
    assert_eq!(f64::from_bits(out[0]), (0.0 + 1.0 + 2.0 + 3.0 + 4.0) / 5.0);
}

#[test]
fn asap_pipeline_rescales_to_cover_span() {
    // Ten uniform points, resolution 2: dense branch; candidate 9 / 2 = 4,
    // median gap 1, interval 4; the two normalized buckets lose one value to
    // the trim, one survives smoothing, and the step is rescaled to 4 * 1 / 1.
    let rows: Vec<(i64, f64)> = (0..10).map(|i| (i as i64, 1.5)).collect();
    let out = asap_final(feed(&rows, 2), &LinearNormalizer, &MovingAvgSmoother)
        .unwrap()
        .unwrap();
    assert_eq!(out.start_ts, 0);
    assert_eq!(out.step_interval, 4);
    assert_eq!(out.values.len(), 1);
    assert_eq!(f64::from_bits(out.values[0]), 1.5);
}

#[test]
fn asap_end_to_end_smoothing_scenario() {
    // 2961 points over days 0..=3000: a cosine ripple around 10, a gap over
    // days 1001..=1040, and a 2-unit dip over days 2001..=2200, smoothed at
    // resolution 100 with the stand-in kernels.
    let mut rows: Vec<(i64, f64)> = Vec::new();
    for day in 0..=3000i64 {
        if (1001..=1040).contains(&day) {
            continue;
        }
        let base = if (2001..=2200).contains(&day) { 8.0 } else { 10.0 };
        rows.push((day, base + 5.0 * (day as f64).cos()));
    }
    assert_eq!(rows.len(), 2961);
    let out = asap_final(feed(&rows, 100), &LinearNormalizer, &MovingAvgSmoother)
        .unwrap()
        .unwrap();
    // Dense branch: interval 3000 / 100 = 30 (median gap 1); 100 normalized
    // buckets, 99 after the trim, 95 after the five-wide smoothing window.
    assert_eq!(out.values.len(), 95);
    assert_eq!(out.start_ts, 0);
    assert_eq!(out.step_interval, 30 * 99 / 95);
    let v: Vec<f64> = out.values.iter().map(|&b| f64::from_bits(b)).collect();
    // Far from the gap and the dip the smoothed signal sits at 10.
    for &i in &[5usize, 20, 55, 85] {
        assert!((10.0 - v[i]).abs() < 0.05, "index {} value {}", i, v[i]);
    }
    // Windows straddling the thinly sampled gap buckets deviate visibly.
    let gap_dev = (29..=34).map(|i| (10.0f64 - v[i]).abs()).fold(0.0f64, f64::max);
    assert!(gap_dev > 0.1, "max deviation near the gap {}", gap_dev);
    // Inside the dip the signal is closer to 8 than to 10.
    for &i in &[68usize, 70] {
        assert!((10.0 - v[i]).abs() > (8.0 - v[i]).abs(), "index {} value {}", i, v[i]);
    }
}

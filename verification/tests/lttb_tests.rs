use downsample::error::TsError;
use downsample::lttb::{lttb, lttb_final, lttb_trans, LttbTrans};
use downsample::series::TSPoint;

fn pt(ts: i64, v: f64) -> TSPoint {
    TSPoint { ts, val: v.to_bits() }
}

fn val(p: &TSPoint) -> f64 {
    f64::from_bits(p.val)
}

/// Direct re-computation of the algorithm in plain double arithmetic, used to
/// cross-check the library (and so the bit-level primitives) end to end.
fn lttb_reference(data: &[(i64, f64)], threshold: usize) -> Vec<(i64, f64)> {
    if threshold >= data.len() || threshold == 0 {
        return data.to_vec();
    }
    let mut sampled = Vec::new();
    let every = ((data.len() - 2) as f64) / ((threshold - 2) as f64);
    let mut a = 0usize;
    sampled.push(data[a]);
    for i in 0..threshold - 2 {
        let mut avg_x = 0i64;
        let mut avg_y = 0f64;
        let avg_range_start = (((i + 1) as f64) * every) as usize + 1;
        let mut end = (((i + 2) as f64) * every) as usize + 1;
        if end >= data.len() {
            end = data.len();
        }
        let avg_range_length = (end - avg_range_start) as f64;
        for idx in avg_range_start..end {
            avg_x += data[idx].0;
            avg_y += data[idx].1;
        }
        avg_x /= avg_range_length as i64;
        avg_y /= avg_range_length;
        let range_offs = ((i as f64) * every) as usize + 1;
        let range_to = (((i + 1) as f64) * every) as usize + 1;
        let (point_a_x, point_a_y) = data[a];
        let mut max_area = -1f64;
        let mut next_a = range_offs;
        for idx in range_offs..range_to {
            let area = ((point_a_x - avg_x) as f64 * (data[idx].1 - point_a_y)
                - (point_a_x - data[idx].0) as f64 * (avg_y - point_a_y))
                .abs()
                * 0.5;
            if area > max_area {
                max_area = area;
                next_a = idx;
            }
        }
        sampled.push(data[next_a]);
        a = next_a;
    }
    sampled.push(data[data.len() - 1]);
    sampled
}

fn as_pairs(points: &[TSPoint]) -> Vec<(i64, f64)> {
    points.iter().map(|p| (p.ts, val(p))).collect()
}

fn from_pairs(pairs: &[(i64, f64)]) -> Vec<TSPoint> {
    pairs.iter().map(|&(t, v)| pt(t, v)).collect()
}

fn wavy(n: usize) -> Vec<(i64, f64)> {
    (0..n)
        .map(|i| (3 * i as i64 + (i as i64 % 2), 10.0 + 5.0 * ((i as f64) * 0.73).cos()))
        .collect()
}

#[test]
fn lttb_passthrough_threshold_zero() {
    let data = from_pairs(&wavy(12));
    let out = lttb(&data, 0);
    assert_eq!(out, data);
}

#[test]
fn lttb_passthrough_threshold_at_least_len() {
    let data = from_pairs(&wavy(12));
    assert_eq!(lttb(&data, 12), data);
    assert_eq!(lttb(&data, 50), data);
}

#[test]
fn lttb_worked_example() {
    // Timestamps 0..=4, values alternating 0 and 10, threshold 3: one
    // interior bucket holding indices 1..=3, averaged against point 4.
    let data = vec![pt(0, 0.0), pt(1, 10.0), pt(2, 0.0), pt(3, 10.0), pt(4, 0.0)];
    let out = lttb(&data, 3);
    assert_eq!(out.len(), 3);
    assert_eq!((out[0].ts, val(&out[0])), (0, 0.0));
    assert_eq!((out[2].ts, val(&out[2])), (4, 0.0));
    // Verify the interior choice by direct area computation: the average of
    // the next bucket is point (4, 0); areas against a = (0, 0):
    let avg = (4i64, 0.0f64);
    let mut best = 1usize;
    let mut max_area = -1f64;
    for idx in 1..4usize {
        let cand = (data[idx].ts, val(&data[idx]));
        let area = ((0 - avg.0) as f64 * (cand.1 - 0.0) - (0 - cand.0) as f64 * (avg.1 - 0.0))
            .abs()
            * 0.5;
        if area > max_area {
            max_area = area;
            best = idx;
        }
    }
    assert_eq!(out[1], data[best]);
    assert_eq!((out[1].ts, val(&out[1])), (1, 10.0));
}

#[test]
fn lttb_shape_endpoints_and_order() {
    let pairs = wavy(37);
    let data = from_pairs(&pairs);
    let out = lttb(&data, 7);
    assert_eq!(out.len(), 7);
    assert_eq!(out[0], data[0]);
    assert_eq!(out[6], data[36]);
    for w in out.windows(2) {
        assert!(w[0].ts < w[1].ts);
    }
}

#[test]
fn lttb_matches_direct_computation() {
    for &n in &[5usize, 9, 24, 100] {
        let pairs = wavy(n);
        let data = from_pairs(&pairs);
        for &t in &[3usize, 4, 5, 7, 23] {
            if t >= n {
                continue;
            }
            let out = as_pairs(&lttb(&data, t));
            let expect = lttb_reference(&pairs, t);
            assert_eq!(out, expect);
        }
    }
}

#[test]
fn lttb_trans_rejects_small_resolution() {
    let r = lttb_trans(None, 10, Some(1.5f64.to_bits()), 2);
    assert!(matches!(r, Err(TsError::ConfigurationError)));
    let r = lttb_trans(None, 10, Some(1.5f64.to_bits()), 0);
    assert!(matches!(r, Err(TsError::ConfigurationError)));
    let r = lttb_trans(None, 10, Some(1.5f64.to_bits()), 3).unwrap().unwrap();
    assert_eq!(r.series.points.len(), 1);
    assert_eq!(r.resolution, 3);
}

#[test]
fn lttb_trans_skips_missing_value() {
    let st = lttb_trans(None, 1, Some(2.0f64.to_bits()), 5).unwrap();
    let st2 = lttb_trans(st, 7, None, 5).unwrap().unwrap();
    assert_eq!(st2.series.points.len(), 1);
    // A missing value before any state exists keeps the state absent even
    // with an unusable resolution: nothing is validated, nothing accumulated.
    assert!(matches!(lttb_trans(None, 7, None, 1), Ok(None)));
}

#[test]
fn lttb_final_empty_group() {
    assert!(lttb_final(None).is_none());
}

fn feed(rows: &[(i64, f64)], resolution: i32) -> Option<LttbTrans> {
    let mut st = None;
    for &(t, v) in rows {
        st = lttb_trans(st, t, Some(v.to_bits()), resolution).unwrap();
    }
    st
}

#[test]
fn lttb_final_sorts_before_downsampling() {
    let st = feed(&[(5, 1.0), (1, 2.0), (3, 4.0)], 5);
    let out = lttb_final(st).unwrap();
    assert_eq!(as_pairs(&out), vec![(1, 2.0), (3, 4.0), (5, 1.0)]);
}

#[test]
fn lttb_final_stable_sort_keeps_arrival_order_of_ties() {
    let st = feed(&[(5, 1.0), (5, 2.0), (3, 0.5)], 5);
    let out = lttb_final(st).unwrap();
    assert_eq!(as_pairs(&out), vec![(3, 0.5), (5, 1.0), (5, 2.0)]);
}

#[test]
fn lttb_order_independence_for_distinct_timestamps() {
    let rows: Vec<(i64, f64)> = wavy(20);
    let mut reordered = rows.clone();
    reordered.reverse();
    reordered.swap(2, 11);
    let out1 = lttb_final(feed(&rows, 6)).unwrap();
    let out2 = lttb_final(feed(&reordered, 6)).unwrap();
    assert_eq!(out1, out2);
}

use vstd::multiset::Multiset;
use vstd::prelude::*;

verus! {

/// One time-series sample: a timestamp in a monotonic integer unit, and the
/// sample's measurement carried as the 64 bits of its machine encoding. The
/// library never interprets measurement bits itself; every arithmetic step on
/// them goes through the trusted primitives in `fbits`.
#[derive(Clone, Copy, Debug, PartialEq, Eq, Structural)]
pub struct TSPoint {
    pub ts: i64,
    pub val: u64,
}

/// Point list with explicit, possibly irregular timestamps. `ordered` is an
/// optimization flag: it is kept true only while every appended point has a
/// timestamp at least as large as its predecessor's, which lets `sort` skip
/// its pass when the caller already delivered points in time order.
#[derive(Clone, Debug)]
pub struct ExplicitSeries {
    pub ordered: bool,
    pub points: Vec<TSPoint>,
}

/// Series implicitly defined by a start time and a fixed positive step:
/// `values[i]` sits at `start_ts + i * step_interval`.
#[derive(Clone, Debug)]
pub struct NormalSeries {
    pub start_ts: i64,
    pub step_interval: i64,
    pub values: Vec<u64>,
}

/// Tagged union over the two series shapes. Every consumer matches on it
/// exhaustively; an unexpected variant is reported as an invariant violation,
/// never coerced.
#[derive(Clone, Debug)]
pub enum TimeSeries {
    Explicit(ExplicitSeries),
    Normal(NormalSeries),
}

/// Non-decreasing by timestamp.
pub open spec fn sorted_by_ts(s: Seq<TSPoint>) -> bool {
    forall|i: int, j: int| 0 <= i < j < s.len() ==> s[i].ts <= s[j].ts
}

/// Where a stable insertion places `p`: after every element whose timestamp
/// is at most `p.ts`, before the trailing run of strictly larger timestamps.
pub open spec fn insert_point(s: Seq<TSPoint>, p: TSPoint) -> Seq<TSPoint>
    decreases s.len(),
{
    if s.len() == 0 {
        seq![p]
    } else if p.ts < s.last().ts {
        insert_point(s.drop_last(), p).push(s.last())
    } else {
        s.push(p)
    }
}

/// The stable sort by timestamp: points with equal timestamps keep their
/// original arrival order, the documented tie-break policy of the finalize
/// step.
pub open spec fn sort_points(s: Seq<TSPoint>) -> Seq<TSPoint>
    decreases s.len(),
{
    if s.len() == 0 {
        Seq::empty()
    } else {
        insert_point(sort_points(s.drop_last()), s.last())
    }
}

pub proof fn lemma_insert_point_multiset(s: Seq<TSPoint>, p: TSPoint)
    ensures
        insert_point(s, p).len() == s.len() + 1,
        insert_point(s, p).to_multiset() == s.to_multiset().insert(p),
    decreases s.len(),
{
    broadcast use vstd::seq_lib::group_to_multiset_ensures;

    if s.len() == 0 {
        assert(seq![p] =~= Seq::<TSPoint>::empty().push(p));
        assert(Seq::<TSPoint>::empty().push(p).to_multiset() =~= Multiset::<
            TSPoint,
        >::empty().insert(p));
        assert(s.to_multiset() =~= Multiset::<TSPoint>::empty());
    } else if p.ts < s.last().ts {
        lemma_insert_point_multiset(s.drop_last(), p);
        assert(s =~= s.drop_last().push(s.last()));
        assert(s.to_multiset() =~= s.drop_last().to_multiset().insert(s.last()));
        assert(insert_point(s.drop_last(), p).push(s.last()).to_multiset() =~= insert_point(
            s.drop_last(),
            p,
        ).to_multiset().insert(s.last()));
        assert(s.drop_last().to_multiset().insert(p).insert(s.last()) =~= s.drop_last()
            .to_multiset()
            .insert(s.last())
            .insert(p));
    } else {
        assert(s.push(p).to_multiset() =~= s.to_multiset().insert(p));
    }
}

pub proof fn lemma_insert_point_sorted(s: Seq<TSPoint>, p: TSPoint)
    requires
        sorted_by_ts(s),
    ensures
        sorted_by_ts(insert_point(s, p)),
    decreases s.len(),
{
    broadcast use vstd::seq_lib::group_to_multiset_ensures;

    if s.len() == 0 {
    } else if p.ts < s.last().ts {
        let t = insert_point(s.drop_last(), p);
        lemma_insert_point_sorted(s.drop_last(), p);
        lemma_insert_point_multiset(s.drop_last(), p);
        assert forall|i: int| 0 <= i < t.len() implies t[i].ts <= s.last().ts by {
            assert(t.contains(t[i]));
            assert(t.to_multiset().count(t[i]) > 0);
            if t[i] != p {
                assert(s.drop_last().to_multiset().count(t[i]) > 0);
                assert(s.drop_last().contains(t[i]));
                let k = choose|k: int| 0 <= k < s.drop_last().len() && s.drop_last()[k] == t[i];
                assert(s[k].ts <= s.last().ts);
            }
        }
        assert(sorted_by_ts(t.push(s.last())));
    } else {
        assert(forall|i: int| 0 <= i < s.len() ==> s[i].ts <= s.last().ts);
        assert(sorted_by_ts(s.push(p)));
    }
}

pub proof fn lemma_sort_points_props(s: Seq<TSPoint>)
    ensures
        sort_points(s).len() == s.len(),
        sort_points(s).to_multiset() == s.to_multiset(),
        sorted_by_ts(sort_points(s)),
    decreases s.len(),
{
    broadcast use vstd::seq_lib::group_to_multiset_ensures;

    if s.len() == 0 {
        assert(s.to_multiset() =~= Seq::<TSPoint>::empty().to_multiset());
    } else {
        lemma_sort_points_props(s.drop_last());
        lemma_insert_point_multiset(sort_points(s.drop_last()), s.last());
        lemma_insert_point_sorted(sort_points(s.drop_last()), s.last());
        assert(s =~= s.drop_last().push(s.last()));
        assert(s.to_multiset() =~= s.drop_last().to_multiset().insert(s.last()));
    }
}

/// Sorting an already sorted sequence leaves it unchanged, so the `ordered`
/// fast path and the sorting path agree.
pub proof fn lemma_sort_points_of_sorted(s: Seq<TSPoint>)
    requires
        sorted_by_ts(s),
    ensures
        sort_points(s) == s,
    decreases s.len(),
{
    if s.len() == 0 {
        assert(sort_points(s) =~= s);
    } else {
        assert(sorted_by_ts(s.drop_last()));
        lemma_sort_points_of_sorted(s.drop_last());
        if s.len() == 1 {
            assert(insert_point(s.drop_last(), s.last()) =~= seq![s.last()]);
            assert(seq![s.last()] =~= s);
        } else {
            assert(s.drop_last().last().ts <= s.last().ts);
            assert(insert_point(s.drop_last(), s.last()) =~= s.drop_last().push(s.last()));
            assert(s.drop_last().push(s.last()) =~= s);
        }
    }
}

proof fn lemma_insert_point_at(s: Seq<TSPoint>, p: TSPoint, k: int)
    requires
        0 <= k <= s.len(),
        forall|m: int| k <= m < s.len() ==> s[m].ts > p.ts,
        k > 0 ==> s[k - 1].ts <= p.ts,
    ensures
        insert_point(s, p) == s.insert(k, p),
    decreases s.len(),
{
    if s.len() == 0 {
        assert(insert_point(s, p) =~= s.insert(0, p));
    } else if k == s.len() {
        assert(insert_point(s, p) =~= s.insert(k, p));
    } else {
        assert(s[s.len() - 1].ts > p.ts);
        lemma_insert_point_at(s.drop_last(), p, k);
        assert(insert_point(s.drop_last(), p).push(s.last()) =~= s.drop_last().insert(
            k,
            p,
        ).push(s.last()));
        assert(s.drop_last().insert(k, p).push(s.last()) =~= s.insert(k, p));
    }
}

/// No two points share a timestamp.
pub open spec fn distinct_ts(s: Seq<TSPoint>) -> bool {
    forall|i: int, j: int| 0 <= i < j < s.len() ==> s[i].ts != s[j].ts
}

/// Timestamp distinctness is a property of the multiset of points alone.
pub proof fn lemma_distinct_ts_multiset(a: Seq<TSPoint>, b: Seq<TSPoint>)
    requires
        a.to_multiset() == b.to_multiset(),
        distinct_ts(a),
    ensures
        distinct_ts(b),
{
    broadcast use vstd::seq_lib::group_to_multiset_ensures;

    assert forall|i: int, j: int| 0 <= i < j < b.len() implies b[i].ts != b[j].ts by {
        if b[i].ts == b[j].ts {
            if b[i] == b[j] {
                let e = b[i];
                assert(b.remove(j).to_multiset() =~= b.to_multiset().remove(e));
                assert(b.remove(j)[i] == e);
                assert(b.remove(j).contains(e));
                assert(b.remove(j).to_multiset().count(e) > 0);
                assert(a.to_multiset().count(e) >= 2);
                assert(a.contains(e));
                let k = choose|k: int| 0 <= k < a.len() && a[k] == e;
                assert(a.remove(k).to_multiset() =~= a.to_multiset().remove(e));
                assert(a.remove(k).to_multiset().count(e) > 0);
                assert(a.remove(k).contains(e));
                let l = choose|l: int| 0 <= l < a.remove(k).len() && a.remove(k)[l] == e;
                if l < k {
                    assert(a[l] == e && a[k as int] == e);
                } else {
                    assert(a[l + 1] == e && a[k as int] == e);
                }
                assert(false);
            } else {
                assert(b.contains(b[i]) && b.contains(b[j]));
                assert(a.to_multiset().count(b[i]) > 0 && a.to_multiset().count(b[j]) > 0);
                assert(a.contains(b[i]) && a.contains(b[j]));
                let k = choose|k: int| 0 <= k < a.len() && a[k] == b[i];
                let l = choose|l: int| 0 <= l < a.len() && a[l] == b[j];
                assert(k != l);
                assert(false);
            }
        }
    }
}

/// A timestamp-sorted sequence without duplicate timestamps is determined by
/// its multiset of points.
pub proof fn lemma_sorted_multiset_unique(x: Seq<TSPoint>, y: Seq<TSPoint>)
    requires
        sorted_by_ts(x),
        sorted_by_ts(y),
        distinct_ts(x),
        distinct_ts(y),
        x.to_multiset() == y.to_multiset(),
    ensures
        x == y,
    decreases x.len(),
{
    broadcast use vstd::seq_lib::group_to_multiset_ensures;

    if x.len() == 0 {
        assert(y.to_multiset().len() == 0);
        assert(x =~= y);
    } else {
        assert(x.contains(x[0]));
        assert(y.to_multiset().count(x[0]) > 0);
        assert(y.contains(x[0]));
        let i = choose|i: int| 0 <= i < y.len() && y[i] == x[0];
        assert(y.contains(y[0]));
        assert(x.to_multiset().count(y[0]) > 0);
        assert(x.contains(y[0]));
        let j = choose|j: int| 0 <= j < x.len() && x[j] == y[0];
        assert(y[0].ts <= y[i].ts);
        assert(x[0].ts <= x[j].ts);
        if i != 0 {
            assert(y[0].ts != y[i].ts);
            assert(false);
        }
        assert(y[0] == x[0]);
        assert(x.drop_first() =~= x.remove(0));
        assert(y.drop_first() =~= y.remove(0));
        assert(x.remove(0).to_multiset() =~= x.to_multiset().remove(x[0]));
        assert(y.remove(0).to_multiset() =~= y.to_multiset().remove(y[0]));
        assert(forall|k: int| 0 <= k < x.len() - 1 ==> #[trigger] x.drop_first()[k] == x[k + 1]);
        assert(forall|k: int| 0 <= k < y.len() - 1 ==> #[trigger] y.drop_first()[k] == y[k + 1]);
        assert(sorted_by_ts(x.drop_first()));
        assert(sorted_by_ts(y.drop_first()));
        assert(distinct_ts(x.drop_first()));
        assert(distinct_ts(y.drop_first()));
        lemma_sorted_multiset_unique(x.drop_first(), y.drop_first());
        assert forall|k: int| 0 <= k < x.len() implies x[k] == y[k] by {
            if k > 0 {
                assert(x.drop_first()[k - 1] == y.drop_first()[k - 1]);
            }
        }
        assert(x =~= y);
    }
}

/// Stable insertion of one point into a timestamp-sorted prefix.
fn insert_by_ts(v: &mut Vec<TSPoint>, p: TSPoint)
    ensures
        final(v)@ == insert_point(old(v)@, p),
{
    let mut k: usize = v.len();
    while k > 0 && v[k - 1].ts > p.ts
        invariant
            k <= v@.len(),
            v@ == old(v)@,
            forall|m: int| k <= m < v@.len() ==> v@[m].ts > p.ts,
        decreases k,
    {
        k = k - 1;
    }
    proof {
        lemma_insert_point_at(v@, p, k as int);
    }
    v.insert(k, p);
}

/// Stable insertion sort of a point vector, ascending by timestamp.
pub fn sort_points_vec(v: &mut Vec<TSPoint>)
    ensures
        final(v)@ == sort_points(old(v)@),
{
    let n = v.len();
    let mut out: Vec<TSPoint> = Vec::new();
    let mut i: usize = 0;
    while i < n
        invariant
            i <= n,
            n == v@.len(),
            v@ == old(v)@,
            out@ == sort_points(v@.take(i as int)),
        decreases n - i,
    {
        let ghost pre = v@.take(i as int);
        insert_by_ts(&mut out, v[i]);
        proof {
            assert(v@.take(i + 1).drop_last() =~= pre);
            assert(v@.take(i + 1).last() == v@[i as int]);
        }
        i = i + 1;
    }
    proof {
        assert(v@.take(n as int) =~= v@);
    }
    *v = out;
}

impl ExplicitSeries {
    /// The `ordered` flag is honest: when set, the points really are sorted.
    pub open spec fn wf(&self) -> bool {
        self.ordered ==> sorted_by_ts(self.points@)
    }

    /// A fresh, empty explicit series; trivially in time order.
    pub fn new_explicit_series() -> (r: ExplicitSeries)
        ensures
            r.ordered,
            r.points@ =~= Seq::<TSPoint>::empty(),
            r.wf(),
    {
        ExplicitSeries { ordered: true, points: Vec::new() }
    }

    /// Append one point in O(1); no dedup, no reordering. The `ordered` flag
    /// survives exactly when the new timestamp does not move backwards.
    pub fn add_point(&mut self, p: TSPoint)
        requires
            old(self).wf(),
        ensures
            final(self).points@ == old(self).points@.push(p),
            final(self).ordered == (old(self).ordered && (old(self).points@.len() == 0 || old(
                self,
            ).points@.last().ts <= p.ts)),
            final(self).wf(),
    {
        let keep = self.points.len() == 0 || self.points[self.points.len() - 1].ts <= p.ts;
        self.ordered = self.ordered && keep;
        self.points.push(p);
    }

    /// Sort ascending by timestamp, exactly once, at finalize time. The sort
    /// is stable: equal timestamps keep arrival order. When the points were
    /// fed already ordered the pass is skipped; the result is the same.
    pub fn sort(&mut self)
        requires
            old(self).wf(),
        ensures
            final(self).points@ == sort_points(old(self).points@),
            final(self).ordered,
            final(self).wf(),
    {
        if !self.ordered {
            sort_points_vec(&mut self.points);
            self.ordered = true;
        } else {
            proof {
                lemma_sort_points_of_sorted(self.points@);
            }
        }
        proof {
            lemma_sort_points_props(old(self).points@);
        }
    }
}

impl NormalSeries {
    /// The step between grid positions is strictly positive.
    pub open spec fn wf(&self) -> bool {
        self.step_interval > 0
    }
}

} // verus!

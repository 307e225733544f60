//! Bounded retention of per-home telemetry, and the plan by which retained
//! samples become bucket aggregates: which samples fall in a window, and how
//! one-minute rollups group into coarser buckets aligned to the bucket width
//! (five-minute settlement intervals among them). The sums and means over
//! measured values are taken by the caller along that plan.

use std::collections::VecDeque;
use vstd::prelude::*;

verus! {

/// The newest `cap` items of `s`, oldest first.
pub open spec fn keep_last<T>(s: Seq<T>, cap: nat) -> Seq<T> {
    if s.len() > cap {
        s.subrange(s.len() - cap, s.len() as int)
    } else {
        s
    }
}

/// What a ring of capacity `cap` holding `r` holds after `xs` is pushed
/// into it one item at a time.
pub open spec fn push_all<T>(r: Seq<T>, xs: Seq<T>, cap: nat) -> Seq<T>
    decreases xs.len(),
{
    if xs.len() == 0 {
        r
    } else {
        push_all(keep_last(r.push(xs[0]), cap), xs.subrange(1, xs.len() as int), cap)
    }
}

proof fn lemma_keep_last_push<T>(s: Seq<T>, x: T, cap: nat)
    ensures
        keep_last(keep_last(s, cap).push(x), cap) == keep_last(s.push(x), cap),
{
    if s.len() > cap {
        assert(keep_last(keep_last(s, cap).push(x), cap) =~= keep_last(s.push(x), cap));
    }
}

/// A ring keeps exactly the newest `cap` items of everything ever pushed
/// into it: pushing `xs` into a ring that holds the newest `cap` of `s`
/// leaves the newest `cap` of `s` followed by `xs`.
pub proof fn law_ring_keeps_newest<T>(s: Seq<T>, xs: Seq<T>, cap: nat)
    ensures
        push_all(keep_last(s, cap), xs, cap) == keep_last(s + xs, cap),
    decreases xs.len(),
{
    if xs.len() == 0 {
        assert(s + xs =~= s);
    } else {
        let rest = xs.subrange(1, xs.len() as int);
        lemma_keep_last_push(s, xs[0], cap);
        law_ring_keeps_newest(s.push(xs[0]), rest, cap);
        assert(s.push(xs[0]) + rest =~= s + xs);
    }
}

/// A first-in first-out buffer that keeps only its newest items, up to a
/// capacity fixed when it is made.
pub struct Ring<T> {
    items: VecDeque<T>,
    cap: usize,
}

impl<T> View for Ring<T> {
    type V = Seq<T>;

    closed spec fn view(&self) -> Seq<T> {
        self.items@
    }
}

impl<T> Ring<T> {
    /// The capacity the ring was made with.
    pub closed spec fn limit(&self) -> nat {
        self.cap as nat
    }

    /// An empty ring that keeps at most `cap` items.
    pub fn new(cap: usize) -> (r: Self)
        ensures
            r@ == Seq::<T>::empty(),
            r.limit() == cap,
    {
        Ring { items: VecDeque::new(), cap }
    }

    /// Appends `x`, dropping the oldest items beyond the capacity.
    pub fn push(&mut self, x: T)
        ensures
            final(self)@ == keep_last(old(self)@.push(x), old(self).limit()),
            final(self).limit() == old(self).limit(),
            final(self)@.len() <= final(self).limit(),
    {
        let ghost full = self.items@.push(x);
        let ghost cap0 = self.cap;
        self.items.push_back(x);
        let ghost mut d: int = 0;
        while self.items.len() > self.cap
            invariant
                0 <= d <= full.len(),
                self.items@ == full.subrange(d, full.len() as int),
                d == 0 || self.items@.len() >= self.cap,
                self.cap == cap0,
            decreases self.items@.len(),
        {
            self.items.pop_front();
            proof {
                d = d + 1;
            }
        }
        proof {
            if d == 0 {
                assert(full.subrange(0, full.len() as int) =~= full);
            }
        }
    }

    /// Number of items held.
    pub fn len(&self) -> (n: usize)
        ensures
            n == self@.len(),
    {
        self.items.len()
    }

    /// The `i`-th item held, oldest first.
    pub fn get(&self, i: usize) -> (r: &T)
        requires
            i < self@.len(),
        ensures
            *r == self@[i as int],
    {
        &self.items[i]
    }

    /// The newest item, if any.
    pub fn last(&self) -> (r: Option<&T>)
        ensures
            match r {
                Some(x) => self@.len() > 0 && *x == self@.last(),
                None => self@.len() == 0,
            },
    {
        let n = self.items.len();
        if n == 0 {
            None
        } else {
            Some(&self.items[n - 1])
        }
    }

    /// Drops every item; the capacity stays.
    pub fn clear(&mut self)
        ensures
            final(self)@ == Seq::<T>::empty(),
            final(self).limit() == old(self).limit(),
    {
        self.items.clear();
    }
}

/// Start of the one-minute rollup that a sample taken at `unix` belongs to.
pub open spec fn minute_of(unix: int) -> int {
    unix / 60 * 60
}

/// Start of the `width`-second bucket that time `t` falls in.
pub open spec fn aligned(t: int, width: int) -> int {
    t / width * width
}

/// What a new sample does to the open one-minute rollup.
#[derive(Debug, Clone, Copy, PartialEq, Eq)]
pub enum MinuteStep {
    /// The sample falls in the open minute: fold it in.
    Extend,
    /// The sample starts a later minute: close the open one and open this.
    Roll(u64),
    /// No minute is open yet: open this one with the sample.
    Open(u64),
}

/// Decides how a sample at `unix` enters the rollups, given the start of
/// the open minute, if there is one.
pub fn minute_step(open_start: Option<u64>, unix: u64) -> (r: MinuteStep)
    ensures
        r == (match open_start {
            Some(s) => if s == minute_of(unix as int) {
                MinuteStep::Extend
            } else {
                MinuteStep::Roll(minute_of(unix as int) as u64)
            },
            None => MinuteStep::Open(minute_of(unix as int) as u64),
        }),
{
    let m = unix / 60 * 60;
    match open_start {
        Some(s) => if s == m {
            MinuteStep::Extend
        } else {
            MinuteStep::Roll(m)
        },
        None => MinuteStep::Open(m),
    }
}

/// Whether time `t` lies in the half-open window `[from, to)`.
pub open spec fn in_window(t: u64, from: u64, to: u64) -> bool {
    from <= t && t < to
}

/// The indices among the first `k` sample times that lie in the window,
/// in order.
pub open spec fn window_prefix(times: Seq<u64>, from: u64, to: u64, k: int) -> Seq<usize>
    decreases k,
{
    if k <= 0 {
        Seq::empty()
    } else {
        let p = window_prefix(times, from, to, k - 1);
        if in_window(times[k - 1], from, to) {
            p.push((k - 1) as usize)
        } else {
            p
        }
    }
}

/// Whether minute `j` is in the window and holds at least one sample.
pub open spec fn minute_live(starts: Seq<u64>, counts: Seq<u32>, from: u64, to: u64, j: int) -> bool {
    in_window(starts[j], from, to) && counts[j] > 0
}

/// The indices among the first `k` minutes that are live, in order.
pub open spec fn live_prefix(starts: Seq<u64>, counts: Seq<u32>, from: u64, to: u64, k: int) -> Seq<usize>
    decreases k,
{
    if k <= 0 {
        Seq::empty()
    } else {
        let p = live_prefix(starts, counts, from, to, k - 1);
        if minute_live(starts, counts, from, to, k - 1) {
            p.push((k - 1) as usize)
        } else {
            p
        }
    }
}

/// The buckets that the first `k` minutes fold into: each live minute joins
/// the last bucket when its aligned start matches that bucket's start, and
/// opens a new bucket otherwise.
pub open spec fn fold_prefix(
    starts: Seq<u64>,
    counts: Seq<u32>,
    from: u64,
    to: u64,
    width: u64,
    k: int,
) -> Seq<(u64, Seq<usize>)>
    decreases k,
{
    if k <= 0 {
        Seq::empty()
    } else {
        let p = fold_prefix(starts, counts, from, to, width, k - 1);
        if !minute_live(starts, counts, from, to, k - 1) {
            p
        } else {
            let a = aligned(starts[k - 1] as int, width as int) as u64;
            if p.len() > 0 && p.last().0 == a {
                p.update(p.len() - 1, (a, p.last().1.push((k - 1) as usize)))
            } else {
                p.push((a, seq![(k - 1) as usize]))
            }
        }
    }
}

/// One bucket of a folded plan: its aligned start and the minutes in it.
#[derive(Debug, Clone, PartialEq, Eq)]
pub struct BucketGroup {
    pub start_unix: u64,
    /// Indices into the minute list, oldest first.
    pub members: Vec<usize>,
}

/// A sequence of buckets as starts and member indices.
pub open spec fn groups_view(g: Seq<BucketGroup>) -> Seq<(u64, Seq<usize>)> {
    Seq::new(g.len(), |j: int| (g[j].start_unix, g[j].members@))
}

/// How a home's buckets over a window are made from what it retains.
#[derive(Debug, Clone, PartialEq, Eq)]
pub enum BucketPlan {
    /// One bucket per raw sample: the indices of the samples in the window.
    RawSamples(Vec<usize>),
    /// One bucket per live minute: the indices of those minutes.
    Minutes(Vec<usize>),
    /// Buckets wider than a minute, each the mean of its minutes.
    Folded(Vec<BucketGroup>),
}

/// The indices of the sample times that lie in `[from, to)`.
pub fn samples_in_window(times: &Vec<u64>, from: u64, to: u64) -> (r: Vec<usize>)
    ensures
        r@ == window_prefix(times@, from, to, times@.len() as int),
{
    let mut out: Vec<usize> = Vec::new();
    let mut i: usize = 0;
    while i < times.len()
        invariant
            i <= times.len(),
            out@ == window_prefix(times@, from, to, i as int),
        decreases times.len() - i,
    {
        if from <= times[i] && times[i] < to {
            out.push(i);
        }
        i += 1;
    }
    out
}

/// The indices of the minutes that lie in `[from, to)` and hold a sample.
pub fn live_minutes(starts: &Vec<u64>, counts: &Vec<u32>, from: u64, to: u64) -> (r: Vec<usize>)
    requires
        starts.len() == counts.len(),
    ensures
        r@ == live_prefix(starts@, counts@, from, to, starts@.len() as int),
{
    let mut out: Vec<usize> = Vec::new();
    let mut i: usize = 0;
    while i < starts.len()
        invariant
            i <= starts.len(),
            starts.len() == counts.len(),
            out@ == live_prefix(starts@, counts@, from, to, i as int),
        decreases starts.len() - i,
    {
        if from <= starts[i] && starts[i] < to && counts[i] > 0 {
            out.push(i);
        }
        i += 1;
    }
    out
}

/// Groups the live minutes into buckets `width` seconds wide, aligned to
/// multiples of `width`.
pub fn fold_minutes(starts: &Vec<u64>, counts: &Vec<u32>, from: u64, to: u64, width: u64) -> (r: Vec<BucketGroup>)
    requires
        starts.len() == counts.len(),
        width > 0,
    ensures
        groups_view(r@) == fold_prefix(starts@, counts@, from, to, width, starts@.len() as int),
{
    let mut out: Vec<BucketGroup> = Vec::new();
    let mut i: usize = 0;
    while i < starts.len()
        invariant
            i <= starts.len(),
            starts.len() == counts.len(),
            width > 0,
            groups_view(out@) == fold_prefix(starts@, counts@, from, to, width, i as int),
        decreases starts.len() - i,
    {
        let s = starts[i];
        if from <= s && s < to && counts[i] > 0 {
            assert(s / width * width <= s) by (nonlinear_arith)
                requires
                    width > 0,
            ;
            let a = s / width * width;
            proof {
                assert(a == aligned(s as int, width as int));
            }
            let n = out.len();
            if n > 0 && out[n - 1].start_unix == a {
                let ghost before = groups_view(out@);
                let mut g = out.pop().unwrap();
                g.members.push(i);
                out.push(g);
                proof {
                    assert(groups_view(out@) =~= before.update(
                        before.len() - 1,
                        (a, before.last().1.push(i)),
                    ));
                }
            } else {
                let ghost before = groups_view(out@);
                let mut m: Vec<usize> = Vec::new();
                m.push(i);
                out.push(BucketGroup { start_unix: a, members: m });
                proof {
                    assert(groups_view(out@) =~= before.push((a, seq![i])));
                }
            }
        }
        i += 1;
    }
    out
}

/// Plans a home's buckets over `[from, to)` at a resolution of `bucket_s`
/// seconds: raw samples at one second, live minutes up to a minute, and
/// aligned folds of live minutes beyond that.
pub fn plan_home_buckets(
    sample_times: &Vec<u64>,
    minute_starts: &Vec<u64>,
    minute_counts: &Vec<u32>,
    from: u64,
    to: u64,
    bucket_s: u64,
) -> (r: BucketPlan)
    requires
        minute_starts.len() == minute_counts.len(),
    ensures
        bucket_s == 1 ==> (r matches BucketPlan::RawSamples(v)
            && v@ == window_prefix(sample_times@, from, to, sample_times@.len() as int)),
        bucket_s != 1 && bucket_s <= 60 ==> (r matches BucketPlan::Minutes(v)
            && v@ == live_prefix(minute_starts@, minute_counts@, from, to, minute_starts@.len() as int)),
        bucket_s > 60 ==> (r matches BucketPlan::Folded(g)
            && groups_view(g@) == fold_prefix(minute_starts@, minute_counts@, from, to, bucket_s, minute_starts@.len() as int)),
{
    if bucket_s == 1 {
        BucketPlan::RawSamples(samples_in_window(sample_times, from, to))
    } else if bucket_s <= 60 {
        BucketPlan::Minutes(live_minutes(minute_starts, minute_counts, from, to))
    } else {
        BucketPlan::Folded(fold_minutes(minute_starts, minute_counts, from, to, bucket_s))
    }
}

proof fn lemma_aligned(t: int, w: int)
    requires
        t >= 0,
        w > 0,
    ensures
        0 <= aligned(t, w) <= t < aligned(t, w) + w,
        aligned(t, w) % w == 0,
{
    vstd::arithmetic::div_mod::lemma_fundamental_div_mod(t, w);
    vstd::arithmetic::div_mod::lemma_mod_pos_bound(t, w);
    vstd::arithmetic::div_mod::lemma_mod_multiples_basic(t / w, w);
    vstd::arithmetic::mul::lemma_mul_is_commutative(w, t / w);
    assert(t / w >= 0) by (nonlinear_arith)
        requires
            t >= 0,
            w > 0,
    ;
    assert(t / w * w >= 0) by (nonlinear_arith)
        requires
            t / w >= 0,
            w > 0,
    ;
}

proof fn lemma_aligned_monotone(s: int, t: int, w: int)
    requires
        0 <= s <= t,
        w > 0,
    ensures
        aligned(s, w) <= aligned(t, w),
{
    vstd::arithmetic::div_mod::lemma_div_is_ordered(s, t, w);
    vstd::arithmetic::mul::lemma_mul_inequality(s / w, t / w, w);
}

/// The minute indices of a plan's buckets, bucket after bucket.
pub open spec fn flatten_members(p: Seq<(u64, Seq<usize>)>) -> Seq<usize>
    decreases p.len(),
{
    if p.len() == 0 {
        Seq::empty()
    } else {
        flatten_members(p.drop_last()) + p.last().1
    }
}

/// A bucket whose members are live minutes among the first `k`, each of
/// which aligns to the bucket's start.
pub open spec fn bucket_ok(
    starts: Seq<u64>,
    counts: Seq<u32>,
    from: u64,
    to: u64,
    width: u64,
    k: int,
    g: (u64, Seq<usize>),
) -> bool {
    &&& g.1.len() > 0
    &&& forall|t: int|
        0 <= t < g.1.len() ==> {
            let m = #[trigger] g.1[t] as int;
            &&& 0 <= m < k
            &&& minute_live(starts, counts, from, to, m)
            &&& aligned(starts[m] as int, width as int) == g.0
        }
}

/// Whether the times never go backwards.
pub open spec fn nondecreasing(s: Seq<u64>) -> bool {
    forall|i: int, j: int| 0 <= i <= j < s.len() ==> s[i] <= s[j]
}

proof fn lemma_fold_facts(starts: Seq<u64>, counts: Seq<u32>, from: u64, to: u64, width: u64, k: int)
    requires
        width > 0,
        0 <= k <= starts.len(),
        starts.len() == counts.len(),
        starts.len() <= usize::MAX,
    ensures
        forall|j: int|
            0 <= j < fold_prefix(starts, counts, from, to, width, k).len() ==> bucket_ok(
                starts,
                counts,
                from,
                to,
                width,
                k,
                #[trigger] fold_prefix(starts, counts, from, to, width, k)[j],
            ),
        flatten_members(fold_prefix(starts, counts, from, to, width, k)) == live_prefix(
            starts,
            counts,
            from,
            to,
            k,
        ),
        nondecreasing(starts) ==> forall|i: int, j: int|
            0 <= i < j < fold_prefix(starts, counts, from, to, width, k).len() ==> (
            #[trigger] fold_prefix(starts, counts, from, to, width, k)[i]).0 < (
            #[trigger] fold_prefix(starts, counts, from, to, width, k)[j]).0,
    decreases k,
{
    if k > 0 {
        lemma_fold_facts(starts, counts, from, to, width, k - 1);
        let p = fold_prefix(starts, counts, from, to, width, k - 1);
        let q = fold_prefix(starts, counts, from, to, width, k);
        assert forall|j: int| 0 <= j < p.len() implies bucket_ok(
            starts,
            counts,
            from,
            to,
            width,
            k,
            p[j],
        ) by {
            assert(bucket_ok(starts, counts, from, to, width, k - 1, p[j]));
        }
        if minute_live(starts, counts, from, to, k - 1) {
            let i = (k - 1) as usize;
            assert(i as int == k - 1);
            lemma_aligned(starts[k - 1] as int, width as int);
            let a = aligned(starts[k - 1] as int, width as int) as u64;
            if p.len() > 0 && p.last().0 == a {
                let g = (a, p.last().1.push(i));
                assert(q == p.update(p.len() - 1, g));
                assert(bucket_ok(starts, counts, from, to, width, k, p[p.len() - 1]));
                assert(bucket_ok(starts, counts, from, to, width, k, g)) by {
                    assert forall|t: int| 0 <= t < g.1.len() implies {
                        let m = #[trigger] g.1[t] as int;
                        &&& 0 <= m < k
                        &&& minute_live(starts, counts, from, to, m)
                        &&& aligned(starts[m] as int, width as int) == g.0
                    } by {
                        if t < p.last().1.len() {
                            assert(g.1[t] == p.last().1[t]);
                        }
                    }
                }
                assert(q.drop_last() =~= p.drop_last());
                assert(flatten_members(q) =~= flatten_members(p).push(i));
            } else {
                let g = (a, seq![i]);
                assert(q == p.push(g));
                assert(bucket_ok(starts, counts, from, to, width, k, g));
                assert(q.drop_last() =~= p);
                assert(flatten_members(q) =~= flatten_members(p).push(i));
                if nondecreasing(starts) && p.len() > 0 {
                    let last = p.last();
                    assert(bucket_ok(starts, counts, from, to, width, k - 1, p[p.len() - 1]));
                    let m = last.1[0] as int;
                    assert(0 <= m < k - 1);
                    assert(starts[m] <= starts[k - 1]);
                    lemma_aligned_monotone(starts[m] as int, starts[k - 1] as int, width as int);
                    assert(last.0 < a);
                    assert forall|x: int, y: int| 0 <= x < y < q.len() implies (
                    #[trigger] q[x]).0 < (#[trigger] q[y]).0 by {
                        if y < p.len() {
                            assert(q[x] == p[x] && q[y] == p[y]);
                        } else {
                            assert(q[x] == p[x]);
                            if x < p.len() - 1 {
                                assert(p[x].0 < p[p.len() - 1].0);
                            }
                        }
                    }
                }
            }
        } else {
            assert(q == p);
        }
    }
}

/// Every bucket of a folded plan is non-empty, starts at a multiple of the
/// bucket width no earlier than the aligned start of the window and before
/// its end, and each of its minutes is live and starts inside it.
pub proof fn law_buckets_aligned(starts: Seq<u64>, counts: Seq<u32>, from: u64, to: u64, width: u64)
    requires
        width > 0,
        starts.len() == counts.len(),
        starts.len() <= usize::MAX,
    ensures
        forall|j: int|
            0 <= j < fold_prefix(starts, counts, from, to, width, starts.len() as int).len() ==> {
                let g = #[trigger] fold_prefix(starts, counts, from, to, width, starts.len() as int)[j];
                &&& g.1.len() > 0
                &&& g.0 as int % width as int == 0
                &&& aligned(from as int, width as int) <= g.0 < to
                &&& forall|t: int|
                    0 <= t < g.1.len() ==> {
                        let m = #[trigger] g.1[t] as int;
                        &&& 0 <= m < starts.len()
                        &&& minute_live(starts, counts, from, to, m)
                        &&& g.0 <= starts[m] < g.0 + width
                    }
            },
{
    let n = starts.len() as int;
    lemma_fold_facts(starts, counts, from, to, width, n);
    let p = fold_prefix(starts, counts, from, to, width, n);
    assert forall|j: int| 0 <= j < p.len() implies {
        let g = #[trigger] p[j];
        &&& g.1.len() > 0
        &&& g.0 as int % width as int == 0
        &&& aligned(from as int, width as int) <= g.0 < to
        &&& forall|t: int|
            0 <= t < g.1.len() ==> {
                let m = #[trigger] g.1[t] as int;
                &&& 0 <= m < starts.len()
                &&& minute_live(starts, counts, from, to, m)
                &&& g.0 <= starts[m] < g.0 + width
            }
    } by {
        let g = p[j];
        assert(bucket_ok(starts, counts, from, to, width, n, g));
        let m0 = g.1[0] as int;
        lemma_aligned(starts[m0] as int, width as int);
        lemma_aligned_monotone(from as int, starts[m0] as int, width as int);
        assert forall|t: int| 0 <= t < g.1.len() implies {
            let m = #[trigger] g.1[t] as int;
            &&& 0 <= m < starts.len()
            &&& minute_live(starts, counts, from, to, m)
            &&& g.0 <= starts[m] < g.0 + width
        } by {
            let m = g.1[t] as int;
            lemma_aligned(starts[m] as int, width as int);
        }
    }
}

/// A folded plan takes every live minute exactly once, in order: its
/// buckets' members, one bucket after the other, are the live minutes.
pub proof fn law_buckets_cover_live_minutes(
    starts: Seq<u64>,
    counts: Seq<u32>,
    from: u64,
    to: u64,
    width: u64,
)
    requires
        width > 0,
        starts.len() == counts.len(),
        starts.len() <= usize::MAX,
    ensures
        flatten_members(fold_prefix(starts, counts, from, to, width, starts.len() as int))
            == live_prefix(starts, counts, from, to, starts.len() as int),
{
    lemma_fold_facts(starts, counts, from, to, width, starts.len() as int);
}

/// When the minutes are retained in time order, a folded plan's buckets
/// start at strictly increasing times, so no bucket start repeats.
pub proof fn law_buckets_ascend(starts: Seq<u64>, counts: Seq<u32>, from: u64, to: u64, width: u64)
    requires
        width > 0,
        starts.len() == counts.len(),
        starts.len() <= usize::MAX,
        nondecreasing(starts),
    ensures
        forall|i: int, j: int|
            0 <= i < j < fold_prefix(starts, counts, from, to, width, starts.len() as int).len() ==> (
            #[trigger] fold_prefix(starts, counts, from, to, width, starts.len() as int)[i]).0 < (
            #[trigger] fold_prefix(starts, counts, from, to, width, starts.len() as int)[j]).0,
{
    lemma_fold_facts(starts, counts, from, to, width, starts.len() as int);
}

proof fn lemma_window_members(times: Seq<u64>, from: u64, to: u64, k: int)
    requires
        0 <= k <= times.len(),
        times.len() <= usize::MAX,
    ensures
        forall|i: usize| #[trigger] window_prefix(times, from, to, k).contains(i) ==> i < k && in_window(
            times[i as int],
            from,
            to,
        ),
    decreases k,
{
    if k > 0 {
        lemma_window_members(times, from, to, k - 1);
        let p = window_prefix(times, from, to, k - 1);
        assert forall|i: usize| #[trigger] window_prefix(times, from, to, k).contains(i) implies i < k && in_window(
            times[i as int],
            from,
            to,
        ) by {
            if in_window(times[k - 1], from, to) {
                let q = p.push((k - 1) as usize);
                let j = choose|j: int| 0 <= j < q.len() && q[j] == i;
                if j < p.len() {
                    assert(p[j] == i);
                    assert(p.contains(i));
                }
            }
        }
    }
}

proof fn lemma_live_members(starts: Seq<u64>, counts: Seq<u32>, from: u64, to: u64, k: int)
    requires
        0 <= k <= starts.len(),
        starts.len() <= usize::MAX,
    ensures
        forall|i: usize| #[trigger] live_prefix(starts, counts, from, to, k).contains(i) ==> i < k && minute_live(
            starts,
            counts,
            from,
            to,
            i as int,
        ),
    decreases k,
{
    if k > 0 {
        lemma_live_members(starts, counts, from, to, k - 1);
        let p = live_prefix(starts, counts, from, to, k - 1);
        assert forall|i: usize| #[trigger] live_prefix(starts, counts, from, to, k).contains(i) implies i < k
            && minute_live(starts, counts, from, to, i as int) by {
            if minute_live(starts, counts, from, to, k - 1) {
                let q = p.push((k - 1) as usize);
                let j = choose|j: int| 0 <= j < q.len() && q[j] == i;
                if j < p.len() {
                    assert(p[j] == i);
                    assert(p.contains(i));
                }
            }
        }
    }
}

/// At a resolution of a minute or finer, a plan's buckets come from
/// samples, or from minutes holding a sample, that lie in the window
/// `[from, to)`.
pub proof fn law_fine_buckets_in_window(
    times: Seq<u64>,
    starts: Seq<u64>,
    counts: Seq<u32>,
    from: u64,
    to: u64,
)
    requires
        times.len() <= usize::MAX,
        starts.len() <= usize::MAX,
    ensures
        forall|i: usize| #[trigger] window_prefix(times, from, to, times.len() as int).contains(i) ==> i < times.len()
            && from <= times[i as int] < to,
        forall|i: usize| #[trigger] live_prefix(starts, counts, from, to, starts.len() as int).contains(i) ==> i
            < starts.len() && from <= starts[i as int] < to && counts[i as int] > 0,
{
    lemma_window_members(times, from, to, times.len() as int);
    lemma_live_members(starts, counts, from, to, starts.len() as int);
}

/// Strictly increasing.
pub open spec fn increasing(s: Seq<u64>) -> bool {
    forall|i: int, j: int| 0 <= i < j < s.len() ==> s[i] < s[j]
}

proof fn lemma_window_indices_increase(times: Seq<u64>, from: u64, to: u64, k: int)
    requires
        0 <= k <= times.len(),
        times.len() <= usize::MAX,
    ensures
        forall|i: int| 0 <= i < window_prefix(times, from, to, k).len() ==> #[trigger] window_prefix(times, from, to, k)[i] < k,
        forall|i: int, j: int|
            0 <= i < j < window_prefix(times, from, to, k).len() ==> (#[trigger] window_prefix(times, from, to, k)[i]) < (
            #[trigger] window_prefix(times, from, to, k)[j]),
    decreases k,
{
    if k > 0 {
        lemma_window_indices_increase(times, from, to, k - 1);
        let p = window_prefix(times, from, to, k - 1);
        if in_window(times[k - 1], from, to) {
            let q = p.push((k - 1) as usize);
            assert(q[p.len() as int] == k - 1);
            assert forall|i: int| 0 <= i < q.len() implies #[trigger] q[i] < k by {
                if i < p.len() {
                    assert(q[i] == p[i]);
                }
            }
            assert forall|i: int, j: int| 0 <= i < j < q.len() implies (#[trigger] q[i]) < (#[trigger] q[j]) by {
                assert(q[i] == p[i]);
                if j < p.len() {
                    assert(q[j] == p[j]);
                }
            }
        }
    }
}

proof fn lemma_live_indices_increase(starts: Seq<u64>, counts: Seq<u32>, from: u64, to: u64, k: int)
    requires
        0 <= k <= starts.len(),
        starts.len() <= usize::MAX,
    ensures
        forall|i: int| 0 <= i < live_prefix(starts, counts, from, to, k).len() ==> #[trigger] live_prefix(starts, counts, from, to, k)[i] < k,
        forall|i: int, j: int|
            0 <= i < j < live_prefix(starts, counts, from, to, k).len() ==> (#[trigger] live_prefix(starts, counts, from, to, k)[i]) < (
            #[trigger] live_prefix(starts, counts, from, to, k)[j]),
    decreases k,
{
    if k > 0 {
        lemma_live_indices_increase(starts, counts, from, to, k - 1);
        let p = live_prefix(starts, counts, from, to, k - 1);
        if minute_live(starts, counts, from, to, k - 1) {
            let q = p.push((k - 1) as usize);
            assert(q[p.len() as int] == k - 1);
            assert forall|i: int| 0 <= i < q.len() implies #[trigger] q[i] < k by {
                if i < p.len() {
                    assert(q[i] == p[i]);
                }
            }
            assert forall|i: int, j: int| 0 <= i < j < q.len() implies (#[trigger] q[i]) < (#[trigger] q[j]) by {
                assert(q[i] == p[i]);
                if j < p.len() {
                    assert(q[j] == p[j]);
                }
            }
        }
    }
}

/// At a resolution of a minute or finer, buckets come out oldest first:
/// when samples and minutes are retained in strictly increasing time, the
/// chosen samples (one-second buckets) and the chosen minutes (one-minute
/// buckets) have strictly increasing times.
pub proof fn law_fine_buckets_ascend(times: Seq<u64>, starts: Seq<u64>, counts: Seq<u32>, from: u64, to: u64)
    requires
        times.len() <= usize::MAX,
        starts.len() <= usize::MAX,
        increasing(times),
        increasing(starts),
    ensures
        forall|i: int, j: int|
            0 <= i < j < window_prefix(times, from, to, times.len() as int).len() ==> times[(
            #[trigger] window_prefix(times, from, to, times.len() as int)[i]) as int] < times[(
            #[trigger] window_prefix(times, from, to, times.len() as int)[j]) as int],
        forall|i: int, j: int|
            0 <= i < j < live_prefix(starts, counts, from, to, starts.len() as int).len() ==> starts[(
            #[trigger] live_prefix(starts, counts, from, to, starts.len() as int)[i]) as int] < starts[(
            #[trigger] live_prefix(starts, counts, from, to, starts.len() as int)[j]) as int],
{
    lemma_window_indices_increase(times, from, to, times.len() as int);
    lemma_live_indices_increase(starts, counts, from, to, starts.len() as int);
}

/// The positions among the first `k` bucket starts that equal `t`, in order.
pub open spec fn indices_with(starts: Seq<u64>, t: u64, k: int) -> Seq<usize>
    decreases k,
{
    if k <= 0 {
        Seq::empty()
    } else {
        let p = indices_with(starts, t, k - 1);
        if starts[k - 1] == t {
            p.push((k - 1) as usize)
        } else {
            p
        }
    }
}

fn positions_of(starts: &Vec<u64>, t: u64) -> (r: Vec<usize>)
    ensures
        r@ == indices_with(starts@, t, starts@.len() as int),
{
    let mut out: Vec<usize> = Vec::new();
    let mut i: usize = 0;
    while i < starts.len()
        invariant
            i <= starts.len(),
            out@ == indices_with(starts@, t, i as int),
        decreases starts.len() - i,
    {
        if starts[i] == t {
            out.push(i);
        }
        i += 1;
    }
    out
}

/// The distinct values of `starts`, ascending.
fn distinct_ascending(starts: &Vec<u64>) -> (r: Vec<u64>)
    ensures
        forall|a: int, b: int| 0 <= a < b < r@.len() ==> r@[a] < r@[b],
        forall|j: int| 0 <= j < r@.len() ==> #[trigger] starts@.contains(r@[j]),
        forall|i: int| 0 <= i < starts@.len() ==> #[trigger] r@.contains(starts@[i]),
{
    let mut keys: Vec<u64> = Vec::new();
    let mut i: usize = 0;
    while i < starts.len()
        invariant
            i <= starts.len(),
            forall|a: int, b: int| 0 <= a < b < keys@.len() ==> keys@[a] < keys@[b],
            forall|j: int| 0 <= j < keys@.len() ==> #[trigger] starts@.take(i as int).contains(keys@[j]),
            forall|x: int| 0 <= x < i ==> #[trigger] keys@.contains(starts@[x]),
        decreases starts.len() - i,
    {
        let t = starts[i];
        let mut p: usize = 0;
        while p < keys.len() && keys[p] < t
            invariant
                p <= keys@.len(),
                forall|q: int| 0 <= q < p ==> keys@[q] < t,
            decreases keys@.len() - p,
        {
            p += 1;
        }
        let ghost old_keys = keys@;
        assert(starts@.take(i + 1) =~= starts@.take(i as int).push(t));
        if p < keys.len() && keys[p] == t {
            assert(keys@.contains(t)) by {
                assert(keys@[p as int] == t);
            }
            assert forall|j: int| 0 <= j < keys@.len() implies #[trigger] starts@.take(i + 1).contains(keys@[j]) by {
                assert(starts@.take(i as int).contains(keys@[j]));
                let w = choose|w: int| 0 <= w < starts@.take(i as int).len() && starts@.take(i as int)[w] == keys@[j];
                assert(starts@.take(i + 1)[w] == keys@[j]);
            }
        } else {
            keys.insert(p, t);
            proof {
                assert(keys@ == old_keys.insert(p as int, t));
                assert forall|a: int, b: int| 0 <= a < b < keys@.len() implies keys@[a] < keys@[b] by {
                    if p < old_keys.len() {
                        assert(old_keys[p as int] > t);
                    }
                    if a < p && b < p {
                        assert(keys@[a] == old_keys[a] && keys@[b] == old_keys[b]);
                    } else if a < p && b == p {
                        assert(keys@[a] == old_keys[a]);
                    } else if a < p {
                        assert(keys@[a] == old_keys[a] && keys@[b] == old_keys[b - 1]);
                        assert(old_keys[a] < old_keys[p as int]);
                    } else if a == p {
                        assert(keys@[b] == old_keys[b - 1]);
                        if b - 1 > p {
                            assert(old_keys[p as int] < old_keys[b - 1]);
                        }
                    } else {
                        assert(keys@[a] == old_keys[a - 1] && keys@[b] == old_keys[b - 1]);
                    }
                }
                assert forall|j: int| 0 <= j < keys@.len() implies #[trigger] starts@.take(i + 1).contains(keys@[j]) by {
                    if j == p {
                        assert(starts@.take(i + 1)[i as int] == t);
                    } else {
                        let jj = if j < p { j } else { j - 1 };
                        assert(keys@[j] == old_keys[jj]);
                        assert(starts@.take(i as int).contains(old_keys[jj]));
                        let w = choose|w: int| 0 <= w < starts@.take(i as int).len() && starts@.take(i as int)[w] == old_keys[jj];
                        assert(starts@.take(i + 1)[w] == keys@[j]);
                    }
                }
                assert forall|x: int| 0 <= x < i + 1 implies #[trigger] keys@.contains(starts@[x]) by {
                    if x < i {
                        assert(old_keys.contains(starts@[x]));
                        let w = choose|w: int| 0 <= w < old_keys.len() && old_keys[w] == starts@[x];
                        if w < p {
                            assert(keys@[w] == starts@[x]);
                        } else {
                            assert(keys@[w + 1] == starts@[x]);
                        }
                    } else {
                        assert(keys@[p as int] == t);
                    }
                }
            }
        }
        i += 1;
    }
    assert(starts@.take(starts@.len() as int) =~= starts@);
    keys
}

/// Whether some row of an alignment starts at `t`.
pub open spec fn has_row(rows: Seq<(u64, Vec<usize>)>, t: u64) -> bool {
    exists|j: int| 0 <= j < rows.len() && (#[trigger] rows[j]).0 == t
}

/// Aligns the buckets of several homes by start time, as one fleet row per
/// start: the distinct starts ascending, each with the positions (in the
/// concatenated bucket list) of the buckets that begin there, in order.
pub fn align_by_start(starts: &Vec<u64>) -> (r: Vec<(u64, Vec<usize>)>)
    ensures
        forall|a: int, b: int| 0 <= a < b < r@.len() ==> r@[a].0 < r@[b].0,
        forall|j: int| 0 <= j < r@.len() ==> (#[trigger] r@[j]).1@ == indices_with(starts@, r@[j].0, starts@.len() as int),
        forall|j: int| 0 <= j < r@.len() ==> #[trigger] starts@.contains(r@[j].0),
        forall|i: int| 0 <= i < starts@.len() ==> #[trigger] has_row(r@, starts@[i]),
{
    let keys = distinct_ascending(starts);
    let mut out: Vec<(u64, Vec<usize>)> = Vec::new();
    let mut j: usize = 0;
    while j < keys.len()
        invariant
            j <= keys@.len(),
            out@.len() == j,
            forall|a: int| 0 <= a < j ==> (#[trigger] out@[a]).0 == keys@[a],
            forall|a: int| 0 <= a < j ==> (#[trigger] out@[a]).1@ == indices_with(starts@, out@[a].0, starts@.len() as int),
        decreases keys.len() - j,
    {
        let t = keys[j];
        out.push((t, positions_of(starts, t)));
        j += 1;
    }
    assert(out@.len() == keys@.len());
    assert forall|i: int| 0 <= i < starts@.len() implies #[trigger] has_row(out@, starts@[i]) by {
        assert(keys@.contains(starts@[i]));
        let a = choose|a: int| 0 <= a < keys@.len() && keys@[a] == starts@[i];
        assert(0 <= a < out@.len());
        assert(out@[a].0 == starts@[i]);
    }
    assert forall|j: int| 0 <= j < out@.len() implies #[trigger] starts@.contains(out@[j].0) by {
        assert(out@[j].0 == keys@[j]);
    }
    out
}

} // verus!

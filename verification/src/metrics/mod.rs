//! Per-request samples, their collector, and latency statistics.
use vstd::prelude::*;
use vstd::relations::{sorted_by, total_ordering};
pub mod stats;

use crate::duration::Duration;

verus! {

broadcast use vstd::seq_lib::group_to_multiset_ensures;

/// Measurements of one completed request.
#[derive(Debug)]
pub struct Sample {
    pub ttft: Duration,
    pub prefill_dur: Duration,
    pub decode_dur: Duration,
    pub total_dur: Duration,
    pub prompt_tokens: usize,
    pub output_tokens: usize,
    pub cached_tokens: usize,
    pub tpot: Duration,
    /// Gaps between consecutive streamed tokens.
    pub token_timings: Vec<Duration>,
}

/// Mathematical value of a [`Sample`].
pub ghost struct SampleView {
    pub ttft: Duration,
    pub prefill_dur: Duration,
    pub decode_dur: Duration,
    pub total_dur: Duration,
    pub prompt_tokens: usize,
    pub output_tokens: usize,
    pub cached_tokens: usize,
    pub tpot: Duration,
    pub token_timings: Seq<Duration>,
}

impl View for Sample {
    type V = SampleView;

    open spec fn view(&self) -> SampleView {
        SampleView {
            ttft: self.ttft,
            prefill_dur: self.prefill_dur,
            decode_dur: self.decode_dur,
            total_dur: self.total_dur,
            prompt_tokens: self.prompt_tokens,
            output_tokens: self.output_tokens,
            cached_tokens: self.cached_tokens,
            tpot: self.tpot,
            token_timings: self.token_timings@,
        }
    }
}

/// A copy of a vector of durations.
pub fn copy_durations(v: &Vec<Duration>) -> (res: Vec<Duration>)
    ensures
        res@ == v@,
{
    let mut res: Vec<Duration> = Vec::new();
    let mut i: usize = 0;
    while i < v.len()
        invariant
            i <= v@.len(),
            res@ == v@.subrange(0, i as int),
        decreases v@.len() - i,
    {
        res.push(v[i]);
        i = i + 1;
    }
    assert(v@.subrange(0, v@.len() as int) =~= v@);
    res
}

impl Sample {
    /// A field-by-field copy.
    pub fn duplicate(&self) -> (res: Sample)
        ensures
            res@ == self@,
    {
        Sample {
            ttft: self.ttft,
            prefill_dur: self.prefill_dur,
            decode_dur: self.decode_dur,
            total_dur: self.total_dur,
            prompt_tokens: self.prompt_tokens,
            output_tokens: self.output_tokens,
            cached_tokens: self.cached_tokens,
            tpot: self.tpot,
            token_timings: copy_durations(&self.token_timings),
        }
    }
}

/// Views of a sequence of samples.
pub open spec fn sample_views(s: Seq<Sample>) -> Seq<SampleView> {
    s.map_values(|x: Sample| x@)
}

/// Accumulates the samples of a run, in the order they were added.
pub struct Collector {
    samples: Vec<Sample>,
}

impl View for Collector {
    type V = Seq<SampleView>;

    closed spec fn view(&self) -> Seq<SampleView> {
        sample_views(self.samples@)
    }
}

impl Collector {
    pub fn new() -> (c: Collector)
        ensures
            c@ == Seq::<SampleView>::empty(),
    {
        let c = Collector { samples: Vec::new() };
        assert(c@ =~= Seq::<SampleView>::empty());
        c
    }

    /// Records one sample after those already held.
    pub fn add(&mut self, s: Sample)
        ensures
            final(self)@ == old(self)@.push(s@),
    {
        self.samples.push(s);
        assert(self@ =~= old(self)@.push(s@));
    }

    /// Copies of all samples, in the order they were added.
    pub fn samples(&self) -> (res: Vec<Sample>)
        ensures
            sample_views(res@) == self@,
    {
        let mut res: Vec<Sample> = Vec::new();
        let mut i: usize = 0;
        while i < self.samples.len()
            invariant
                i <= self.samples@.len(),
                sample_views(res@) == sample_views(self.samples@).subrange(0, i as int),
            decreases self.samples@.len() - i,
        {
            let s = self.samples[i].duplicate();
            let ghost prev = res@;
            res.push(s);
            assert(res@ == prev.push(s));
            assert(sample_views(res@) =~= sample_views(prev).push(s@));
            assert(s@ == sample_views(self.samples@)[i as int]);
            i = i + 1;
            assert(sample_views(res@) =~= sample_views(self.samples@).subrange(0, i as int));
        }
        assert(sample_views(self.samples@).subrange(0, i as int) =~= sample_views(self.samples@));
        res
    }

    /// Number of samples held.
    pub fn count(&self) -> (n: usize)
        ensures
            n == self@.len(),
    {
        self.samples.len()
    }
}

// ------------------------------------------------------------ percentiles

/// Durations ordered by length.
pub open spec fn dur_leq() -> spec_fn(Duration, Duration) -> bool {
    |a: Duration, b: Duration| a.nanos <= b.nanos
}

/// `s` in ascending order.
pub open spec fn sorted_durs(s: Seq<Duration>) -> Seq<Duration> {
    s.sort_by(dur_leq())
}

pub proof fn lemma_dur_leq_total()
    ensures
        total_ordering(dur_leq()),
{
    let r = dur_leq();
    assert forall|x: Duration, y: Duration| #[trigger] r(x, y) && #[trigger] r(y, x) implies x == y by {
        assert(x.nanos == y.nanos);
    }
}

/// A sequence in ascending order that holds the same durations as `s` is
/// `sorted_durs(s)`.
pub proof fn lemma_sorted_is_sorted_durs(t: Seq<Duration>, s: Seq<Duration>)
    requires
        sorted_by(t, dur_leq()),
        t.to_multiset() == s.to_multiset(),
    ensures
        t == sorted_durs(s),
{
    lemma_dur_leq_total();
    s.lemma_sort_by_ensures(dur_leq());
    vstd::seq_lib::lemma_sorted_unique(t, sorted_durs(s), dur_leq());
}

/// Facts about `sorted_durs(s)`: same elements, ascending, same length.
pub proof fn lemma_sorted_durs(s: Seq<Duration>)
    ensures
        sorted_durs(s).to_multiset() == s.to_multiset(),
        sorted_by(sorted_durs(s), dur_leq()),
        sorted_durs(s).len() == s.len(),
        forall|i: int, j: int| 0 <= i <= j < s.len()
            ==> (#[trigger] sorted_durs(s)[i]).nanos <= (#[trigger] sorted_durs(s)[j]).nanos,
        forall|i: int| 0 <= i < s.len() ==> s.contains(#[trigger] sorted_durs(s)[i]),
        forall|i: int| 0 <= i < s.len() ==> sorted_durs(s).contains(#[trigger] s[i]),
        forall|i: int| 0 <= i < s.len() ==>
            sorted_durs(s)[0].nanos <= (#[trigger] s[i]).nanos <= sorted_durs(s)[s.len() - 1].nanos,
{
    lemma_dur_leq_total();
    s.lemma_sort_by_ensures(dur_leq());
    vstd::seq_lib::to_multiset_len(s);
    vstd::seq_lib::to_multiset_len(sorted_durs(s));
    assert forall|i: int, j: int| 0 <= i <= j < s.len()
        implies (#[trigger] sorted_durs(s)[i]).nanos <= (#[trigger] sorted_durs(s)[j]).nanos by {
        if i < j {
            assert((dur_leq())(sorted_durs(s)[i], sorted_durs(s)[j]));
        }
    }
    assert forall|i: int| 0 <= i < s.len() implies s.contains(#[trigger] sorted_durs(s)[i]) by {
        vstd::seq_lib::to_multiset_contains(sorted_durs(s), sorted_durs(s)[i]);
        vstd::seq_lib::to_multiset_contains(s, sorted_durs(s)[i]);
    }
    assert forall|i: int| 0 <= i < s.len() implies sorted_durs(s).contains(#[trigger] s[i]) by {
        vstd::seq_lib::to_multiset_contains(sorted_durs(s), s[i]);
        vstd::seq_lib::to_multiset_contains(s, s[i]);
    }
    assert forall|i: int| 0 <= i < s.len() implies
        sorted_durs(s)[0].nanos <= (#[trigger] s[i]).nanos <= sorted_durs(s)[s.len() - 1].nanos by {
        assert(sorted_durs(s).contains(s[i]));
        let j = choose|j: int| 0 <= j < sorted_durs(s).len() && sorted_durs(s)[j] == s[i];
        assert(sorted_durs(s)[0].nanos <= sorted_durs(s)[j].nanos);
        assert(sorted_durs(s)[j].nanos <= sorted_durs(s)[s.len() - 1].nanos);
    }
}

/// Sorts `v` in ascending order of length.
pub fn sort_durations(v: &mut Vec<Duration>)
    ensures
        final(v)@ == sorted_durs(old(v)@),
{
    let mut out: Vec<Duration> = Vec::new();
    let n = v.len();
    let mut i: usize = 0;
    while i < n
        invariant
            n == v@.len(),
            v@ == old(v)@,
            i <= n,
            sorted_by(out@, dur_leq()),
            out@.to_multiset() == v@.subrange(0, i as int).to_multiset(),
        decreases n - i,
    {
        let x = v[i];
        let mut pos: usize = 0;
        while pos < out.len() && out[pos].nanos <= x.nanos
            invariant
                pos <= out@.len(),
                forall|k: int| 0 <= k < pos ==> (#[trigger] out@[k]).nanos <= x.nanos,
            decreases out@.len() - pos,
        {
            pos = pos + 1;
        }
        let ghost before = out@;
        assert(pos < before.len() ==> before[pos as int].nanos > x.nanos);
        out.insert(pos, x);
        proof {
            assert(out@ == before.insert(pos as int, x));
            assert forall|a: int, b: int| 0 <= a < b < out@.len() implies #[trigger] (dur_leq())(out@[a], out@[b]) by {
                if b < pos {
                } else if b == pos {
                } else if a < pos {
                    assert(before[a].nanos <= x.nanos);
                    if b - 1 > pos {
                        assert((dur_leq())(before[pos as int], before[b - 1]));
                    }
                } else if a == pos {
                    assert(before[pos as int].nanos > x.nanos);
                    if b - 1 > pos {
                        assert((dur_leq())(before[pos as int], before[b - 1]));
                    }
                } else {
                    assert((dur_leq())(before[a - 1], before[b - 1]));
                }
            }
            vstd::seq_lib::to_multiset_insert(before, pos as int, x);
            assert(v@.subrange(0, i + 1) =~= v@.subrange(0, i as int).push(x));
            vstd::seq_lib::to_multiset_build(v@.subrange(0, i as int), x);
        }
        i = i + 1;
    }
    proof {
        assert(v@.subrange(0, n as int) =~= v@);
        lemma_sorted_is_sorted_durs(out@, old(v)@);
    }
    *v = out;
}

/// Zero-based nearest-rank index of the `p`-th percentile among `n`
/// ascending values: `ceil(p * n / 100) - 1`, kept within `0..n`.
pub open spec fn nearest_rank(p: int, n: int) -> int {
    if p * n <= 0 {
        0
    } else if (p * n + 99) / 100 - 1 > n - 1 {
        n - 1
    } else {
        (p * n + 99) / 100 - 1
    }
}

pub proof fn lemma_nearest_rank_bounds(p: int, n: int)
    requires
        n > 0,
    ensures
        0 <= nearest_rank(p, n) < n,
{
    if p * n > 0 {
        assert((p * n + 99) / 100 >= 1);
    }
}

pub proof fn lemma_nearest_rank_monotone(p: int, q: int, n: int)
    requires
        n > 0,
        p <= q,
    ensures
        nearest_rank(p, n) <= nearest_rank(q, n),
{
    assert(p * n <= q * n) by (nonlinear_arith)
        requires p <= q, n > 0;
    vstd::arithmetic::div_mod::lemma_div_is_ordered(p * n + 99, q * n + 99, 100);
    lemma_nearest_rank_bounds(p, n);
    lemma_nearest_rank_bounds(q, n);
}

/// The `p`-th percentile of `s` by the nearest-rank method; zero when `s`
/// is empty.
pub open spec fn percentile_of(s: Seq<Duration>, p: int) -> Duration {
    if s.len() == 0 {
        Duration { nanos: 0 }
    } else {
        sorted_durs(s)[nearest_rank(p, s.len() as int)]
    }
}

/// Percentiles never decrease as `p` grows: for `p <= q`, the `p`-th
/// percentile of any durations is at most the `q`-th.
pub proof fn law_percentile_monotone(s: Seq<Duration>, p: int, q: int)
    requires
        p <= q,
    ensures
        percentile_of(s, p).nanos <= percentile_of(s, q).nanos,
{
    if s.len() > 0 {
        lemma_sorted_durs(s);
        lemma_nearest_rank_monotone(p, q, s.len() as int);
        lemma_nearest_rank_bounds(q, s.len() as int);
    }
}

/// A percentile of non-empty durations is one of those durations, and lies
/// between the shortest and the longest of them.
pub proof fn law_percentile_is_member(s: Seq<Duration>, p: int)
    requires
        s.len() > 0,
    ensures
        s.contains(percentile_of(s, p)),
        sorted_durs(s)[0].nanos <= percentile_of(s, p).nanos <= sorted_durs(s)[s.len() - 1].nanos,
{
    lemma_sorted_durs(s);
    lemma_nearest_rank_bounds(p, s.len() as int);
}

/// The 100th percentile is the longest duration; the 0th the shortest.
pub proof fn law_percentile_extremes(s: Seq<Duration>)
    requires
        s.len() > 0,
    ensures
        percentile_of(s, 100) == sorted_durs(s)[s.len() - 1],
        percentile_of(s, 0) == sorted_durs(s)[0],
{
    let n = s.len() as int;
    assert((100 * n + 99) / 100 == n);
}

/// Sorts `d` in place and returns its `p`-th percentile (nearest rank).
pub fn percentile(d: &mut Vec<Duration>, p: i32) -> (res: Duration)
    ensures
        final(d)@ == sorted_durs(old(d)@),
        res == percentile_of(old(d)@, p as int),
{
    if d.len() == 0 {
        proof {
            lemma_sorted_is_sorted_durs(d@, d@);
        }
        return Duration::zero();
    }
    sort_durations(d);
    proof {
        lemma_sorted_durs(old(d)@);
    }
    let n = d.len();
    let idx: usize = if p <= 0 {
        0
    } else {
        assert((p as u128) * (n as u128) <= 0x8000_0000u128 * 0x1_0000_0000_0000_0000u128) by (nonlinear_arith)
            requires p > 0, p < 0x8000_0000, n < 0x1_0000_0000_0000_0000u128;
        let c: u128 = ((p as u128) * (n as u128) + 99) / 100;
        if c == 0 {
            0
        } else if c - 1 > (n - 1) as u128 {
            n - 1
        } else {
            (c - 1) as usize
        }
    };
    proof {
        if p <= 0 {
            assert(p * n <= 0) by (nonlinear_arith)
                requires p <= 0, n >= 0;
        } else {
            assert(p * n > 0) by (nonlinear_arith)
                requires p > 0, n > 0;
            assert(((p as u128) * (n as u128)) as int == p * n);
        }
    }
    d[idx]
}

} // verus!

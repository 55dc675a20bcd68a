//! Latency and token statistics over the samples of a run.
use vstd::prelude::*;
use crate::duration::{Duration, max_nanos};
use super::{Sample, sorted_durs, percentile_of, percentile, lemma_sorted_durs,
    lemma_sorted_is_sorted_durs};

verus! {

/// Summary of a run's samples.
#[derive(Debug, Clone, Copy)]
pub struct Stats {
    pub total_requests: usize,
    pub total_duration: Duration,
    pub ttft_mean: Duration,
    pub ttft_p50: Duration,
    pub ttft_p90: Duration,
    pub ttft_p95: Duration,
    pub ttft_min: Duration,
    pub ttft_max: Duration,
    pub tpot_mean: Duration,
    pub tpot_p50: Duration,
    pub tpot_p90: Duration,
    pub tpot_p95: Duration,
    pub tpot_min: Duration,
    pub tpot_max: Duration,
    pub total_prompt_tokens: usize,
    pub total_output_tokens: usize,
    pub total_cached_tokens: usize,
}

/// Time to first token of each sample.
pub open spec fn ttfts_of(s: Seq<Sample>) -> Seq<Duration> {
    s.map_values(|x: Sample| x.ttft)
}

/// All inter-token gaps of all samples, sample after sample.
pub open spec fn all_token_timings(s: Seq<Sample>) -> Seq<Duration>
    decreases s.len(),
{
    if s.len() == 0 {
        Seq::empty()
    } else {
        all_token_timings(s.drop_last()) + s.last().token_timings@
    }
}

/// The per-request average TPOT of each sample whose TPOT is non-zero.
pub open spec fn positive_tpots(s: Seq<Sample>) -> Seq<Duration>
    decreases s.len(),
{
    if s.len() == 0 {
        Seq::empty()
    } else if s.last().tpot.nanos > 0 {
        positive_tpots(s.drop_last()).push(s.last().tpot)
    } else {
        positive_tpots(s.drop_last())
    }
}

/// The latencies TPOT statistics are taken over: every streamed
/// inter-token gap, or, when no sample recorded any, the non-zero
/// per-request averages.
pub open spec fn token_latencies(s: Seq<Sample>) -> Seq<Duration> {
    if all_token_timings(s).len() > 0 {
        all_token_timings(s)
    } else {
        positive_tpots(s)
    }
}

/// Total nanoseconds of a sequence of durations.
pub open spec fn dur_total(s: Seq<Duration>) -> int
    decreases s.len(),
{
    if s.len() == 0 {
        0
    } else {
        dur_total(s.drop_last()) + s.last().nanos
    }
}

pub open spec fn prompt_total(s: Seq<Sample>) -> int
    decreases s.len(),
{
    if s.len() == 0 { 0 } else { prompt_total(s.drop_last()) + s.last().prompt_tokens }
}

pub open spec fn output_total(s: Seq<Sample>) -> int
    decreases s.len(),
{
    if s.len() == 0 { 0 } else { output_total(s.drop_last()) + s.last().output_tokens }
}

pub open spec fn cached_total(s: Seq<Sample>) -> int
    decreases s.len(),
{
    if s.len() == 0 { 0 } else { cached_total(s.drop_last()) + s.last().cached_tokens }
}

/// Mean duration, rounded down to the nanosecond; zero for no durations.
pub open spec fn mean_of(s: Seq<Duration>) -> Duration {
    if s.len() == 0 {
        Duration { nanos: 0 }
    } else {
        Duration { nanos: (dur_total(s) / (s.len() as int)) as u128 }
    }
}

/// Shortest duration; zero for no durations.
pub open spec fn min_of(s: Seq<Duration>) -> Duration {
    if s.len() == 0 { Duration { nanos: 0 } } else { sorted_durs(s)[0] }
}

/// Longest duration; zero for no durations.
pub open spec fn max_of(s: Seq<Duration>) -> Duration {
    if s.len() == 0 { Duration { nanos: 0 } } else { sorted_durs(s)[s.len() - 1] }
}

/// The statistics with every count and duration zero.
pub open spec fn empty_stats() -> Stats {
    let z = Duration { nanos: 0 };
    Stats {
        total_requests: 0,
        total_duration: z,
        ttft_mean: z, ttft_p50: z, ttft_p90: z, ttft_p95: z, ttft_min: z, ttft_max: z,
        tpot_mean: z, tpot_p50: z, tpot_p90: z, tpot_p95: z, tpot_min: z, tpot_max: z,
        total_prompt_tokens: 0,
        total_output_tokens: 0,
        total_cached_tokens: 0,
    }
}

/// What [`calc_stats`] computes for `samples` over a run of `wall_clock`.
pub open spec fn stats_of(samples: Seq<Sample>, wall_clock: Duration) -> Stats {
    if samples.len() == 0 {
        empty_stats()
    } else {
        let t = ttfts_of(samples);
        let l = token_latencies(samples);
        Stats {
            total_requests: samples.len() as usize,
            total_duration: wall_clock,
            ttft_mean: mean_of(t),
            ttft_p50: percentile_of(t, 50),
            ttft_p90: percentile_of(t, 90),
            ttft_p95: percentile_of(t, 95),
            ttft_min: min_of(t),
            ttft_max: max_of(t),
            tpot_mean: mean_of(l),
            tpot_p50: percentile_of(l, 50),
            tpot_p90: percentile_of(l, 90),
            tpot_p95: percentile_of(l, 95),
            tpot_min: min_of(l),
            tpot_max: max_of(l),
            total_prompt_tokens: prompt_total(samples) as usize,
            total_output_tokens: output_total(samples) as usize,
            total_cached_tokens: cached_total(samples) as usize,
        }
    }
}

/// The inputs on which [`calc_stats`] stays within machine limits: at most
/// `u32::MAX` samples and latencies (the divisors of the means), duration
/// sums within std's `Duration` range (std's `Sum` panics beyond it) and
/// token sums within `usize`.
pub open spec fn stats_inputs_ok(samples: Seq<Sample>) -> bool {
    &&& samples.len() <= u32::MAX
    &&& token_latencies(samples).len() <= u32::MAX
    &&& dur_total(ttfts_of(samples)) <= max_nanos()
    &&& dur_total(token_latencies(samples)) <= max_nanos()
    &&& prompt_total(samples) <= usize::MAX
    &&& output_total(samples) <= usize::MAX
    &&& cached_total(samples) <= usize::MAX
}

impl Stats {
    pub fn empty() -> (s: Stats)
        ensures
            s == empty_stats(),
    {
        let z = Duration::zero();
        Stats {
            total_requests: 0,
            total_duration: z,
            ttft_mean: z, ttft_p50: z, ttft_p90: z, ttft_p95: z, ttft_min: z, ttft_max: z,
            tpot_mean: z, tpot_p50: z, tpot_p90: z, tpot_p95: z, tpot_min: z, tpot_max: z,
            total_prompt_tokens: 0,
            total_output_tokens: 0,
            total_cached_tokens: 0,
        }
    }
}

pub proof fn lemma_dur_total_nonneg(s: Seq<Duration>)
    ensures
        dur_total(s) >= 0,
    decreases s.len(),
{
    if s.len() > 0 {
        lemma_dur_total_nonneg(s.drop_last());
    }
}

pub proof fn lemma_dur_total_prefix(s: Seq<Duration>, i: int)
    requires
        0 <= i <= s.len(),
    ensures
        dur_total(s.take(i)) <= dur_total(s),
        dur_total(s.take(i)) >= 0,
    decreases s.len() - i,
{
    lemma_dur_total_nonneg(s.take(i));
    if i < s.len() {
        lemma_dur_total_prefix(s, i + 1);
        assert(s.take(i + 1).drop_last() =~= s.take(i));
    } else {
        assert(s.take(i) =~= s);
    }
}

pub proof fn lemma_totals_prefix(s: Seq<Sample>, i: int)
    requires
        0 <= i <= s.len(),
    ensures
        0 <= prompt_total(s.take(i)) <= prompt_total(s),
        0 <= output_total(s.take(i)) <= output_total(s),
        0 <= cached_total(s.take(i)) <= cached_total(s),
    decreases s.len() - i,
{
    if i < s.len() {
        lemma_totals_prefix(s, i + 1);
        assert(s.take(i + 1).drop_last() =~= s.take(i));
        lemma_totals_nonneg(s.take(i));
    } else {
        assert(s.take(i) =~= s);
        lemma_totals_nonneg(s);
    }
}

pub proof fn lemma_totals_nonneg(s: Seq<Sample>)
    ensures
        prompt_total(s) >= 0,
        output_total(s) >= 0,
        cached_total(s) >= 0,
    decreases s.len(),
{
    if s.len() > 0 {
        lemma_totals_nonneg(s.drop_last());
    }
}

/// Sums of durations within `[lo, hi]` are within `[n * lo, n * hi]`.
pub proof fn lemma_total_bounds(s: Seq<Duration>, lo: int, hi: int)
    requires
        forall|i: int| 0 <= i < s.len() ==> lo <= (#[trigger] s[i]).nanos <= hi,
    ensures
        s.len() * lo <= dur_total(s) <= s.len() * hi,
    decreases s.len(),
{
    if s.len() > 0 {
        let t = s.drop_last();
        assert forall|i: int| 0 <= i < t.len() implies lo <= (#[trigger] t[i]).nanos <= hi by {
            assert(t[i] == s[i]);
        }
        lemma_total_bounds(t, lo, hi);
        let n = s.len() as int;
        assert((n - 1) * lo + lo == n * lo) by (nonlinear_arith);
        assert((n - 1) * hi + hi == n * hi) by (nonlinear_arith);
    }
}

/// The mean of non-empty durations lies between their shortest and their
/// longest, as the mean TTFT and TPOT of a run lie between its minimum and
/// maximum.
pub proof fn law_mean_between_extremes(s: Seq<Duration>)
    requires
        s.len() > 0,
    ensures
        min_of(s).nanos <= mean_of(s).nanos <= max_of(s).nanos,
{
    lemma_sorted_durs(s);
    let lo = sorted_durs(s)[0].nanos as int;
    let hi = sorted_durs(s)[s.len() - 1].nanos as int;
    lemma_total_bounds(s, lo, hi);
    let n = s.len() as int;
    let t = dur_total(s);
    assert(lo <= t / n <= hi) by (nonlinear_arith)
        requires n * lo <= t <= n * hi, n > 0;
}

/// In the statistics of any run, each latency's minimum, median, 90th and
/// 95th percentiles and maximum come in ascending order, and each mean lies
/// between the minimum and maximum.
pub proof fn law_stats_ordered(samples: Seq<Sample>, wall_clock: Duration)
    ensures ({
        let st = stats_of(samples, wall_clock);
        &&& st.ttft_min.nanos <= st.ttft_p50.nanos <= st.ttft_p90.nanos
            <= st.ttft_p95.nanos <= st.ttft_max.nanos
        &&& st.tpot_min.nanos <= st.tpot_p50.nanos <= st.tpot_p90.nanos
            <= st.tpot_p95.nanos <= st.tpot_max.nanos
        &&& st.ttft_min.nanos <= st.ttft_mean.nanos <= st.ttft_max.nanos
        &&& st.tpot_min.nanos <= st.tpot_mean.nanos <= st.tpot_max.nanos
    }),
{
    if samples.len() > 0 {
        let t = ttfts_of(samples);
        let l = token_latencies(samples);
        assert(t.len() > 0);
        super::law_percentile_is_member(t, 50);
        super::law_percentile_is_member(t, 95);
        super::law_percentile_monotone(t, 50, 90);
        super::law_percentile_monotone(t, 90, 95);
        law_mean_between_extremes(t);
        if l.len() > 0 {
            super::law_percentile_is_member(l, 50);
            super::law_percentile_is_member(l, 95);
            super::law_percentile_monotone(l, 50, 90);
            super::law_percentile_monotone(l, 90, 95);
            law_mean_between_extremes(l);
        }
    }
}

/// The figures `mean`, `p50`, `p90`, `p95`, `lo` and `hi` summarise the
/// non-empty latencies `s`: `lo` and `hi` are their shortest and longest,
/// the percentiles are among them, in ascending order between the two, and
/// `mean` is their total divided by their number, rounded down.
pub open spec fn summarizes(
    s: Seq<Duration>,
    mean: Duration,
    p50: Duration,
    p90: Duration,
    p95: Duration,
    lo: Duration,
    hi: Duration,
) -> bool {
    &&& s.contains(lo)
    &&& s.contains(hi)
    &&& forall|i: int| 0 <= i < s.len() ==> lo.nanos <= (#[trigger] s[i]).nanos <= hi.nanos
    &&& s.contains(p50)
    &&& s.contains(p90)
    &&& s.contains(p95)
    &&& lo.nanos <= p50.nanos <= p90.nanos <= p95.nanos <= hi.nanos
    &&& mean.nanos == dur_total(s) / (s.len() as int)
}

/// The statistics of a run with samples summarise its times to first
/// token, and its token latencies when there are any; a run without token
/// latencies has every TPOT figure zero.
pub proof fn law_stats_summarize(samples: Seq<Sample>, wall_clock: Duration)
    requires
        samples.len() > 0,
    ensures ({
        let st = stats_of(samples, wall_clock);
        let t = ttfts_of(samples);
        let l = token_latencies(samples);
        &&& summarizes(t, st.ttft_mean, st.ttft_p50, st.ttft_p90, st.ttft_p95, st.ttft_min, st.ttft_max)
        &&& l.len() > 0 ==> summarizes(l, st.tpot_mean, st.tpot_p50, st.tpot_p90, st.tpot_p95,
            st.tpot_min, st.tpot_max)
        &&& l.len() == 0 ==> {
            &&& st.tpot_mean.nanos == 0
            &&& st.tpot_p50.nanos == 0
            &&& st.tpot_p90.nanos == 0
            &&& st.tpot_p95.nanos == 0
            &&& st.tpot_min.nanos == 0
            &&& st.tpot_max.nanos == 0
        }
    }),
{
    law_stats_ordered(samples, wall_clock);
    let t = ttfts_of(samples);
    lemma_summary(t);
    let l = token_latencies(samples);
    if l.len() > 0 {
        lemma_summary(l);
    }
}

proof fn lemma_summary(s: Seq<Duration>)
    requires
        s.len() > 0,
    ensures
        summarizes(s, mean_of(s), percentile_of(s, 50), percentile_of(s, 90), percentile_of(s, 95),
            min_of(s), max_of(s)),
{
    lemma_sorted_durs(s);
    super::law_percentile_is_member(s, 50);
    super::law_percentile_is_member(s, 90);
    super::law_percentile_is_member(s, 95);
    super::law_percentile_monotone(s, 50, 90);
    super::law_percentile_monotone(s, 90, 95);
    assert(s.contains(min_of(s)));
    assert(s.contains(max_of(s)));
    let lo = sorted_durs(s)[0].nanos as int;
    let hi = sorted_durs(s)[s.len() - 1].nanos as int;
    lemma_total_bounds(s, lo, hi);
    let n = s.len() as int;
    let t = dur_total(s);
    assert(0 <= lo && hi <= u128::MAX);
    assert(0 <= t / n <= hi) by (nonlinear_arith)
        requires n * lo <= t <= n * hi, n > 0, lo >= 0;
}

/// Sum of a vector of durations.
fn sum_durations(v: &Vec<Duration>) -> (total: u128)
    requires
        dur_total(v@) <= max_nanos(),
    ensures
        total == dur_total(v@),
{
    let mut total: u128 = 0;
    let mut i: usize = 0;
    while i < v.len()
        invariant
            i <= v@.len(),
            dur_total(v@) <= max_nanos(),
            total == dur_total(v@.take(i as int)),
        decreases v@.len() - i,
    {
        proof {
            lemma_dur_total_prefix(v@, i + 1);
            assert(v@.take(i + 1).drop_last() =~= v@.take(i as int));
        }
        total = total + v[i].nanos;
        i = i + 1;
    }
    assert(v@.take(v@.len() as int) =~= v@);
    total
}

/// Mean of `v`, rounded down to the nanosecond.
fn mean_duration(v: &Vec<Duration>) -> (m: Duration)
    requires
        dur_total(v@) <= max_nanos(),
        v@.len() <= u32::MAX,
    ensures
        m == mean_of(v@),
{
    if v.len() == 0 {
        return Duration::zero();
    }
    let total = sum_durations(v);
    let d = Duration { nanos: total };
    d.div_u32(v.len() as u32)
}

/// Copies the percentiles, minimum and maximum out of `v`, sorting it.
fn order_stats(v: &mut Vec<Duration>) -> (r: (Duration, Duration, Duration, Duration, Duration))
    ensures
        r.0 == percentile_of(old(v)@, 50),
        r.1 == percentile_of(old(v)@, 90),
        r.2 == percentile_of(old(v)@, 95),
        r.3 == min_of(old(v)@),
        r.4 == max_of(old(v)@),
{
    let ghost orig = v@;
    let p50 = percentile(v, 50);
    proof {
        lemma_sorted_durs(orig);
        lemma_sorted_is_sorted_durs(sorted_durs(orig), sorted_durs(orig));
    }
    let p90 = percentile(v, 90);
    let p95 = percentile(v, 95);
    if v.len() == 0 {
        return (p50, p90, p95, Duration::zero(), Duration::zero());
    }
    let lo = v[0];
    let hi = v[v.len() - 1];
    (p50, p90, p95, lo, hi)
}

/// Gathers every inter-token gap of `samples`, or the non-zero average
/// TPOTs when there are none.
fn collect_token_latencies(samples: &[Sample]) -> (res: Vec<Duration>)
    ensures
        res@ == token_latencies(samples@),
{
    let mut all: Vec<Duration> = Vec::new();
    let mut i: usize = 0;
    while i < samples.len()
        invariant
            i <= samples@.len(),
            all@ == all_token_timings(samples@.take(i as int)),
        decreases samples@.len() - i,
    {
        let ghost prev = all@;
        let tt = &samples[i].token_timings;
        let mut j: usize = 0;
        while j < tt.len()
            invariant
                j <= tt@.len(),
                all@ == prev + tt@.take(j as int),
            decreases tt@.len() - j,
        {
            all.push(tt[j]);
            j = j + 1;
            assert(all@ =~= prev + tt@.take(j as int));
        }
        assert(tt@.take(j as int) =~= tt@);
        assert(samples@.take(i + 1).drop_last() =~= samples@.take(i as int));
        i = i + 1;
    }
    assert(samples@.take(samples@.len() as int) =~= samples@);
    if all.len() > 0 {
        return all;
    }
    let mut pos: Vec<Duration> = Vec::new();
    let mut k: usize = 0;
    while k < samples.len()
        invariant
            k <= samples@.len(),
            pos@ == positive_tpots(samples@.take(k as int)),
        decreases samples@.len() - k,
    {
        assert(samples@.take(k + 1).drop_last() =~= samples@.take(k as int));
        if samples[k].tpot.nanos > 0 {
            pos.push(samples[k].tpot);
        }
        k = k + 1;
    }
    pos
}


/// Whether `v`'s durations add up to no more than `Duration` can hold.
fn durations_fit(v: &Vec<Duration>) -> (b: bool)
    ensures
        b == (dur_total(v@) <= max_nanos()),
{
    let max: u128 = 18446744073709551615999999999u128;
    let mut total: u128 = 0;
    let mut i: usize = 0;
    while i < v.len()
        invariant
            i <= v@.len(),
            max == max_nanos(),
            total == dur_total(v@.take(i as int)),
            total <= max,
        decreases v@.len() - i,
    {
        assert(v@.take(i + 1).drop_last() =~= v@.take(i as int));
        if v[i].nanos > max - total {
            proof {
                lemma_dur_total_prefix(v@, i + 1);
            }
            return false;
        }
        total = total + v[i].nanos;
        i = i + 1;
    }
    assert(v@.take(v@.len() as int) =~= v@);
    true
}

/// Whether [`calc_stats`] may be asked about `samples`: the counts, the
/// duration sums and the token sums all stay within machine limits.
pub fn stats_inputs_fit(samples: &[Sample]) -> (b: bool)
    ensures
        b == stats_inputs_ok(samples@),
{
    if samples.len() > 4294967295 {
        return false;
    }
    let lat = collect_token_latencies(samples);
    if lat.len() > 4294967295 {
        return false;
    }
    let mut ttfts: Vec<Duration> = Vec::new();
    let mut prompt: usize = 0;
    let mut output: usize = 0;
    let mut cached: usize = 0;
    let mut i: usize = 0;
    while i < samples.len()
        invariant
            i <= samples@.len(),
            ttfts@ == ttfts_of(samples@.take(i as int)),
            prompt == prompt_total(samples@.take(i as int)),
            output == output_total(samples@.take(i as int)),
            cached == cached_total(samples@.take(i as int)),
        decreases samples@.len() - i,
    {
        assert(samples@.take(i + 1).drop_last() =~= samples@.take(i as int));
        assert(ttfts_of(samples@.take(i + 1)) =~= ttfts_of(samples@.take(i as int)).push(samples@[i as int].ttft));
        let s = &samples[i];
        if s.prompt_tokens > usize::MAX - prompt || s.output_tokens > usize::MAX - output
            || s.cached_tokens > usize::MAX - cached {
            proof {
                lemma_totals_prefix(samples@, i + 1);
            }
            return false;
        }
        ttfts.push(s.ttft);
        prompt = prompt + s.prompt_tokens;
        output = output + s.output_tokens;
        cached = cached + s.cached_tokens;
        i = i + 1;
    }
    assert(samples@.take(samples@.len() as int) =~= samples@);
    durations_fit(&ttfts) && durations_fit(&lat)
}

/// Latency percentiles, means, extremes and token totals of a run.
///
/// TTFT statistics are over the samples' times to first token; TPOT
/// statistics over [`token_latencies`]. With no samples every figure is
/// zero, the run's duration included.
pub fn calc_stats(samples: &[Sample], wall_clock: Duration) -> (res: Stats)
    requires
        stats_inputs_ok(samples@),
    ensures
        res == stats_of(samples@, wall_clock),
{
    if samples.len() == 0 {
        return Stats::empty();
    }
    let n = samples.len();
    let mut ttfts: Vec<Duration> = Vec::new();
    let mut prompt: usize = 0;
    let mut output: usize = 0;
    let mut cached: usize = 0;
    let mut i: usize = 0;
    while i < n
        invariant
            n == samples@.len(),
            i <= n,
            stats_inputs_ok(samples@),
            ttfts@ == ttfts_of(samples@.take(i as int)),
            prompt == prompt_total(samples@.take(i as int)),
            output == output_total(samples@.take(i as int)),
            cached == cached_total(samples@.take(i as int)),
        decreases n - i,
    {
        proof {
            lemma_totals_prefix(samples@, i + 1);
            assert(samples@.take(i + 1).drop_last() =~= samples@.take(i as int));
        }
        ttfts.push(samples[i].ttft);
        prompt = prompt + samples[i].prompt_tokens;
        output = output + samples[i].output_tokens;
        cached = cached + samples[i].cached_tokens;
        i = i + 1;
        assert(ttfts@ =~= ttfts_of(samples@.take(i as int)));
    }
    assert(samples@.take(n as int) =~= samples@);
    let ttft_mean = mean_duration(&ttfts);
    let mut lat = collect_token_latencies(samples);
    let tpot_mean = mean_duration(&lat);
    let (t50, t90, t95, tmin, tmax) = order_stats(&mut ttfts);
    let (l50, l90, l95, lmin, lmax) = order_stats(&mut lat);
    Stats {
        total_requests: n,
        total_duration: wall_clock,
        ttft_mean,
        ttft_p50: t50,
        ttft_p90: t90,
        ttft_p95: t95,
        ttft_min: tmin,
        ttft_max: tmax,
        tpot_mean,
        tpot_p50: l50,
        tpot_p90: l90,
        tpot_p95: l95,
        tpot_min: lmin,
        tpot_max: lmax,
        total_prompt_tokens: prompt,
        total_output_tokens: output,
        total_cached_tokens: cached,
    }
}

} // verus!

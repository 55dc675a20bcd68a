use iperf::duration::Duration;
use iperf::metrics::stats::{calc_stats, Stats};
use iperf::metrics::{percentile, Collector, Sample};

fn sample(ttft_ms: u64, prompt: usize, output: usize, tpot_ms: u64, timings: &[u64]) -> Sample {
    Sample {
        ttft: Duration::from_millis(ttft_ms),
        prefill_dur: Duration::from_millis(ttft_ms),
        decode_dur: Duration::from_millis(0),
        total_dur: Duration::from_millis(ttft_ms),
        prompt_tokens: prompt,
        output_tokens: output,
        cached_tokens: 0,
        tpot: Duration::from_millis(tpot_ms),
        token_timings: timings.iter().map(|&t| Duration::from_millis(t)).collect(),
    }
}

#[test]
fn test_calc_stats_empty() {
    let stats = calc_stats(&[], Duration::from_secs(10));
    assert_eq!(stats.total_requests, 0);
}

#[test]
fn test_calc_stats_basic() {
    let samples = vec![
        Sample {
            ttft: Duration::from_millis(50),
            prefill_dur: Duration::from_millis(50),
            decode_dur: Duration::from_millis(200),
            total_dur: Duration::from_millis(250),
            prompt_tokens: 100,
            output_tokens: 50,
            cached_tokens: 0,
            tpot: Duration::from_millis(4),
            token_timings: vec![Duration::from_millis(4), Duration::from_millis(5)],
        },
        Sample {
            ttft: Duration::from_millis(30),
            prefill_dur: Duration::from_millis(30),
            decode_dur: Duration::from_millis(150),
            total_dur: Duration::from_millis(180),
            prompt_tokens: 80,
            output_tokens: 40,
            cached_tokens: 0,
            tpot: Duration::from_millis(3),
            token_timings: vec![Duration::from_millis(3), Duration::from_millis(4)],
        },
    ];
    let stats = calc_stats(&samples, Duration::from_secs(1));
    assert_eq!(stats.total_requests, 2);
    assert_eq!(stats.total_prompt_tokens, 180);
    assert_eq!(stats.total_output_tokens, 90);
    // requests per second: requests over the wall-clock seconds
    let requests_per_sec = stats.total_requests as f64 / (stats.total_duration.as_nanos() as f64 / 1e9);
    assert!(requests_per_sec > 0.0);
    assert_eq!(stats.ttft_p50, Duration::from_millis(30));
    assert_eq!(stats.ttft_p95, Duration::from_millis(50));
}

#[test]
fn test_percentile() {
    let mut d = vec![
        Duration::from_millis(10),
        Duration::from_millis(20),
        Duration::from_millis(30),
        Duration::from_millis(40),
        Duration::from_millis(50),
    ];
    assert_eq!(percentile(&mut d, 50), Duration::from_millis(30));
    assert_eq!(percentile(&mut d, 100), Duration::from_millis(50));
}

#[test]
fn percentile_of_nothing_is_zero() {
    let mut d: Vec<Duration> = Vec::new();
    assert_eq!(percentile(&mut d, 90), Duration::zero());
}

#[test]
fn percentile_sorts_first_and_takes_nearest_rank() {
    let mut d = vec![
        Duration::from_millis(40),
        Duration::from_millis(10),
        Duration::from_millis(30),
        Duration::from_millis(20),
    ];
    // ceil(0.9 * 4) = 4th smallest
    assert_eq!(percentile(&mut d, 90), Duration::from_millis(40));
    // ceil(0.25 * 4) = 1st smallest; the vector is left sorted
    assert_eq!(percentile(&mut d, 25), Duration::from_millis(10));
    assert_eq!(d[0], Duration::from_millis(10));
    assert_eq!(d[3], Duration::from_millis(40));
    // p = 0 takes the smallest
    assert_eq!(percentile(&mut d, 0), Duration::from_millis(10));
}

#[test]
fn stats_means_extremes_and_token_latencies() {
    let samples = vec![sample(50, 100, 50, 4, &[4, 5]), sample(30, 80, 40, 3, &[3, 4])];
    let s: Stats = calc_stats(&samples, Duration::from_secs(2));
    assert_eq!(s.ttft_mean, Duration::from_millis(40));
    assert_eq!(s.ttft_min, Duration::from_millis(30));
    assert_eq!(s.ttft_max, Duration::from_millis(50));
    // all four token gaps: 3, 4, 4, 5
    assert_eq!(s.tpot_mean, Duration::from_millis(4));
    assert_eq!(s.tpot_min, Duration::from_millis(3));
    assert_eq!(s.tpot_max, Duration::from_millis(5));
    assert_eq!(s.tpot_p50, Duration::from_millis(4));
    assert_eq!(s.total_duration, Duration::from_secs(2));
}

#[test]
fn stats_fall_back_to_positive_request_tpot() {
    let samples = vec![sample(10, 1, 1, 6, &[]), sample(20, 1, 1, 0, &[]), sample(30, 1, 1, 2, &[])];
    let s = calc_stats(&samples, Duration::from_secs(1));
    // only the two positive per-request averages count
    assert_eq!(s.tpot_mean, Duration::from_millis(4));
    assert_eq!(s.tpot_min, Duration::from_millis(2));
    assert_eq!(s.tpot_max, Duration::from_millis(6));
}

#[test]
fn stats_empty_is_all_zero() {
    let s = Stats::empty();
    assert_eq!(s.total_requests, 0);
    assert_eq!(s.ttft_p95, Duration::zero());
    assert_eq!(s.total_prompt_tokens, 0);
}

#[test]
fn collector_keeps_samples_in_order() {
    let mut c = Collector::new();
    assert_eq!(c.count(), 0);
    c.add(sample(1, 2, 3, 0, &[]));
    c.add(sample(4, 5, 6, 0, &[]));
    assert_eq!(c.count(), 2);
    let all = c.samples();
    assert_eq!(all[0].prompt_tokens, 2);
    assert_eq!(all[1].ttft, Duration::from_millis(4));
}

#[test]
fn durations_compute_exactly() {
    let a = Duration::from_millis(1500);
    assert_eq!(a.as_nanos(), 1_500_000_000);
    assert_eq!(a.add(&Duration::from_micros(1)).as_nanos(), 1_500_001_000);
    assert_eq!(a.sub(&Duration::from_secs(1)), Duration::from_millis(500));
    assert_eq!(a.div_u32(3), Duration::from_millis(500));
    assert!(Duration::from_nanos(1).lt(&Duration::from_nanos(2)));
    assert!(Duration::zero().is_zero());
}

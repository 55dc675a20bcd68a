//! What a watch session decides between samples: where to read metrics,
//! where to write records, how counters moved, when to stop.
use vstd::prelude::*;
use crate::backend::{trim_trailing_slashes, strip_trailing_slashes};
use crate::cli::WatchArgs;
use crate::text::{chars_of, string_of, copy_range, concat, has_suffix, ends_with};

verus! {

/// The `/metrics` endpoint of a server whose API lives at `base`: a final
/// `/v1` (or `/v1/`) is stripped and `/metrics` appended; otherwise
/// `/metrics` follows the base without its trailing slashes.
pub open spec fn metrics_url_for(base: Seq<char>) -> Seq<char> {
    if has_suffix(base, "/v1"@) {
        base.subrange(0, base.len() - "/v1"@.len()) + "/metrics"@
    } else if has_suffix(base, "/v1/"@) {
        base.subrange(0, base.len() - "/v1/"@.len()) + "/metrics"@
    } else {
        trim_trailing_slashes(base) + "/metrics"@
    }
}

fn drop_suffix(s: &str, suf: &str) -> (res: String)
    requires
        has_suffix(s@, suf@),
    ensures
        res@ == s@.subrange(0, s@.len() - suf@.len()),
{
    let cs = chars_of(s);
    let n = chars_of(suf).len();
    let out = copy_range(cs.as_slice(), 0, cs.len() - n);
    string_of(out.as_slice())
}

/// Reads the serving engine's Prometheus metrics.
pub struct InferenceCollector {
    pub metrics_url: String,
    pub backend: String,
}

impl InferenceCollector {
    pub fn new(base_url: &str, backend: &str) -> (c: InferenceCollector)
        ensures
            c.metrics_url@ == metrics_url_for(base_url@),
            c.backend@ == backend@,
    {
        let metrics_url = if ends_with(base_url, "/v1") {
            let head = drop_suffix(base_url, "/v1");
            concat(head.as_str(), "/metrics")
        } else if ends_with(base_url, "/v1/") {
            let head = drop_suffix(base_url, "/v1/");
            concat(head.as_str(), "/metrics")
        } else {
            let head = strip_trailing_slashes(base_url);
            concat(head.as_str(), "/metrics")
        };
        InferenceCollector { metrics_url, backend: backend.to_owned() }
    }
}

/// Reads the GPUs through `nvidia-smi`, when the tool is there.
pub struct GpuCollector {
    available: bool,
}

impl GpuCollector {
    /// A collector for a machine where `nvidia-smi` was found (or not).
    pub fn new(available: bool) -> (c: GpuCollector)
        ensures
            c.is_available_spec() == available,
    {
        GpuCollector { available }
    }

    pub closed spec fn is_available_spec(&self) -> bool {
        self.available
    }

    pub fn is_available(&self) -> (b: bool)
        ensures
            b == self.is_available_spec(),
    {
        self.available
    }
}

// ------------------------------------------------------------------ records

/// The file name records go to: `{model}-{tag}.jsonl`, `{model}.jsonl`
/// when the tag is absent or empty, or `watch.jsonl` when no model is
/// named.
pub open spec fn watch_file_name(model: Option<Seq<char>>, tag: Option<Seq<char>>) -> Seq<char> {
    match (model, tag) {
        (Some(m), Some(t)) => if t.len() > 0 {
            m + "-"@ + t + ".jsonl"@
        } else {
            m + ".jsonl"@
        },
        (Some(m), None) => m + ".jsonl"@,
        _ => "watch"@ + ".jsonl"@,
    }
}

/// The name of the JSONL file a session appends to.
pub fn watch_jsonl_name(model: &Option<String>, tag: &Option<String>) -> (res: String)
    ensures
        res@ == watch_file_name(crate::config::opt_view(*model), crate::config::opt_view(*tag)),
{
    match (model, tag) {
        (Some(m), Some(t)) => {
            if chars_of(t.as_str()).len() > 0 {
                let a = concat(m.as_str(), "-");
                let b = concat(a.as_str(), t.as_str());
                concat(b.as_str(), ".jsonl")
            } else {
                concat(m.as_str(), ".jsonl")
            }
        },
        (Some(m), None) => concat(m.as_str(), ".jsonl"),
        _ => concat("watch", ".jsonl"),
    }
}

/// The server a session watches: the given target, or a local vLLM.
pub fn watch_target(args: &WatchArgs) -> (res: String)
    ensures
        res@ == match args.target {
            Some(t) => t@,
            None => "http://localhost:8000/v1"@,
        },
{
    match &args.target {
        Some(t) => t.clone(),
        None => "http://localhost:8000/v1".to_owned(),
    }
}

/// The backend a session assumes: the given one, or `vllm`.
pub fn watch_backend(args: &WatchArgs) -> (res: String)
    ensures
        res@ == match args.backend {
            Some(b) => b@,
            None => "vllm"@,
        },
{
    match &args.backend {
        Some(b) => b.clone(),
        None => "vllm".to_owned(),
    }
}

// ------------------------------------------------------------------ counters

/// The monotone counters of one sample that rates are derived from.
#[derive(Clone, Copy, Debug, PartialEq, Eq, Structural)]
pub struct CounterSnapshot {
    pub generation_tokens_total: Option<u64>,
    pub prompt_tokens_total: Option<u64>,
    pub num_requests_processed: Option<u64>,
}

/// How far each counter moved between two samples.
#[derive(Clone, Copy, Debug, PartialEq, Eq, Structural)]
pub struct CounterDeltas {
    pub generation_tokens: Option<u64>,
    pub prompt_tokens: Option<u64>,
    pub requests: Option<u64>,
}

/// How far a counter moved: known when both samples have it, and zero
/// when it went back (the server restarted).
pub open spec fn delta_spec(cur: Option<u64>, prev: Option<u64>) -> Option<u64> {
    match (cur, prev) {
        (Some(c), Some(p)) => Some(if c >= p { (c - p) as u64 } else { 0 }),
        _ => None,
    }
}

pub fn counter_delta(cur: Option<u64>, prev: Option<u64>) -> (d: Option<u64>)
    ensures
        d == delta_spec(cur, prev),
{
    match (cur, prev) {
        (Some(c), Some(p)) => Some(c.saturating_sub(p)),
        _ => None,
    }
}

/// The movements between `previous` and `current` over `interval_secs`
/// seconds: none at all for the first sample or a zero interval.
pub fn counter_deltas(current: &CounterSnapshot, previous: Option<CounterSnapshot>, interval_secs: u64) -> (d: CounterDeltas)
    ensures
        interval_secs == 0 || previous is None ==> d == (CounterDeltas {
            generation_tokens: None,
            prompt_tokens: None,
            requests: None,
        }),
        previous matches Some(p) ==> interval_secs == 0 || d == (CounterDeltas {
            generation_tokens: delta_spec(current.generation_tokens_total, p.generation_tokens_total),
            prompt_tokens: delta_spec(current.prompt_tokens_total, p.prompt_tokens_total),
            requests: delta_spec(current.num_requests_processed, p.num_requests_processed),
        }),
{
    let none = CounterDeltas { generation_tokens: None, prompt_tokens: None, requests: None };
    if interval_secs == 0 {
        return none;
    }
    match previous {
        None => none,
        Some(p) => CounterDeltas {
            generation_tokens: counter_delta(current.generation_tokens_total, p.generation_tokens_total),
            prompt_tokens: counter_delta(current.prompt_tokens_total, p.prompt_tokens_total),
            requests: counter_delta(current.num_requests_processed, p.num_requests_processed),
        },
    }
}

/// A session stops once cancelled, or once its time limit, if it has one,
/// has passed.
pub fn should_stop(elapsed_ms: u128, limit_ms: Option<u128>, cancelled: bool) -> (b: bool)
    ensures
        b == (cancelled || (match limit_ms {
            Some(l) => elapsed_ms >= l,
            None => false,
        })),
{
    match limit_ms {
        Some(l) => {
            if elapsed_ms >= l {
                return true;
            }
        },
        None => {},
    }
    cancelled
}

// ------------------------------------------------------------------ laws

/// A counter that advanced by `d` between two samples shows a movement of
/// exactly `d`; one that went back shows none.
pub proof fn law_delta_measures_advance(prev: u64, d: u64)
    requires
        prev + d <= u64::MAX,
    ensures
        delta_spec(Some((prev + d) as u64), Some(prev)) == Some(d),
        d > 0 ==> delta_spec(Some(prev), Some((prev + d) as u64)) == Some(0u64),
{
}

} // verus!

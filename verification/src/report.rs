//! Presenting a run's results: which output is asked for, and the file
//! JSONL records are appended to.
use vstd::prelude::*;
use crate::config::Config;
use crate::text::{chars_of, string_of, concat, push_decimal, decimal};

verus! {

/// What a finished run is rendered with, and the settings it reports.
pub struct Renderer {
    pub format: String,
    pub output_dir: String,
    pub model: String,
    pub backend: String,
    pub base_url: String,
    pub concurrent: usize,
    pub mode: String,
    pub tag: String,
    pub prompt_tokens: usize,
    pub output_tokens: usize,
    pub duration: u64,
    pub no_cache: bool,
    pub seed: i64,
    pub prompt_tokens_stddev: usize,
    pub http_proxy: String,
    pub cache_rate: usize,
    pub num_prefix_prompts: usize,
    pub interrupted: bool,
    pub warmup: bool,
}

/// How results are printed.
#[derive(Clone, Copy, Debug, PartialEq, Eq, Structural)]
pub enum OutputFormat {
    /// One pretty-printed JSON object.
    Json,
    /// A human-readable table.
    Table,
}

/// The model name made safe for a file name: every `/` becomes `_`.
pub open spec fn file_safe(s: Seq<char>) -> Seq<char> {
    s.map_values(|c: char| if c == '/' { '_' } else { c })
}

/// `{model}.jsonl`, or `{model}-{tag}.jsonl` for a non-empty tag.
pub open spec fn jsonl_name(model: Seq<char>, tag: Seq<char>) -> Seq<char> {
    if tag.len() == 0 {
        file_safe(model) + ".jsonl"@
    } else {
        file_safe(model) + "-"@ + tag + ".jsonl"@
    }
}

fn file_safe_string(s: &str) -> (res: String)
    ensures
        res@ == file_safe(s@),
{
    let cs = chars_of(s);
    let mut out: Vec<char> = Vec::new();
    let mut i: usize = 0;
    while i < cs.len()
        invariant
            i <= cs@.len(),
            cs@ == s@,
            out@ == file_safe(cs@.take(i as int)),
        decreases cs@.len() - i,
    {
        let c = cs[i];
        out.push(if c == '/' { '_' } else { c });
        assert(file_safe(cs@.take(i + 1)) =~= file_safe(cs@.take(i as int)).push(if c == '/' { '_' } else { c }));
        i = i + 1;
    }
    assert(cs@.take(cs@.len() as int) =~= cs@);
    string_of(out.as_slice())
}

impl Renderer {
    /// The renderer of a run made with `cfg`.
    pub fn from_config(cfg: &Config, interrupted: bool, warmup: bool) -> (r: Renderer)
        ensures
            r.format@ == cfg.format@,
            r.output_dir@ == cfg.output_dir@,
            r.model@ == cfg.model@,
            r.backend@ == cfg.backend@,
            r.base_url@ == cfg.base_url@,
            r.concurrent == cfg.concurrency,
            r.mode@ == cfg.mode@,
            r.tag@ == cfg.tag@,
            r.prompt_tokens == cfg.prompt_tokens,
            r.output_tokens == cfg.output_tokens,
            r.duration == cfg.duration_secs,
            r.no_cache == cfg.no_cache,
            r.seed == cfg.seed,
            r.prompt_tokens_stddev == cfg.prompt_stddev,
            r.http_proxy@ == cfg.http_proxy@,
            r.cache_rate == cfg.cache_rate,
            r.num_prefix_prompts == cfg.num_prefix_prompts,
            r.interrupted == interrupted,
            r.warmup == warmup,
    {
        Renderer {
            format: cfg.format.clone(),
            output_dir: cfg.output_dir.clone(),
            model: cfg.model.clone(),
            backend: cfg.backend.clone(),
            base_url: cfg.base_url.clone(),
            concurrent: cfg.concurrency,
            mode: cfg.mode.clone(),
            tag: cfg.tag.clone(),
            prompt_tokens: cfg.prompt_tokens,
            output_tokens: cfg.output_tokens,
            duration: cfg.duration_secs,
            no_cache: cfg.no_cache,
            seed: cfg.seed,
            prompt_tokens_stddev: cfg.prompt_stddev,
            http_proxy: cfg.http_proxy.clone(),
            cache_rate: cfg.cache_rate,
            num_prefix_prompts: cfg.num_prefix_prompts,
            interrupted,
            warmup,
        }
    }

    /// JSON when the format is `json`, a table for anything else.
    pub fn output_format(&self) -> (f: OutputFormat)
        ensures
            f == (if self.format@ == "json"@ { OutputFormat::Json } else { OutputFormat::Table }),
    {
        if self.format == "json".to_owned() {
            OutputFormat::Json
        } else {
            OutputFormat::Table
        }
    }

    /// The file in the output directory that records are appended to.
    pub fn jsonl_file_name(&self) -> (res: String)
        ensures
            res@ == jsonl_name(self.model@, self.tag@),
    {
        let m = file_safe_string(self.model.as_str());
        let t = chars_of(self.tag.as_str());
        if t.len() == 0 {
            concat(m.as_str(), ".jsonl")
        } else {
            let a = concat(m.as_str(), "-");
            let b = concat(a.as_str(), self.tag.as_str());
            concat(b.as_str(), ".jsonl")
        }
    }
}

/// A whole number of seconds as Go prints a duration: `45s`, `5m0s`,
/// `1h2m3s`.
pub open spec fn go_duration(secs: nat) -> Seq<char> {
    if secs >= 3600 {
        decimal(secs / 3600) + seq!['h'] + decimal((secs % 3600) / 60) + seq!['m'] + decimal(secs % 60) + seq!['s']
    } else if secs >= 60 {
        decimal(secs / 60) + seq!['m'] + decimal(secs % 60) + seq!['s']
    } else {
        decimal(secs) + seq!['s']
    }
}

pub fn fmt_duration_go(secs: u64) -> (res: String)
    ensures
        res@ == go_duration(secs as nat),
{
    let mut out: Vec<char> = Vec::new();
    if secs >= 3600 {
        push_decimal(&mut out, secs / 3600);
        out.push('h');
        push_decimal(&mut out, (secs % 3600) / 60);
        out.push('m');
        push_decimal(&mut out, secs % 60);
        out.push('s');
    } else if secs >= 60 {
        push_decimal(&mut out, secs / 60);
        out.push('m');
        push_decimal(&mut out, secs % 60);
        out.push('s');
    } else {
        push_decimal(&mut out, secs);
        out.push('s');
    }
    assert(out@ =~= go_duration(secs as nat));
    string_of(out.as_slice())
}

} // verus!

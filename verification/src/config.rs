//! Benchmark configuration: defaults, the YAML file's fields, and
//! command-line overrides, which take priority over the file.
use vstd::prelude::*;
use crate::duration::Duration;

verus! {

/// Settings of a benchmark run.
#[derive(Debug)]
pub struct Config {
    pub backend: String,
    pub base_url: String,
    pub model: String,
    pub concurrency: usize,
    pub duration_secs: u64,
    pub request_count: usize,
    pub mode: String,
    pub prompt_tokens: usize,
    pub output_tokens: usize,
    pub no_cache: bool,
    pub num_prefix_prompts: usize,
    pub cache_rate: usize,
    pub seed: i64,
    pub prompt_stddev: usize,
    pub system_prompt_tokens: usize,
    pub num_system_prompts: usize,
    pub format: String,
    pub output_dir: String,
    pub tag: String,
    pub http_proxy: String,
    pub trace: Option<usize>,
}

/// Mathematical value of a [`Config`].
pub ghost struct ConfigView {
    pub backend: Seq<char>,
    pub base_url: Seq<char>,
    pub model: Seq<char>,
    pub concurrency: usize,
    pub duration_secs: u64,
    pub request_count: usize,
    pub mode: Seq<char>,
    pub prompt_tokens: usize,
    pub output_tokens: usize,
    pub no_cache: bool,
    pub num_prefix_prompts: usize,
    pub cache_rate: usize,
    pub seed: i64,
    pub prompt_stddev: usize,
    pub system_prompt_tokens: usize,
    pub num_system_prompts: usize,
    pub format: Seq<char>,
    pub output_dir: Seq<char>,
    pub tag: Seq<char>,
    pub http_proxy: Seq<char>,
    pub trace: Option<usize>,
}

impl View for Config {
    type V = ConfigView;

    open spec fn view(&self) -> ConfigView {
        ConfigView {
            backend: self.backend@,
            base_url: self.base_url@,
            model: self.model@,
            concurrency: self.concurrency,
            duration_secs: self.duration_secs,
            request_count: self.request_count,
            mode: self.mode@,
            prompt_tokens: self.prompt_tokens,
            output_tokens: self.output_tokens,
            no_cache: self.no_cache,
            num_prefix_prompts: self.num_prefix_prompts,
            cache_rate: self.cache_rate,
            seed: self.seed,
            prompt_stddev: self.prompt_stddev,
            system_prompt_tokens: self.system_prompt_tokens,
            num_system_prompts: self.num_system_prompts,
            format: self.format@,
            output_dir: self.output_dir@,
            tag: self.tag@,
            http_proxy: self.http_proxy@,
            trace: self.trace,
        }
    }
}

/// Settings given on the command line; `None` keeps the configured value.
#[derive(Debug)]
pub struct ConfigOverrides {
    pub backend: Option<String>,
    pub base_url: Option<String>,
    pub model: Option<String>,
    pub concurrency: Option<usize>,
    pub duration_secs: Option<u64>,
    pub request_count: Option<usize>,
    pub mode: Option<String>,
    pub prompt_tokens: Option<usize>,
    pub output_tokens: Option<usize>,
    pub no_cache: Option<bool>,
    pub num_prefix_prompts: Option<usize>,
    pub cache_rate: Option<usize>,
    pub seed: Option<i64>,
    pub prompt_stddev: Option<usize>,
    pub system_prompt_tokens: Option<usize>,
    pub num_system_prompts: Option<usize>,
    pub format: Option<String>,
    pub output_dir: Option<String>,
    pub tag: Option<String>,
    pub http_proxy: Option<String>,
    pub trace: Option<usize>,
}

/// Mathematical value of a [`ConfigOverrides`].
pub ghost struct OverridesView {
    pub backend: Option<Seq<char>>,
    pub base_url: Option<Seq<char>>,
    pub model: Option<Seq<char>>,
    pub concurrency: Option<usize>,
    pub duration_secs: Option<u64>,
    pub request_count: Option<usize>,
    pub mode: Option<Seq<char>>,
    pub prompt_tokens: Option<usize>,
    pub output_tokens: Option<usize>,
    pub no_cache: Option<bool>,
    pub num_prefix_prompts: Option<usize>,
    pub cache_rate: Option<usize>,
    pub seed: Option<i64>,
    pub prompt_stddev: Option<usize>,
    pub system_prompt_tokens: Option<usize>,
    pub num_system_prompts: Option<usize>,
    pub format: Option<Seq<char>>,
    pub output_dir: Option<Seq<char>>,
    pub tag: Option<Seq<char>>,
    pub http_proxy: Option<Seq<char>>,
    pub trace: Option<usize>,
}

pub open spec fn opt_view(o: Option<String>) -> Option<Seq<char>> {
    match o {
        Some(s) => Some(s@),
        None => None,
    }
}

impl View for ConfigOverrides {
    type V = OverridesView;

    open spec fn view(&self) -> OverridesView {
        OverridesView {
            backend: opt_view(self.backend),
            base_url: opt_view(self.base_url),
            model: opt_view(self.model),
            concurrency: self.concurrency,
            duration_secs: self.duration_secs,
            request_count: self.request_count,
            mode: opt_view(self.mode),
            prompt_tokens: self.prompt_tokens,
            output_tokens: self.output_tokens,
            no_cache: self.no_cache,
            num_prefix_prompts: self.num_prefix_prompts,
            cache_rate: self.cache_rate,
            seed: self.seed,
            prompt_stddev: self.prompt_stddev,
            system_prompt_tokens: self.system_prompt_tokens,
            num_system_prompts: self.num_system_prompts,
            format: opt_view(self.format),
            output_dir: opt_view(self.output_dir),
            tag: opt_view(self.tag),
            http_proxy: opt_view(self.http_proxy),
            trace: self.trace,
        }
    }
}

/// The value `o` gives, else `v`.
pub open spec fn pick<T>(o: Option<T>, v: T) -> T {
    match o {
        Some(x) => x,
        None => v,
    }
}

/// `c` with every setting that `o` gives replaced by it.
pub open spec fn merge_view(c: ConfigView, o: OverridesView) -> ConfigView {
    ConfigView {
        backend: pick(o.backend, c.backend),
        base_url: pick(o.base_url, c.base_url),
        model: pick(o.model, c.model),
        concurrency: pick(o.concurrency, c.concurrency),
        duration_secs: pick(o.duration_secs, c.duration_secs),
        request_count: pick(o.request_count, c.request_count),
        mode: pick(o.mode, c.mode),
        prompt_tokens: pick(o.prompt_tokens, c.prompt_tokens),
        output_tokens: pick(o.output_tokens, c.output_tokens),
        no_cache: pick(o.no_cache, c.no_cache),
        num_prefix_prompts: pick(o.num_prefix_prompts, c.num_prefix_prompts),
        cache_rate: pick(o.cache_rate, c.cache_rate),
        seed: pick(o.seed, c.seed),
        prompt_stddev: pick(o.prompt_stddev, c.prompt_stddev),
        system_prompt_tokens: pick(o.system_prompt_tokens, c.system_prompt_tokens),
        num_system_prompts: pick(o.num_system_prompts, c.num_system_prompts),
        format: pick(o.format, c.format),
        output_dir: pick(o.output_dir, c.output_dir),
        tag: pick(o.tag, c.tag),
        http_proxy: pick(o.http_proxy, c.http_proxy),
        trace: match o.trace { Some(t) => Some(t), None => c.trace },
    }
}

/// Overrides that give nothing.
pub open spec fn no_overrides() -> OverridesView {
    OverridesView {
        backend: None,
        base_url: None,
        model: None,
        concurrency: None,
        duration_secs: None,
        request_count: None,
        mode: None,
        prompt_tokens: None,
        output_tokens: None,
        no_cache: None,
        num_prefix_prompts: None,
        cache_rate: None,
        seed: None,
        prompt_stddev: None,
        system_prompt_tokens: None,
        num_system_prompts: None,
        format: None,
        output_dir: None,
        tag: None,
        http_proxy: None,
        trace: None,
    }
}

/// `b`'s settings, and `a`'s where `b` gives none.
pub open spec fn combine_overrides(a: OverridesView, b: OverridesView) -> OverridesView {
    OverridesView {
        backend: match b.backend { Some(x) => Some(x), None => a.backend },
        base_url: match b.base_url { Some(x) => Some(x), None => a.base_url },
        model: match b.model { Some(x) => Some(x), None => a.model },
        concurrency: match b.concurrency { Some(x) => Some(x), None => a.concurrency },
        duration_secs: match b.duration_secs { Some(x) => Some(x), None => a.duration_secs },
        request_count: match b.request_count { Some(x) => Some(x), None => a.request_count },
        mode: match b.mode { Some(x) => Some(x), None => a.mode },
        prompt_tokens: match b.prompt_tokens { Some(x) => Some(x), None => a.prompt_tokens },
        output_tokens: match b.output_tokens { Some(x) => Some(x), None => a.output_tokens },
        no_cache: match b.no_cache { Some(x) => Some(x), None => a.no_cache },
        num_prefix_prompts: match b.num_prefix_prompts { Some(x) => Some(x), None => a.num_prefix_prompts },
        cache_rate: match b.cache_rate { Some(x) => Some(x), None => a.cache_rate },
        seed: match b.seed { Some(x) => Some(x), None => a.seed },
        prompt_stddev: match b.prompt_stddev { Some(x) => Some(x), None => a.prompt_stddev },
        system_prompt_tokens: match b.system_prompt_tokens { Some(x) => Some(x), None => a.system_prompt_tokens },
        num_system_prompts: match b.num_system_prompts { Some(x) => Some(x), None => a.num_system_prompts },
        format: match b.format { Some(x) => Some(x), None => a.format },
        output_dir: match b.output_dir { Some(x) => Some(x), None => a.output_dir },
        tag: match b.tag { Some(x) => Some(x), None => a.tag },
        http_proxy: match b.http_proxy { Some(x) => Some(x), None => a.http_proxy },
        trace: match b.trace { Some(x) => Some(x), None => a.trace },
    }
}

fn clone_opt(o: &Option<String>) -> (res: Option<String>)
    ensures
        opt_view(res) == opt_view(*o),
{
    match o {
        Some(s) => Some(s.clone()),
        None => None,
    }
}

fn merge_text(v: &mut String, o: &Option<String>)
    ensures
        final(v)@ == pick(opt_view(*o), old(v)@),
{
    if let Some(x) = o {
        *v = x.clone();
    }
}

fn merge_value<T: Copy>(v: &mut T, o: Option<T>)
    ensures
        *final(v) == pick(o, *old(v)),
{
    if let Some(x) = o {
        *v = x;
    }
}

impl Config {
    /// Applies the settings given on the command line; the others keep
    /// their configured values.
    pub fn merge_overrides(&mut self, o: &ConfigOverrides)
        ensures
            final(self)@ == merge_view(old(self)@, o@),
    {
        merge_text(&mut self.backend, &o.backend);
        merge_text(&mut self.base_url, &o.base_url);
        merge_text(&mut self.model, &o.model);
        merge_value(&mut self.concurrency, o.concurrency);
        merge_value(&mut self.duration_secs, o.duration_secs);
        merge_value(&mut self.request_count, o.request_count);
        merge_text(&mut self.mode, &o.mode);
        merge_value(&mut self.prompt_tokens, o.prompt_tokens);
        merge_value(&mut self.output_tokens, o.output_tokens);
        merge_value(&mut self.no_cache, o.no_cache);
        merge_value(&mut self.num_prefix_prompts, o.num_prefix_prompts);
        merge_value(&mut self.cache_rate, o.cache_rate);
        merge_value(&mut self.seed, o.seed);
        merge_value(&mut self.prompt_stddev, o.prompt_stddev);
        merge_value(&mut self.system_prompt_tokens, o.system_prompt_tokens);
        merge_value(&mut self.num_system_prompts, o.num_system_prompts);
        merge_text(&mut self.format, &o.format);
        merge_text(&mut self.output_dir, &o.output_dir);
        merge_text(&mut self.tag, &o.tag);
        merge_text(&mut self.http_proxy, &o.http_proxy);
        if let Some(t) = o.trace {
            self.trace = Some(t);
        }
    }

    /// The run's duration limit.
    pub fn duration(&self) -> (d: Duration)
        ensures
            d@ == self.duration_secs * 1_000_000_000,
    {
        Duration::from_secs(self.duration_secs)
    }

    /// The default settings, writing results to `output_dir`.
    pub fn new_default(output_dir: &str) -> (c: Config)
        ensures
            c.backend@ == "vllm"@,
            c.base_url@ == "http://localhost:8000/v1"@,
            c.model@ == Seq::<char>::empty(),
            c.concurrency == 1,
            c.duration_secs == 3600,
            c.request_count == 0,
            c.mode@ == "stream"@,
            c.prompt_tokens == 256,
            c.output_tokens == 256,
            c.no_cache == false,
            c.num_prefix_prompts == 100,
            c.cache_rate == 0,
            c.seed == 0,
            c.prompt_stddev == 0,
            c.system_prompt_tokens == 0,
            c.num_system_prompts == 1,
            c.format@ == "table"@,
            c.output_dir@ == output_dir@,
            c.tag@ == Seq::<char>::empty(),
            c.http_proxy@ == Seq::<char>::empty(),
            c.trace is None,
    {
        Config {
            backend: default_backend(),
            base_url: default_base_url(),
            model: String::new(),
            concurrency: default_concurrency(),
            duration_secs: default_duration_secs(),
            request_count: 0,
            mode: default_mode(),
            prompt_tokens: default_prompt_tokens(),
            output_tokens: default_output_tokens(),
            no_cache: false,
            num_prefix_prompts: default_num_prefix_prompts(),
            cache_rate: 0,
            seed: 0,
            prompt_stddev: 0,
            system_prompt_tokens: 0,
            num_system_prompts: default_num_system_prompts(),
            format: default_format(),
            output_dir: output_dir.to_owned(),
            tag: String::new(),
            http_proxy: String::new(),
            trace: None,
        }
    }
}

/// Backend used when none is configured.
pub fn default_backend() -> (s: String)
    ensures
        s@ == "vllm"@,
{
    "vllm".to_owned()
}

/// Server address used when none is configured.
pub fn default_base_url() -> (s: String)
    ensures
        s@ == "http://localhost:8000/v1"@,
{
    "http://localhost:8000/v1".to_owned()
}

/// Concurrent workers when none are configured.
pub fn default_concurrency() -> (v: usize)
    ensures
        v == 1,
{
    1
}

/// Run length in seconds when none is configured.
pub fn default_duration_secs() -> (v: u64)
    ensures
        v == 3600,
{
    3600
}

/// Request mode when none is configured.
pub fn default_mode() -> (s: String)
    ensures
        s@ == "stream"@,
{
    "stream".to_owned()
}

/// Prompt size in tokens when none is configured.
pub fn default_prompt_tokens() -> (v: usize)
    ensures
        v == 256,
{
    256
}

/// Output limit in tokens when none is configured.
pub fn default_output_tokens() -> (v: usize)
    ensures
        v == 256,
{
    256
}

/// User prompt pool size when none is configured.
pub fn default_num_prefix_prompts() -> (v: usize)
    ensures
        v == 100,
{
    100
}

/// System prompt pool size when none is configured.
pub fn default_num_system_prompts() -> (v: usize)
    ensures
        v == 1,
{
    1
}

/// Output format when none is configured.
pub fn default_format() -> (s: String)
    ensures
        s@ == "table"@,
{
    "table".to_owned()
}

/// Merging overrides that give nothing changes nothing.
pub proof fn law_merge_nothing(c: ConfigView)
    ensures
        merge_view(c, no_overrides()) == c,
{
}

/// Merging the same overrides twice is merging them once.
pub proof fn law_merge_idempotent(c: ConfigView, o: OverridesView)
    ensures
        merge_view(merge_view(c, o), o) == merge_view(c, o),
{
}

/// Merging `a` and then `b` is merging their combination, where `b`'s
/// settings win: the last source given takes priority.
pub proof fn law_merge_later_wins(c: ConfigView, a: OverridesView, b: OverridesView)
    ensures
        merge_view(merge_view(c, a), b) == merge_view(c, combine_overrides(a, b)),
{
}


/// Each setting an override gives wins over the configured one, field by
/// field, and each setting it leaves out keeps the configured value.
pub proof fn law_override_wins_per_field(c: ConfigView, o: OverridesView)
    ensures
        o.backend matches Some(x) ==> merge_view(c, o).backend == x,
        o.backend is None ==> merge_view(c, o).backend == c.backend,
        o.base_url matches Some(x) ==> merge_view(c, o).base_url == x,
        o.base_url is None ==> merge_view(c, o).base_url == c.base_url,
        o.model matches Some(x) ==> merge_view(c, o).model == x,
        o.model is None ==> merge_view(c, o).model == c.model,
        o.concurrency matches Some(x) ==> merge_view(c, o).concurrency == x,
        o.concurrency is None ==> merge_view(c, o).concurrency == c.concurrency,
        o.duration_secs matches Some(x) ==> merge_view(c, o).duration_secs == x,
        o.duration_secs is None ==> merge_view(c, o).duration_secs == c.duration_secs,
        o.request_count matches Some(x) ==> merge_view(c, o).request_count == x,
        o.request_count is None ==> merge_view(c, o).request_count == c.request_count,
        o.mode matches Some(x) ==> merge_view(c, o).mode == x,
        o.mode is None ==> merge_view(c, o).mode == c.mode,
        o.prompt_tokens matches Some(x) ==> merge_view(c, o).prompt_tokens == x,
        o.prompt_tokens is None ==> merge_view(c, o).prompt_tokens == c.prompt_tokens,
        o.output_tokens matches Some(x) ==> merge_view(c, o).output_tokens == x,
        o.output_tokens is None ==> merge_view(c, o).output_tokens == c.output_tokens,
        o.no_cache matches Some(x) ==> merge_view(c, o).no_cache == x,
        o.no_cache is None ==> merge_view(c, o).no_cache == c.no_cache,
        o.num_prefix_prompts matches Some(x) ==> merge_view(c, o).num_prefix_prompts == x,
        o.num_prefix_prompts is None ==> merge_view(c, o).num_prefix_prompts == c.num_prefix_prompts,
        o.cache_rate matches Some(x) ==> merge_view(c, o).cache_rate == x,
        o.cache_rate is None ==> merge_view(c, o).cache_rate == c.cache_rate,
        o.seed matches Some(x) ==> merge_view(c, o).seed == x,
        o.seed is None ==> merge_view(c, o).seed == c.seed,
        o.prompt_stddev matches Some(x) ==> merge_view(c, o).prompt_stddev == x,
        o.prompt_stddev is None ==> merge_view(c, o).prompt_stddev == c.prompt_stddev,
        o.system_prompt_tokens matches Some(x) ==> merge_view(c, o).system_prompt_tokens == x,
        o.system_prompt_tokens is None ==> merge_view(c, o).system_prompt_tokens == c.system_prompt_tokens,
        o.num_system_prompts matches Some(x) ==> merge_view(c, o).num_system_prompts == x,
        o.num_system_prompts is None ==> merge_view(c, o).num_system_prompts == c.num_system_prompts,
        o.format matches Some(x) ==> merge_view(c, o).format == x,
        o.format is None ==> merge_view(c, o).format == c.format,
        o.output_dir matches Some(x) ==> merge_view(c, o).output_dir == x,
        o.output_dir is None ==> merge_view(c, o).output_dir == c.output_dir,
        o.tag matches Some(x) ==> merge_view(c, o).tag == x,
        o.tag is None ==> merge_view(c, o).tag == c.tag,
        o.http_proxy matches Some(x) ==> merge_view(c, o).http_proxy == x,
        o.http_proxy is None ==> merge_view(c, o).http_proxy == c.http_proxy,
        o.trace matches Some(x) ==> merge_view(c, o).trace == Some(x),
        o.trace is None ==> merge_view(c, o).trace == c.trace,
{
}
} // verus!

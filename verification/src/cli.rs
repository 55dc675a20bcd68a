//! The command line's shape. The parser itself is generated from a copy of
//! these types outside the verified library.
use vstd::prelude::*;

verus! {

/// The program's command line.
#[derive(Debug)]
pub struct Cli {
    pub command: Commands,
}

/// Subcommands.
#[derive(Debug)]
pub enum Commands {
    /// Run a benchmark.
    Run(RunArgs),
    /// Watch a serving backend and the GPUs.
    Watch(WatchArgs),
    /// Write a default configuration file.
    Config(ConfigArgs),
    /// Download and serve models.
    Hub(HubArgs),
}

/// Arguments of `run`. Options left out keep the configured values.
#[derive(Debug)]
pub struct RunArgs {
    pub conf: Option<String>,
    pub backend: Option<String>,
    pub model: Option<String>,
    pub concurrency: Option<usize>,
    /// Such as `"60s"`, `"5m"`, `"1h"`.
    pub duration: Option<String>,
    pub request_count: Option<usize>,
    pub mode: Option<String>,
    pub prompt_tokens: Option<usize>,
    pub output_tokens: Option<usize>,
    pub no_cache: bool,
    pub num_prefix_prompts: Option<usize>,
    pub cache_rate: Option<usize>,
    pub seed: Option<i64>,
    pub prompt_tokens_stddev: Option<usize>,
    pub system_prompt_tokens: Option<usize>,
    pub num_system_prompts: Option<usize>,
    pub format: Option<String>,
    pub output_dir: Option<String>,
    pub http_proxy: Option<String>,
    /// Print the curl command of the N-th request (counting from 1) and
    /// exit instead of running.
    pub trace: Option<usize>,
    pub tag: Option<String>,
    pub warmup: bool,
    /// Base URL of the server, given as the positional argument.
    pub target: Option<String>,
}

/// Arguments of `watch`.
#[derive(Debug)]
pub struct WatchArgs {
    /// Seconds between samples.
    pub interval: u64,
    pub nsys: bool,
    pub duration: Option<String>,
    pub backend: Option<String>,
    pub model: Option<String>,
    pub tag: Option<String>,
    pub output_dir: Option<String>,
    pub target: Option<String>,
}

/// Arguments of `config`.
#[derive(Debug)]
pub struct ConfigArgs {
    pub output: String,
}

/// Arguments of `hub`.
#[derive(Debug)]
pub struct HubArgs {
    pub command: HubCommands,
}

/// Subcommands of `hub`.
#[derive(Debug)]
pub enum HubCommands {
    Download(HubDownloadArgs),
    Serve(HubServeArgs),
}

/// Arguments of `hub download`.
#[derive(Debug)]
pub struct HubDownloadArgs {
    pub model_id: String,
    pub local_dir: Option<String>,
    pub revision: String,
    pub source: Option<String>,
    pub http_proxy: Option<String>,
    pub offset: usize,
    pub count: usize,
    /// Share of the work, as `"N/M"`.
    pub role: Option<String>,
    pub check_only: bool,
    pub target: Option<String>,
}

/// Arguments of `hub serve`.
#[derive(Debug)]
pub struct HubServeArgs {
    pub local_dir: String,
    pub addr: String,
}

} // verus!

//! Verified core of an inference-backend benchmarking tool: request
//! construction, prompt pools, streaming-response accounting, latency
//! statistics, metric-text parsers, configuration merging and the
//! file-selection rules of the model downloader.

pub mod duration;
pub mod error;
pub mod ids;
pub mod text;
pub mod metrics;
pub mod backend;
pub mod benchmark;
pub mod config;
pub mod download;
pub mod cli;
pub mod cmd_run;
pub mod rng;
pub mod watch;
pub mod report;
pub mod hub;
pub mod version;

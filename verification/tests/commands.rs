use iperf::cli::RunArgs;
use iperf::cmd_run::{
    duration_fits, overrides_from_args, parse_duration, require_model, run_limit, trace_curl, trace_index,
    trace_system_prompt, user_prompt_tokens, RunLimit,
};
use iperf::config::{Config, ConfigOverrides};
use iperf::error::AppError;
use iperf::hub::{content_range, is_listed_name, parse_range, resolve_range, route_model_path, servable, HubRoute};
use iperf::report::{fmt_duration_go, OutputFormat, Renderer};
use iperf::version::version_string;

fn no_args() -> RunArgs {
    RunArgs {
        conf: None,
        backend: None,
        model: None,
        concurrency: None,
        duration: None,
        request_count: None,
        mode: None,
        prompt_tokens: None,
        output_tokens: None,
        no_cache: false,
        num_prefix_prompts: None,
        cache_rate: None,
        seed: None,
        prompt_tokens_stddev: None,
        system_prompt_tokens: None,
        num_system_prompts: None,
        format: None,
        output_dir: None,
        http_proxy: None,
        trace: None,
        tag: None,
        warmup: false,
        target: None,
    }
}

#[test]
fn durations_read_with_units() {
    assert_eq!(parse_duration("60s"), Ok(60));
    assert_eq!(parse_duration(" 5m "), Ok(300));
    assert_eq!(parse_duration("1h"), Ok(3600));
    assert_eq!(parse_duration("90"), Ok(90));
    assert_eq!(parse_duration("   "), Err(AppError::EmptyDuration));
    assert_eq!(parse_duration("1.5h"), Err(AppError::InvalidDuration("1.5h".to_string())));
    assert!(!duration_fits("18446744073709551615h"));
    assert!(duration_fits("18446744073709551615s"));
}

#[test]
fn cli_settings_override_config() {
    let mut args = no_args();
    args.model = Some("qwen".to_string());
    args.concurrency = Some(8);
    args.no_cache = true;
    args.trace = Some(3);
    let o: ConfigOverrides = overrides_from_args(&args, Some(30));
    let mut cfg = Config::new_default("out");
    cfg.merge_overrides(&o);
    assert_eq!(cfg.model, "qwen");
    assert_eq!(cfg.concurrency, 8);
    assert_eq!(cfg.duration_secs, 30);
    assert!(cfg.no_cache);
    assert_eq!(cfg.trace, Some(3));
    // untouched settings keep their defaults
    assert_eq!(cfg.backend, "vllm");
    assert_eq!(cfg.prompt_tokens, 256);
    assert_eq!(cfg.output_dir, "out");
}

#[test]
fn empty_overrides_change_nothing() {
    let o = overrides_from_args(&no_args(), None);
    let mut cfg = Config::new_default("d");
    cfg.merge_overrides(&o);
    assert_eq!(cfg.mode, "stream");
    assert_eq!(cfg.duration_secs, 3600);
    assert!(!cfg.no_cache);
    assert_eq!(cfg.trace, None);
}

#[test]
fn a_run_needs_a_model() {
    let mut cfg = Config::new_default("d");
    assert_eq!(require_model(&cfg), Err(AppError::MissingModel));
    cfg.model = "m".to_string();
    assert_eq!(require_model(&cfg), Ok(()));
}

#[test]
fn run_limits() {
    let mut cfg = Config::new_default("d");
    assert_eq!(run_limit(&cfg), RunLimit::Seconds(3600));
    cfg.request_count = 20;
    assert_eq!(run_limit(&cfg), RunLimit::Requests(20));
    cfg.request_count = 0;
    cfg.duration_secs = 0;
    assert_eq!(run_limit(&cfg), RunLimit::UntilInterrupted);
}

#[test]
fn system_prompt_takes_its_share_of_tokens() {
    assert_eq!(user_prompt_tokens(1024, 100), 924);
    assert_eq!(user_prompt_tokens(50, 100), 0);
    assert_eq!(user_prompt_tokens(256, 0), 256);
}

#[test]
fn trace_output() {
    assert_eq!(trace_index(1), 0);
    assert_eq!(trace_index(0), 0);
    assert_eq!(trace_index(100), 99);
    assert_eq!(trace_system_prompt(128), "Please continue writing. Write at least 640 words.");
    assert_eq!(
        trace_curl("http://h/v1", "", true, "{}"),
        "curl -N 'http://h/v1/chat/completions' \\\n  -H 'Content-Type: application/json' \\\n  -d '{}'"
    );
    assert_eq!(
        trace_curl("http://h/v1", "http://p:1", false, "B"),
        "curl 'http://h/v1/chat/completions' \\\n  -H 'Content-Type: application/json' \\\n  -x http://p:1 \\\n  -d 'B'"
    );
}

#[test]
fn renderer_formats_and_files() {
    let mut cfg = Config::new_default("out");
    cfg.model = "Qwen/Qwen2.5-7B".to_string();
    let r = Renderer::from_config(&cfg, true, false);
    assert_eq!(r.output_format(), OutputFormat::Table);
    assert!(r.interrupted);
    assert_eq!(r.jsonl_file_name(), "Qwen_Qwen2.5-7B.jsonl");
    cfg.tag = "a1".to_string();
    cfg.format = "json".to_string();
    let r = Renderer::from_config(&cfg, false, true);
    assert_eq!(r.output_format(), OutputFormat::Json);
    assert_eq!(r.jsonl_file_name(), "Qwen_Qwen2.5-7B-a1.jsonl");
    assert!(r.warmup);
}

#[test]
fn go_durations() {
    assert_eq!(fmt_duration_go(30), "30s");
    assert_eq!(fmt_duration_go(300), "5m0s");
    assert_eq!(fmt_duration_go(3600), "1h0m0s");
    assert_eq!(fmt_duration_go(3723), "1h2m3s");
    assert_eq!(fmt_duration_go(0), "0s");
}

#[test]
fn hub_routes() {
    assert_eq!(route_model_path("Qwen"), HubRoute::NotFound);
    assert_eq!(route_model_path("Qwen/Qwen3-0.6B"), HubRoute::ListFiles);
    assert_eq!(
        route_model_path("Qwen/Qwen3-0.6B/sub/dir/model.safetensors"),
        HubRoute::ServeFile { model_id: "Qwen/Qwen3-0.6B".to_string(), file: "sub/dir/model.safetensors".to_string() }
    );
    assert!(is_listed_name("Qwen"));
    assert!(!is_listed_name(".cache"));
}

#[test]
fn hub_ranges() {
    assert_eq!(parse_range("bytes=0-99"), Some((0, Some(99))));
    assert_eq!(parse_range("bytes=100-"), Some((100, None)));
    assert_eq!(parse_range("bytes=5-x"), Some((5, None)));
    assert_eq!(parse_range("bytes=-5"), None);
    assert_eq!(parse_range("items=0-1"), None);
    assert!(servable(0, Some(99), 50));
    assert_eq!(resolve_range(0, Some(99), 50), (49, 50));
    assert_eq!(resolve_range(10, None, 50), (49, 40));
    assert!(!servable(60, None, 50));
    assert!(!servable(0, None, 0));
    assert_eq!(content_range(10, 49, 50), "bytes 10-49/50");
}

#[test]
fn version_line() {
    assert_eq!(version_string("0.1.6", "abc123", "2024-01-01"), "0.1.6 (commit: abc123, built at: 2024-01-01)");
}

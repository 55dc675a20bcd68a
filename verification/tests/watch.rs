use iperf::watch::nsys::{parse_csv_line, parse_nsys_kern_sum, nsys_rows, NsysCollector};
use iperf::watch::nvidia_smi::{parse_gpu_csv, split_nvidia_smi_csv, GpuCsvError, FIELD_COUNT};
use iperf::watch::prometheus::{
    find_histogram, find_scalar, first_bucket_reaching, label_value, metric_keys, parse_labels, parse_metric_line,
    parse_prometheus_text,
};
use iperf::watch::session::{
    counter_delta, counter_deltas, should_stop, watch_jsonl_name, CounterDeltas, CounterSnapshot, GpuCollector,
    InferenceCollector,
};

fn value_f64(s: &str) -> f64 {
    s.parse::<f64>().unwrap()
}

#[test]
fn test_parse_single_gpu() {
    let csv = "0, NVIDIA A100-SXM4-80GB, 45, 23, 12345, 81920, 69575, 234.5, 400.0, 52, 30, 1200, 1593, P0, none\n";
    let gpus = parse_gpu_csv(csv).unwrap();
    assert_eq!(gpus.len(), 1);
    assert_eq!(gpus[0].gpu_index, 0);
    assert_eq!(gpus[0].gpu_name, "NVIDIA A100-SXM4-80GB");
    assert_eq!(gpus[0].gpu_utilization, Some(45));
    assert_eq!(gpus[0].memory_used, Some(12345));
    assert!((value_f64(&gpus[0].power_draw) - 234.5).abs() < 0.01);
    assert_eq!(gpus[0].pstate.as_deref(), Some("P0"));
}

#[test]
fn test_parse_multi_gpu() {
    let csv = "\
0, NVIDIA A100, 45, 23, 12345, 81920, 69575, 234.5, 400.0, 52, 30, 1200, 1593, P0, none
1, NVIDIA A100, 67, 45, 23456, 81920, 58464, 289.3, 400.0, 58, 45, 1300, 1600, P0, none
";
    let gpus = parse_gpu_csv(csv).unwrap();
    assert_eq!(gpus.len(), 2);
    assert_eq!(gpus[1].gpu_index, 1);
    assert_eq!(gpus[1].gpu_utilization, Some(67));
}

#[test]
fn test_parse_throttle_with_commas() {
    let csv = "0, NVIDIA A100, 45, 23, 12345, 81920, 69575, 234.5, 400.0, 52, 30, 1200, 1593, P0, gpu_bw, sw_thermal\n";
    let gpus = parse_gpu_csv(csv).unwrap();
    assert_eq!(gpus[0].throttle_reasons.as_deref(), Some("gpu_bw, sw_thermal"));
}

#[test]
fn gpu_csv_errors() {
    assert_eq!(parse_gpu_csv("").err(), Some(GpuCsvError::NoData));
    assert_eq!(parse_gpu_csv("  \n\n").err(), Some(GpuCsvError::NoData));
    assert_eq!(
        parse_gpu_csv("0, A100, 45\n").err(),
        Some(GpuCsvError::FieldCount { expected: FIELD_COUNT, got: 3 })
    );
}

#[test]
fn gpu_fields_unreadable_numbers_are_absent() {
    let csv = "x, T4, [N/A], 1, 2, 3, 4, [N/A], 70.0, 40, [N/A], 1, 2, P8, none";
    let g = &parse_gpu_csv(csv).unwrap()[0];
    assert_eq!(g.gpu_index, 0);
    assert_eq!(g.gpu_utilization, None);
    assert_eq!(g.fan_speed, None);
    assert_eq!(g.power_draw, "[N/A]");
    assert!(value_f64(&g.power_limit) == 70.0);
}

#[test]
fn split_keeps_extra_pieces_in_last_field() {
    let f = split_nvidia_smi_csv("a, b , c");
    assert_eq!(f, vec!["a", "b", "c"]);
    let line = "0, 1, 2, 3, 4, 5, 6, 7, 8, 9, 10, 11, 12, 13, x, y, z";
    let f = split_nvidia_smi_csv(line);
    assert_eq!(f.len(), FIELD_COUNT);
    assert_eq!(f[14], "x, y, z");
}

#[test]
fn test_parse_simple_gauge() {
    let input = "vllm:num_requests_running 5\n";
    let parsed = parse_prometheus_text(input);
    let keys = vec!["vllm:num_requests_running".to_string()];
    assert_eq!(find_scalar(&parsed, &keys).map(|v| value_f64(&v)), Some(5.0));
}

#[test]
fn test_parse_histogram() {
    let input = r#"
# HELP vllm:time_to_first_token_seconds Time to first token
# TYPE vllm:time_to_first_token_seconds histogram
vllm:time_to_first_token_seconds_bucket{le="0.1"} 10
vllm:time_to_first_token_seconds_bucket{le="0.5"} 50
vllm:time_to_first_token_seconds_bucket{le="1.0"} 90
vllm:time_to_first_token_seconds_bucket{le="+Inf"} 100
vllm:time_to_first_token_seconds_count 100
vllm:time_to_first_token_seconds_sum 25.5
"#;
    let parsed = parse_prometheus_text(input);
    let keys = vec!["vllm:time_to_first_token_seconds".to_string()];
    let hist = find_histogram(&parsed, &keys).unwrap();
    assert_eq!(hist.count.map(|c| value_f64(&c) as u64), Some(100));
    assert!((value_f64(&hist.sum.unwrap()) - 25.5).abs() < 0.001);
    assert_eq!(hist.buckets.len(), 4);
    assert_eq!(hist.buckets[3].0.as_deref(), Some("+Inf"));
}

#[test]
fn test_parse_with_labels() {
    let input = r#"metric_name{label1="val1",label2="val2"} 42.5"#;
    let (name, labels, value) = parse_metric_line(input).unwrap();
    assert_eq!(name, "metric_name");
    assert_eq!(labels.len(), 2);
    assert!((value_f64(&value) - 42.5).abs() < 0.001);
}

#[test]
fn test_parse_inference_metrics_vllm() {
    let input = r#"
vllm:num_requests_running 5
vllm:num_requests_waiting 2
vllm:gpu_cache_usage_perc 0.75
vllm:prompt_tokens_total 50000
vllm:generation_tokens_total 10000
vllm:time_to_first_token_seconds_count 100
vllm:time_to_first_token_seconds_sum 12.5
"#;
    let parsed = parse_prometheus_text(input);
    let scalar = |name: &str| find_scalar(&parsed, &metric_keys(name, "vllm")).map(|v| value_f64(&v));
    assert_eq!(scalar("num_requests_running").map(|v| v as u64), Some(5));
    assert_eq!(scalar("num_requests_waiting").map(|v| v as u64), Some(2));
    assert!((scalar("gpu_cache_usage_perc").unwrap() - 0.75).abs() < 0.001);
    assert_eq!(scalar("prompt_tokens_total").map(|v| v as u64), Some(50000));
    let h = find_histogram(&parsed, &metric_keys("time_to_first_token_seconds", "vllm")).unwrap();
    let avg_ms = value_f64(&h.sum.unwrap()) / value_f64(&h.count.unwrap()) * 1000.0;
    assert!((avg_ms - 125.0).abs() < 0.1); // 12.5/100 * 1000
}

#[test]
fn test_parse_inference_metrics_no_prefix() {
    let input = "num_requests_running 3\n";
    let parsed = parse_prometheus_text(input);
    let v = find_scalar(&parsed, &metric_keys("num_requests_running", "unknown")).map(|v| value_f64(&v) as u64);
    assert_eq!(v, Some(3));
}

#[test]
fn labels_unescape_and_skip_separators() {
    let l = parse_labels(r#" a="x\"y" , b=plain,c="" "#);
    assert_eq!(
        l,
        vec![
            ("a".to_string(), "x\"y".to_string()),
            ("b".to_string(), "plain".to_string()),
            ("c".to_string(), "".to_string())
        ]
    );
    // text with no `=` left ends the list
    assert_eq!(parse_labels("k=v, tail").len(), 1);
    assert_eq!(label_value(&l, "b"), Some("plain".to_string()));
    assert_eq!(label_value(&l, "zz"), None);
}

#[test]
fn metric_lines_without_value_give_nothing() {
    assert!(parse_metric_line("lonely_name").is_none());
    assert!(parse_metric_line("m{a=\"b\"}").is_none());
    assert!(parse_metric_line("   ").is_none());
    let (n, l, v) = parse_metric_line("  up 1 1700000000 ").unwrap();
    assert_eq!((n.as_str(), l.len(), v.as_str()), ("up", 0, "1"));
}

#[test]
fn prefixed_metric_wins_over_bare_and_last_sample_wins() {
    let parsed = parse_prometheus_text("num_tokens 1\nvllm:num_tokens 2\nvllm:num_tokens 4\n");
    assert_eq!(find_scalar(&parsed, &metric_keys("num_tokens", "vllm")), Some("4".to_string()));
    assert_eq!(find_scalar(&parsed, &metric_keys("num_tokens", "other")), Some("1".to_string()));
    assert_eq!(find_scalar(&parsed, &metric_keys("num_tokens", "sglang")), Some("1".to_string()));
    assert_eq!(metric_keys("x", "sglang"), vec!["sglang:x".to_string(), "x".to_string()]);
}

#[test]
fn histogram_parts_are_not_scalars() {
    let parsed = parse_prometheus_text("foo_count 3\n");
    assert_eq!(find_scalar(&parsed, &vec!["foo_count".to_string()]), None);
    let h = find_histogram(&parsed, &vec!["foo".to_string()]).unwrap();
    assert_eq!(h.count, Some("3".to_string()));
    assert_eq!(h.sum, None);
    assert!(find_histogram(&parsed, &vec!["bar".to_string()]).is_none());
}

#[test]
fn csv_fields_drop_quotes() {
    assert_eq!(parse_csv_line(r#""a,b", 12 ,"x""#), vec!["a,b", "12", "x"]);
    assert_eq!(parse_csv_line(""), vec![""]);
}

#[test]
fn nsys_kernel_summary_rows() {
    let csv = "Kernel Name,Count,Avg (ns),Min (ns),Max (ns),Total (ns)\n\"gemm, fused\",10,1500.0,1000,2000,15000\nshort,row\n";
    let rows = nsys_rows(csv);
    assert_eq!(rows.len(), 1);
    let k = parse_nsys_kern_sum(csv);
    assert_eq!(k.len(), 1);
    assert_eq!(k[0].kernel_name, "gemm, fused");
    assert_eq!(k[0].call_count, 10);
    assert_eq!(k[0].total_ns, "15000");
    assert!(parse_nsys_kern_sum("only a header\n").is_empty());
}

#[test]
fn nsys_report_paths() {
    assert_eq!(NsysCollector::new("out").report_path(), "out/iperf-watch.nsys-rep");
    assert_eq!(NsysCollector::new("out/").report_stem(), "out/iperf-watch");
    assert_eq!(NsysCollector::new("").report_stem(), "iperf-watch");
}

#[test]
fn metrics_url_from_api_base() {
    assert_eq!(InferenceCollector::new("http://h:8000/v1", "vllm").metrics_url, "http://h:8000/metrics");
    assert_eq!(InferenceCollector::new("http://h:8000/v1/", "vllm").metrics_url, "http://h:8000/metrics");
    assert_eq!(InferenceCollector::new("http://h:30000//", "sglang").metrics_url, "http://h:30000/metrics");
}

#[test]
fn gpu_collector_remembers_probe() {
    assert!(GpuCollector::new(true).is_available());
    assert!(!GpuCollector::new(false).is_available());
}

#[test]
fn watch_file_names() {
    assert_eq!(watch_jsonl_name(&Some("m".into()), &Some("t".into())), "m-t.jsonl");
    assert_eq!(watch_jsonl_name(&Some("m".into()), &Some("".into())), "m.jsonl");
    assert_eq!(watch_jsonl_name(&Some("m".into()), &None), "m.jsonl");
    assert_eq!(watch_jsonl_name(&None, &Some("t".into())), "watch.jsonl");
}

#[test]
fn counters_move_by_their_difference() {
    assert_eq!(counter_delta(Some(150), Some(100)), Some(50));
    assert_eq!(counter_delta(Some(10), Some(100)), Some(0));
    assert_eq!(counter_delta(None, Some(1)), None);
    let cur = CounterSnapshot { generation_tokens_total: Some(300), prompt_tokens_total: None, num_requests_processed: Some(9) };
    let prev = CounterSnapshot { generation_tokens_total: Some(100), prompt_tokens_total: Some(5), num_requests_processed: Some(4) };
    assert_eq!(
        counter_deltas(&cur, Some(prev), 2),
        CounterDeltas { generation_tokens: Some(200), prompt_tokens: None, requests: Some(5) }
    );
    let none = CounterDeltas { generation_tokens: None, prompt_tokens: None, requests: None };
    assert_eq!(counter_deltas(&cur, None, 2), none);
    assert_eq!(counter_deltas(&cur, Some(prev), 0), none);
}

#[test]
fn sessions_stop_on_cancel_or_deadline() {
    assert!(should_stop(0, None, true));
    assert!(!should_stop(10, None, false));
    assert!(should_stop(10, Some(10), false));
    assert!(!should_stop(9, Some(10), false));
}

#[test]
fn written_labels_read_back() {
    let l = parse_labels(r#"method="GET",path="/v1/chat completions",code="200""#);
    assert_eq!(
        l,
        vec![
            ("method".to_string(), "GET".to_string()),
            ("path".to_string(), "/v1/chat completions".to_string()),
            ("code".to_string(), "200".to_string())
        ]
    );
    let (n, l, v) = parse_metric_line(r#"http_requests{method="GET",code="200"} 1027"#).unwrap();
    assert_eq!((n.as_str(), l.len(), v.as_str()), ("http_requests", 2, "1027"));
    let (n, l, v) = parse_metric_line("process_open_fds 12").unwrap();
    assert_eq!((n.as_str(), l.len(), v.as_str()), ("process_open_fds", 0, "12"));
}

#[test]
fn split_fields_join_back() {
    let line = "0, NVIDIA A100, 45, 23, 12345, 81920, 69575, 234.5, 400.0, 52, 30, 1200, 1593, P0, gpu_bw, sw_thermal";
    let f = split_nvidia_smi_csv(line);
    assert_eq!(f.join(", "), line);
}

#[test]
fn percentile_bucket_search() {
    let cum = [10u64, 50, 90, 100];
    assert_eq!(first_bucket_reaching(&cum, 0), Some(0));
    assert_eq!(first_bucket_reaching(&cum, 50), Some(1));
    assert_eq!(first_bucket_reaching(&cum, 51), Some(2));
    assert_eq!(first_bucket_reaching(&cum, 101), None);
}

#[test]
fn csv_fields_written_with_commas_read_back() {
    let fields = vec!["Kernel Name", "Count", "Avg (ns)", "Min (ns)", "Max (ns)", "Total (ns)"];
    assert_eq!(parse_csv_line(&fields.join(",")), fields);
}

#[test]
fn backend_prefix_decides_which_name_wins() {
    let parsed = parse_prometheus_text("vllm:num_requests_running 5\nnum_requests_running 7\n");
    let get = |backend: &str| find_scalar(&parsed, &metric_keys("num_requests_running", backend));
    assert_eq!(get("vllm"), Some("5".to_string()));
    assert_eq!(get("sglang"), Some("7".to_string()));
    assert_eq!(get("other"), Some("7".to_string()));
    let only_vllm = parse_prometheus_text("vllm:num_requests_running 5\n");
    assert_eq!(find_scalar(&only_vllm, &metric_keys("num_requests_running", "other")), Some("5".to_string()));
    assert_eq!(find_scalar(&only_vllm, &metric_keys("num_requests_running", "sglang")), None);
}

use iperf::backend::{init_backends, new_backend, Registry, BackendCtor, Timing, strip_trailing_slashes};
use iperf::duration::Duration;
use iperf::error::AppError;

#[test]
fn test_registry() {
    let mut reg = Registry::new();
    init_backends(&mut reg);
    assert!(new_backend(&reg, "vllm", "http://localhost:8000/v1", "").is_ok());
    assert!(new_backend(&reg, "sglang", "http://localhost:8000/v1", "").is_ok());
    assert!(new_backend(&reg, "unknown", "http://localhost:8000/v1", "").is_err());
}

#[test]
fn unknown_backend_names_itself() {
    let reg = Registry::new();
    assert_eq!(new_backend(&reg, "tgi", "x", "").unwrap_err(), AppError::UnknownBackend("tgi".to_string()));
}

#[test]
fn backend_url_loses_trailing_slashes_and_proxy_is_optional() {
    let mut reg = Registry::new();
    init_backends(&mut reg);
    let b = new_backend(&reg, "vllm", "http://h:8000/v1//", "").unwrap();
    assert_eq!(b.name, "vllm");
    assert_eq!(b.base_url, "http://h:8000/v1");
    assert_eq!(b.proxy, None);
    let b = new_backend(&reg, "sglang", "http://h", "http://proxy:3128").unwrap();
    assert_eq!(b.proxy, Some("http://proxy:3128".to_string()));
    assert_eq!(strip_trailing_slashes("a/b/"), "a/b");
}

#[test]
fn registering_again_replaces() {
    let mut reg = Registry::new();
    reg.register("x", BackendCtor { name: "first".to_string() });
    reg.register("x", BackendCtor { name: "second".to_string() });
    assert_eq!(reg.lookup("x").unwrap().name, "second");
    assert!(reg.lookup("y").is_none());
}

#[test]
fn timing_becomes_sample() {
    let t = Timing {
        ttft: Duration::from_millis(7),
        prefill_dur: Duration::from_millis(7),
        decode_dur: Duration::from_millis(3),
        total_dur: Duration::from_millis(10),
        prompt_tokens: 11,
        output_tokens: 12,
        cached_tokens: 4,
        tpot: Duration::from_millis(1),
        token_timings: vec![Duration::from_millis(1)],
    };
    let s = t.to_sample();
    assert_eq!(s.ttft, Duration::from_millis(7));
    assert_eq!(s.cached_tokens, 4);
    assert_eq!(s.token_timings.len(), 1);
}

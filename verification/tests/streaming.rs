use iperf::backend::openai::{
    data_payloads, event_data_payloads, prepare_messages, prepare_messages_with, single_response, ChoiceText, ChunkInfo,
    ChunkStep, DeltaInfo, SseBuffer, StreamState, UsageInfo,
};
use iperf::backend::{Message, Request};
use iperf::duration::Duration;

fn delta(text: &str, finished: bool) -> ChunkInfo {
    ChunkInfo {
        usage: None,
        first_choice: Some(DeltaInfo { content: Some(text.to_string()), reasoning: None, finished }),
    }
}

#[test]
fn sse_buffer_splits_events() {
    let mut b = SseBuffer::new();
    b.push_bytes(b"data: {\"a\":1}\n\ndata: {\"b\"");
    let ev = b.next_event().unwrap();
    assert_eq!(ev, b"data: {\"a\":1}\n\n".to_vec());
    assert!(b.next_event().is_none());
    b.push_bytes(b":2}\r\n\r\n");
    let ev = b.next_event().unwrap();
    assert_eq!(ev, b"data: {\"b\":2}\r\n\r\n".to_vec());
    assert!(b.buf.is_empty());
}

#[test]
fn event_payloads_stop_at_done() {
    let p = event_data_payloads(b"event: x\ndata:  {\"x\":1} \ndata: [DONE]\ndata: {\"y\":2}\n");
    assert_eq!(p, vec!["{\"x\":1}".to_string()]);
    let p = event_data_payloads(b": keep-alive\n\n");
    assert!(p.is_empty());
}

#[test]
fn stream_state_counts_tokens_and_gaps() {
    let mut s = StreamState::new();
    match s.on_chunk(&delta("Hel", false), Duration::from_millis(100)) {
        ChunkStep::Token { text, gap } => {
            assert_eq!(text, "Hel");
            assert_eq!(gap, Duration::zero());
        },
        _ => panic!("expected a token"),
    }
    match s.on_chunk(&delta("lo", false), Duration::from_millis(130)) {
        ChunkStep::Token { gap, .. } => assert_eq!(gap, Duration::from_millis(30)),
        _ => panic!("expected a token"),
    }
    // an empty delta that finishes marks the answer done
    assert!(matches!(s.on_chunk(&delta("", true), Duration::from_millis(140)), ChunkStep::Skip));
    assert!(s.done);
    let usage = ChunkInfo {
        usage: Some(UsageInfo { prompt_tokens: 9, completion_tokens: 3, cached_tokens: Some(2) }),
        first_choice: None,
    };
    assert!(matches!(s.on_chunk(&usage, Duration::from_millis(150)), ChunkStep::StopEvent));
    let r = s.finish(Duration::from_millis(200));
    assert_eq!(r.content, "Hello");
    assert_eq!(r.timing.ttft, Duration::from_millis(100));
    assert_eq!(r.timing.decode_dur, Duration::from_millis(100));
    assert_eq!(r.timing.output_tokens, 3);
    assert_eq!(r.timing.prompt_tokens, 9);
    assert_eq!(r.timing.cached_tokens, 2);
    // decode time over the tokens after the first
    assert_eq!(r.timing.tpot, Duration::from_millis(50));
    assert_eq!(r.timing.token_timings, vec![Duration::from_millis(30)]);
}

#[test]
fn stream_without_tokens_reports_whole_duration() {
    let s = StreamState::new();
    let r = s.finish(Duration::from_millis(80));
    assert_eq!(r.timing.ttft, Duration::from_millis(80));
    assert_eq!(r.timing.decode_dur, Duration::zero());
    assert_eq!(r.timing.output_tokens, 0);
}

#[test]
fn single_answer_uses_content_then_reasoning() {
    let usage = UsageInfo { prompt_tokens: 5, completion_tokens: 4, cached_tokens: None };
    let r = single_response(
        Duration::from_millis(400),
        Some(usage),
        Some(ChoiceText { content: None, reasoning: Some("think".to_string()) }),
    );
    assert_eq!(r.content, "think");
    assert_eq!(r.timing.ttft, Duration::from_millis(400));
    assert_eq!(r.timing.tpot, Duration::from_millis(100));
    assert_eq!(r.timing.cached_tokens, 0);
    let r = single_response(Duration::from_millis(400), None, None);
    assert_eq!(r.content, "");
    assert_eq!(r.timing.tpot, Duration::zero());
}

#[test]
fn no_cache_prefixes_first_message() {
    let req = Request {
        model: "m".to_string(),
        messages: vec![Message::new("system", "s"), Message::new("user", "u")],
        max_tokens: 1,
        no_cache: true,
    };
    let msgs = prepare_messages_with(&req, "ID");
    assert_eq!(msgs[0].content, "ID s");
    assert_eq!(msgs[1].content, "u");
    let msgs = prepare_messages(&req);
    assert_eq!(msgs[0].content.len(), 36 + 2);
    assert!(msgs[0].content.ends_with(" s"));
    let plain = Request { no_cache: false, ..req };
    assert_eq!(prepare_messages(&plain)[0].content, "s");
}

#[test]
fn invalid_utf8_is_replaced_not_dropped() {
    let p = event_data_payloads(b"data: a\xffb\n\n");
    assert_eq!(p, vec!["a\u{FFFD}b".to_string()]);
}

#[test]
fn payloads_of_text() {
    assert_eq!(data_payloads("data:{}\r\ndata:  [DONE]\n"), vec!["{}".to_string()]);
    assert_eq!(data_payloads("id: 1\nretry: 5"), Vec::<String>::new());
}

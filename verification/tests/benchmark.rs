use iperf::benchmark::runner::{find_word_boundary, insert_cache_breaker, insert_cache_breaker_with, claim_request, may_claim, uses_cache_breaker, RequestSlot};
use iperf::benchmark::{PromptGenerator, SystemPromptGenerator, CHARS_PER_TOKEN, SHAKESPEARE, prompt_prefix, new_benchmark_request, new_benchmark_request_with_system};

#[test]
fn test_prompt_generator_non_empty() {
    let mut prompt_gen = PromptGenerator::new(256, 42, 0, 10);
    let prompt = prompt_gen.next();
    assert!(!prompt.is_empty());
    // Pool prompts are generated at exact prompt_tokens length when stddev=0
    assert_eq!(prompt.len(), 256 * CHARS_PER_TOKEN);
}

#[test]
fn test_prompt_generator_pool_cycling() {
    let mut prompt_gen = PromptGenerator::new(10, 42, 0, 3);
    let p1 = prompt_gen.next();
    let p2 = prompt_gen.next();
    let _p3 = prompt_gen.next();
    let p4 = prompt_gen.next(); // should cycle back to p1
    assert_eq!(p1, p4);
    assert_ne!(p1, p2);
}

#[test]
fn test_prompt_generator_get_by_index() {
    let prompt_gen = PromptGenerator::new(10, 42, 0, 3);
    // get() should not advance internal counter
    let p0 = prompt_gen.get(0);
    let p1 = prompt_gen.get(1);
    let p0_again = prompt_gen.get(0);
    assert_eq!(p0, p0_again);
    assert_ne!(p0, p1);
    // get(3) should cycle back to get(0)
    assert_eq!(prompt_gen.get(3), p0);
}

#[test]
fn test_system_prompt_generator_prefix() {
    let sys_gen = SystemPromptGenerator::new(50, 3, 42);
    let p1 = sys_gen.get(0);
    let p2 = sys_gen.get(1);
    let p3 = sys_gen.get(2);
    // Each should start with [NNN] prefix
    assert!(p1.starts_with("[001] "));
    assert!(p2.starts_with("[002] "));
    assert!(p3.starts_with("[003] "));
    // Each should end with output instruction
    assert!(p1.ends_with("Please continue writing extensively, as much as possible."));
    assert!(p2.ends_with("Please continue writing extensively, as much as possible."));
}

#[test]
fn test_system_prompt_generator_pool_cycling() {
    let sys_gen = SystemPromptGenerator::new(50, 3, 42);
    let p1 = sys_gen.get(0);
    let p4 = sys_gen.get(3); // should cycle back
    assert_eq!(p1, p4);
}

#[test]
fn test_system_prompt_generator_single() {
    let sys_gen = SystemPromptGenerator::new(50, 1, 42);
    let p1 = sys_gen.get(0);
    let p2 = sys_gen.get(1);
    // Pool size 1: all return the same prompt
    assert_eq!(p1, p2);
    assert!(p1.starts_with("[001] "));
}

#[test]
fn test_insert_cache_breaker_50() {
    let prompt = "hello world this is a test prompt for cache rate testing purposes";
    let result = insert_cache_breaker(prompt, 50);
    // UUID is 36 chars + "\n[\n" + "]\n" = ~40 chars
    assert!(result.len() > prompt.len());
    // Should contain a UUID pattern
    assert!(result.contains("["));
    assert!(result.contains("]"));
    // Prefix before UUID should match ~50% of the prompt
    let uuid_start = result.find("[").unwrap();
    // Rough check: UUID position is near 50% of the prompt length
    assert!(uuid_start >= prompt.len() * 45 / 100);
    assert!(uuid_start <= prompt.len() * 65 / 100);
}

#[test]
fn test_insert_cache_breaker_unique() {
    let prompt = "hello world foo bar baz qux test";
    let r1 = insert_cache_breaker(prompt, 50);
    let r2 = insert_cache_breaker(prompt, 50);
    // Same prefix, different UUIDs
    assert_ne!(r1, r2);
    // But same prefix up to the UUID position
    let p1 = r1.find("[").unwrap();
    let p2 = r2.find("[").unwrap();
    assert_eq!(&r1[..p1], &r2[..p2]);
}

#[test]
fn test_find_word_boundary() {
    let s = "hello world foo bar";
    assert_eq!(find_word_boundary(s, 0), 6); // after "hello "
    assert_eq!(find_word_boundary(s, 6), 12); // after "world "
    assert_eq!(find_word_boundary(s, 19), 19); // at end
}

#[test]
fn cache_breaker_lands_after_a_word() {
    // 50% of 19 bytes is byte 9, inside "world": the id goes after "world ".
    let r = insert_cache_breaker_with("hello world foo bar", 50, "ID");
    assert_eq!(r, "hello world \n[ID]\nfoo bar");
}

#[test]
fn cache_breaker_at_zero_rate_leads() {
    let r = insert_cache_breaker_with("alpha beta", 0, "X");
    assert_eq!(r, "alpha \n[X]\nbeta");
}

#[test]
fn cache_breaker_keeps_prompt_around_it() {
    let prompt = "one two three four five six";
    let r = insert_cache_breaker(prompt, 30);
    let open = r.find("\n[").unwrap();
    let close = r.find("]\n").unwrap();
    assert_eq!(format!("{}{}", &r[..open], &r[close + 2..]), prompt);
    assert_eq!(close - open - 2, 36);
}

#[test]
fn word_boundary_without_space_is_end() {
    assert_eq!(find_word_boundary("abcdef", 2), 6);
    assert_eq!(find_word_boundary("ab cd", 100), 5);
}

#[test]
fn requests_are_claimed_up_to_the_count() {
    assert_eq!(claim_request(0, 2), Some(RequestSlot { number: 1, pool_index: 0 }));
    assert_eq!(claim_request(1, 2), Some(RequestSlot { number: 2, pool_index: 1 }));
    assert_eq!(claim_request(2, 2), None);
    // no request count: unlimited
    assert_eq!(claim_request(7, 0), Some(RequestSlot { number: 8, pool_index: 7 }));
}

#[test]
fn deadline_stops_only_runs_bounded_by_time() {
    assert!(may_claim(0, false));
    assert!(!may_claim(0, true));
    // a request count decides on its own
    assert!(may_claim(5, true));
}

#[test]
fn requests_cycle_through_the_system_prompt_pool() {
    let sys_gen = SystemPromptGenerator::new(50, 3, 42);
    for (number, tag) in [(1, "[001] "), (2, "[002] "), (3, "[003] "), (4, "[001] "), (5, "[002] "), (7, "[001] "), (9, "[003] ")] {
        let slot = claim_request(number - 1, 0).unwrap();
        assert_eq!(slot.number, number);
        assert!(sys_gen.get(slot.pool_index).starts_with(tag), "request {number}");
    }
}

#[test]
fn cache_breaker_only_for_partial_rates() {
    assert!(uses_cache_breaker(false, 50));
    assert!(!uses_cache_breaker(false, 0));
    assert!(!uses_cache_breaker(false, 100));
    assert!(!uses_cache_breaker(true, 50));
}

#[test]
fn prompt_prefix_takes_four_chars_per_token() {
    assert_eq!(prompt_prefix("abcdefghij", 2), "abcdefgh");
    assert_eq!(prompt_prefix("abc", 5), "abc");
}

#[test]
fn system_prompt_pool_prompts_differ_by_tag() {
    let g = SystemPromptGenerator::new(50, 12, 7);
    assert!(g.get(9).starts_with("[010] "));
    assert!(g.get(11).starts_with("[012] "));
    assert_eq!(g.get(0).len(), 50 * CHARS_PER_TOKEN);
}

#[test]
fn requests_carry_their_messages() {
    let r = new_benchmark_request("m", "hi", 16);
    assert_eq!(r.model, "m");
    assert_eq!(r.max_tokens, 16);
    assert_eq!(r.messages.len(), 1);
    assert_eq!(r.messages[0].role, "user");
    assert_eq!(r.messages[0].content, "hi");
    let r = new_benchmark_request_with_system("m", "sys", "usr", 8);
    assert_eq!(r.messages.len(), 2);
    assert_eq!(r.messages[0].role, "system");
    assert_eq!(r.messages[0].content, "sys");
    assert_eq!(r.messages[1].role, "user");
    assert_eq!(r.messages[1].content, "usr");
}

#[test]
fn pool_prompts_start_at_their_offsets() {
    let corpus: Vec<char> = SHAKESPEARE.chars().collect();
    let slice = |from: usize, len: usize| corpus[from..from + len].iter().collect::<String>();
    let g = PromptGenerator::from_offsets(10, 0, &[0, 5, 123]);
    assert_eq!(g.pool_len(), 3);
    assert_eq!(g.get(0), slice(0, 40));
    assert_eq!(g.get(1), slice(5, 40));
    assert_eq!(g.get(2), slice(123, 40));
    // lengths that vary: pools hold twice the target, or 100 tokens more
    let v = PromptGenerator::from_offsets(10, 30, &[7]);
    assert_eq!(v.get(0), slice(7, 440));
    assert_eq!(v.prompt_stddev(), 30);
}

#[test]
fn system_prompts_start_at_their_offsets() {
    let corpus: Vec<char> = SHAKESPEARE.chars().collect();
    let g = SystemPromptGenerator::from_offsets(50, &[0, 9]);
    let body: String = corpus[9..9 + 136].iter().collect();
    assert_eq!(g.get(1), format!("[002] {body} Please continue writing extensively, as much as possible."));
    assert!(g.get(0).starts_with("[001] Shall I compare"));
}

#[test]
fn distinct_draws_give_distinct_prompts() {
    let g = PromptGenerator::new(20, 42, 0, 8);
    let prompts: Vec<String> = (0..8).map(|i| g.get(i)).collect();
    let mut unique = prompts.clone();
    unique.sort();
    unique.dedup();
    assert!(unique.len() > 1);
}

//! Reading the run command's arguments: durations, overrides, and the
//! pieces of a run that are fixed before any request is sent.
use vstd::prelude::*;
use crate::config::{Config, ConfigOverrides, OverridesView, opt_view};
use crate::cli::RunArgs;
use crate::error::AppError;
use crate::text::{chars_of, string_of, copy_range, trim, trim_bounds, parse_u64, parse_u64_spec,
    decimal, is_ws, digit_value, trim_start, trim_end, all_digits, digits_value, unsigned_body, is_digit,
    lemma_decimal_len_pos, concat, push_decimal};

verus! {

/// The digits of a duration and the seconds per unit its suffix names:
/// `s` (1), `m` (60), `h` (3600), or none (seconds).
pub open spec fn duration_parts(t: Seq<char>) -> (Seq<char>, int) {
    if t.len() > 0 && t.last() == 's' {
        (t.drop_last(), 1)
    } else if t.len() > 0 && t.last() == 'm' {
        (t.drop_last(), 60)
    } else if t.len() > 0 && t.last() == 'h' {
        (t.drop_last(), 3600)
    } else {
        (t, 1)
    }
}

/// Seconds that a duration text such as `" 5m "` stands for, when it can be
/// read: surrounding whitespace is ignored and the number is read as
/// `u64`.
pub open spec fn duration_value(s: Seq<char>) -> Option<int> {
    let (digits, mult) = duration_parts(trim(s));
    match parse_u64_spec(digits) {
        Some(n) => Some(n * mult),
        None => None,
    }
}

/// The seconds fit `u64` (the multiplication would overflow otherwise).
pub open spec fn duration_in_range(s: Seq<char>) -> bool {
    duration_value(s) matches Some(v) ==> v <= u64::MAX
}

/// Whether [`parse_duration`] can be called on `s` without overflowing.
pub fn duration_fits(s: &str) -> (b: bool)
    ensures
        b == duration_in_range(s@),
{
    let cs = chars_of(s);
    let (a, b) = trim_bounds(cs.as_slice(), 0, cs.len());
    assert(cs@.subrange(0, cs@.len() as int) =~= cs@);
    let (end, mult) = suffix_of(cs.as_slice(), a, b);
    let digits = copy_range(cs.as_slice(), a, end);
    match parse_u64(digits.as_slice()) {
        Some(n) => {
            proof {
                assert(n <= u64::MAX / mult <==> n * mult <= u64::MAX) by (nonlinear_arith)
                    requires mult >= 1;
            }
            n <= u64::MAX / mult
        },
        None => true,
    }
}

fn suffix_of(cs: &[char], a: usize, b: usize) -> (r: (usize, u64))
    requires
        a <= b <= cs@.len(),
    ensures
        a <= r.0 <= b,
        duration_parts(cs@.subrange(a as int, b as int)) == (cs@.subrange(a as int, r.0 as int), r.1 as int),
        r.1 >= 1,
{
    let ghost t = cs@.subrange(a as int, b as int);
    if b > a && cs[b - 1] == 's' {
        assert(t.drop_last() =~= cs@.subrange(a as int, b - 1));
        (b - 1, 1)
    } else if b > a && cs[b - 1] == 'm' {
        assert(t.drop_last() =~= cs@.subrange(a as int, b - 1));
        (b - 1, 60)
    } else if b > a && cs[b - 1] == 'h' {
        assert(t.drop_last() =~= cs@.subrange(a as int, b - 1));
        (b - 1, 3600)
    } else {
        (b, 1)
    }
}

/// Reads a duration such as `"60s"`, `"5m"`, `"1h"` or `"90"` as seconds.
pub fn parse_duration(s: &str) -> (res: Result<u64, AppError>)
    requires
        duration_in_range(s@),
    ensures
        trim(s@).len() == 0 ==> res matches Err(AppError::EmptyDuration),
        trim(s@).len() > 0 ==> match duration_value(s@) {
            Some(v) => res == Ok::<u64, AppError>(v as u64),
            None => res matches Err(AppError::InvalidDuration(t)) && t@ == trim(s@),
        },
{
    let cs = chars_of(s);
    let (a, b) = trim_bounds(cs.as_slice(), 0, cs.len());
    assert(cs@.subrange(0, cs@.len() as int) =~= cs@);
    if a == b {
        return Err(AppError::EmptyDuration);
    }
    let (end, mult) = suffix_of(cs.as_slice(), a, b);
    let digits = copy_range(cs.as_slice(), a, end);
    match parse_u64(digits.as_slice()) {
        Some(n) => {
            assert(n * mult <= u64::MAX);
            Ok(n * mult)
        },
        None => {
            let t = copy_range(cs.as_slice(), a, b);
            Err(AppError::InvalidDuration(string_of(t.as_slice())))
        },
    }
}

fn clone_opt(o: &Option<String>) -> (res: Option<String>)
    ensures
        opt_view(res) == opt_view(*o),
{
    match o {
        Some(s) => Some(s.clone()),
        None => None,
    }
}

/// The settings `run` was given on its command line; the duration, already
/// read, is passed as seconds. A flag that is absent gives no setting.
pub fn overrides_from_args(args: &RunArgs, duration_secs: Option<u64>) -> (o: ConfigOverrides)
    ensures
        o@ == (OverridesView {
            backend: opt_view(args.backend),
            base_url: opt_view(args.target),
            model: opt_view(args.model),
            concurrency: args.concurrency,
            duration_secs: duration_secs,
            request_count: args.request_count,
            mode: opt_view(args.mode),
            prompt_tokens: args.prompt_tokens,
            output_tokens: args.output_tokens,
            no_cache: if args.no_cache { Some(true) } else { None },
            num_prefix_prompts: args.num_prefix_prompts,
            cache_rate: args.cache_rate,
            seed: args.seed,
            prompt_stddev: args.prompt_tokens_stddev,
            system_prompt_tokens: args.system_prompt_tokens,
            num_system_prompts: args.num_system_prompts,
            format: opt_view(args.format),
            output_dir: opt_view(args.output_dir),
            tag: opt_view(args.tag),
            http_proxy: opt_view(args.http_proxy),
            trace: args.trace,
        }),
{
    ConfigOverrides {
        backend: clone_opt(&args.backend),
        base_url: clone_opt(&args.target),
        model: clone_opt(&args.model),
        concurrency: args.concurrency,
        duration_secs,
        request_count: args.request_count,
        mode: clone_opt(&args.mode),
        prompt_tokens: args.prompt_tokens,
        output_tokens: args.output_tokens,
        no_cache: if args.no_cache { Some(true) } else { None },
        num_prefix_prompts: args.num_prefix_prompts,
        cache_rate: args.cache_rate,
        seed: args.seed,
        prompt_stddev: args.prompt_tokens_stddev,
        system_prompt_tokens: args.system_prompt_tokens,
        num_system_prompts: args.num_system_prompts,
        format: clone_opt(&args.format),
        output_dir: clone_opt(&args.output_dir),
        tag: clone_opt(&args.tag),
        http_proxy: clone_opt(&args.http_proxy),
        trace: args.trace,
    }
}

/// Tokens of the user prompt: the prompt size is the total input, so a
/// system prompt's tokens are taken off it (down to zero).
pub fn user_prompt_tokens(prompt_tokens: usize, system_prompt_tokens: usize) -> (n: usize)
    ensures
        n == (if system_prompt_tokens > 0 {
            if prompt_tokens >= system_prompt_tokens { prompt_tokens - system_prompt_tokens } else { 0 }
        } else {
            prompt_tokens as int
        }),
{
    if system_prompt_tokens > 0 {
        if prompt_tokens >= system_prompt_tokens { prompt_tokens - system_prompt_tokens } else { 0 }
    } else {
        prompt_tokens
    }
}

proof fn lemma_decimal_digits(n: nat)
    ensures
        all_digits(decimal(n)),
        digits_value(decimal(n)) == n,
        is_digit(decimal(n)[0]),
        is_digit(decimal(n).last()),
    decreases n,
{
    lemma_decimal_len_pos(n);
    if n >= 10 {
        lemma_decimal_digits(n / 10);
        let d = decimal(n);
        assert(d.drop_last() =~= decimal(n / 10));
        let k = n % 10;
        assert(d.last() == (('0' as int) + k) as char);
        assert(((('0' as int) + k) as char) as int == ('0' as int) + k);
        assert(digit_value(d.last()) == k);
        assert(digits_value(d) == digits_value(d.drop_last()) * 10 + digit_value(d.last()));
        assert(n == (n / 10) * 10 + k);
    } else {
        let d = decimal(n);
        assert(((('0' as int) + n) as char) as int == ('0' as int) + n);
        assert(d.drop_last() =~= Seq::<char>::empty());
        assert(digits_value(d) == digits_value(d.drop_last()) * 10 + digit_value(d.last()));
        assert forall|i: int| 0 <= i < d.len() implies is_digit(#[trigger] d[i]) by {
            if i < d.len() - 1 {
                assert(d[i] == decimal(n / 10)[i]);
            }
        }
    }
}

/// Reading back a whole number of seconds, minutes or hours written in
/// decimal with its unit gives that many seconds.
pub proof fn law_duration_reads_back(n: nat, unit: char)
    requires
        unit == 's' || unit == 'm' || unit == 'h',
        n * (if unit == 's' { 1int } else if unit == 'm' { 60int } else { 3600int }) <= u64::MAX,
    ensures
        duration_value(decimal(n).push(unit))
            == Some(n * (if unit == 's' { 1int } else if unit == 'm' { 60int } else { 3600int })),
{
    lemma_decimal_digits(n);
    let d = decimal(n);
    let t = d.push(unit);
    assert(t[0] == d[0]);
    assert(!is_ws(t[0]));
    assert(trim_start(t) == t);
    assert(!is_ws(t.last()));
    assert(trim_end(t) == t);
    assert(t.drop_last() =~= d);
    assert(unsigned_body(d) == d);
    assert(n <= u64::MAX) by (nonlinear_arith)
        requires n * (if unit == 's' { 1int } else if unit == 'm' { 60int } else { 3600int }) <= u64::MAX;
}

// ------------------------------------------------------------------ run

/// A run needs a model to ask.
pub fn require_model(cfg: &Config) -> (res: Result<(), AppError>)
    ensures
        res is Ok <==> cfg.model@.len() > 0,
        res is Err ==> res == Err::<(), AppError>(AppError::MissingModel),
{
    let cs = chars_of(cfg.model.as_str());
    if cs.len() == 0 {
        Err(AppError::MissingModel)
    } else {
        Ok(())
    }
}

/// What ends a run.
#[derive(Clone, Copy, Debug, PartialEq, Eq, Structural)]
pub enum RunLimit {
    /// This many requests; a request count takes precedence over a duration.
    Requests(usize),
    /// This many seconds.
    Seconds(u64),
    /// Neither was given: the run goes on until interrupted.
    UntilInterrupted,
}

pub fn run_limit(cfg: &Config) -> (l: RunLimit)
    ensures
        l == (if cfg.request_count > 0 {
            RunLimit::Requests(cfg.request_count)
        } else if cfg.duration_secs > 0 {
            RunLimit::Seconds(cfg.duration_secs)
        } else {
            RunLimit::UntilInterrupted
        }),
{
    if cfg.request_count > 0 {
        RunLimit::Requests(cfg.request_count)
    } else if cfg.duration_secs > 0 {
        RunLimit::Seconds(cfg.duration_secs)
    } else {
        RunLimit::UntilInterrupted
    }
}

// ------------------------------------------------------------------ trace

/// The pool index of the request that `--trace N` shows (N counts from 1).
pub fn trace_index(trace: usize) -> (i: usize)
    ensures
        i == (if trace >= 1 { trace - 1 } else { 0 }),
{
    trace.saturating_sub(1)
}

/// The system prompt shown in a trace when no system prompt pool is set:
/// it asks for five words per output token.
pub open spec fn trace_system_prompt_text(output_tokens: nat) -> Seq<char> {
    "Please continue writing. Write at least "@ + decimal(output_tokens * 5) + " words."@
}

pub fn trace_system_prompt(output_tokens: usize) -> (res: String)
    requires
        output_tokens * 5 <= u64::MAX,
    ensures
        res@ == trace_system_prompt_text(output_tokens as nat),
{
    let mut digits: Vec<char> = Vec::new();
    push_decimal(&mut digits, (output_tokens as u64) * 5);
    let a = concat("Please continue writing. Write at least ", string_of(digits.as_slice()).as_str());
    concat(a.as_str(), " words.")
}

/// The curl command that replays a request: `-N` for a streamed one, the
/// proxy when one is set, and the JSON body.
pub open spec fn trace_curl_text(base_url: Seq<char>, http_proxy: Seq<char>, is_stream: bool, body: Seq<char>) -> Seq<char> {
    "curl "@ + (if is_stream { "-N "@ } else { ""@ }) + "'"@ + base_url
        + "/chat/completions' \\\n  -H 'Content-Type: application/json' \\\n"@
        + (if http_proxy.len() > 0 { "  -x "@ + http_proxy + " \\\n"@ } else { ""@ })
        + "  -d '"@ + body + "'"@
}

pub fn trace_curl(base_url: &str, http_proxy: &str, is_stream: bool, body: &str) -> (res: String)
    ensures
        res@ == trace_curl_text(base_url@, http_proxy@, is_stream, body@),
{
    let a = concat("curl ", if is_stream { "-N " } else { "" });
    let b = concat(a.as_str(), "'");
    let c = concat(b.as_str(), base_url);
    let d = concat(c.as_str(), "/chat/completions' \\\n  -H 'Content-Type: application/json' \\\n");
    let e = if chars_of(http_proxy).len() > 0 {
        let x = concat("  -x ", http_proxy);
        let y = concat(x.as_str(), " \\\n");
        concat(d.as_str(), y.as_str())
    } else {
        concat(d.as_str(), "")
    };
    let f = concat(e.as_str(), "  -d '");
    let g = concat(f.as_str(), body);
    let res = concat(g.as_str(), "'");
    assert(res@ =~= trace_curl_text(base_url@, http_proxy@, is_stream, body@));
    res
}

} // verus!

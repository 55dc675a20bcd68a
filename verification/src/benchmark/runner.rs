//! Decisions a benchmark worker makes for each request: which request
//! number it takes, how the prompt is made partly uncacheable, and how the
//! prompt size is estimated when the server reports none.
use vstd::prelude::*;
use vstd::string::{StringExecFns, StringSliceAdditionalSpecFns};
use vstd::utf8::{valid_utf8, decode_utf8, is_char_boundary, pop_first_scalar, length_of_first_scalar};
use crate::backend::{Request, Timing, MessageView, message_views};
use crate::ids::{is_uuid_text, new_uuid_v4};
use super::{new_benchmark_request, new_benchmark_request_with_system};

verus! {

// ----------------------------------------------------------- request slots

/// A request a worker has claimed: its number, counted from 1, and the
/// index into the prompt pools it uses, counted from 0, so that requests
/// 1, 4, 7, ... of a pool of three share its first prompt.
#[derive(Debug, Clone, Copy, PartialEq, Eq, Structural)]
pub struct RequestSlot {
    pub number: usize,
    pub pool_index: usize,
}

/// Whether a worker goes on to claim a request. A run bounded by a request
/// count always does (the count decides); a run bounded by time stops once
/// its deadline has passed.
pub fn may_claim(request_count: usize, deadline_passed: bool) -> (b: bool)
    ensures
        b == (request_count > 0 || !deadline_passed),
{
    request_count > 0 || !deadline_passed
}

/// The request a worker takes after reading `fetched` from the shared
/// counter (which it has just incremented): number `fetched + 1` at pool
/// index `fetched`, unless a request count is set and that number exceeds
/// it, in which case the worker gives its increment back and stops.
pub fn claim_request(fetched: usize, request_count: usize) -> (res: Option<RequestSlot>)
    requires
        fetched < usize::MAX,
    ensures
        res == (if request_count > 0 && fetched + 1 > request_count {
            None::<RequestSlot>
        } else {
            Some(RequestSlot { number: (fetched + 1) as usize, pool_index: fetched })
        }),
{
    let num = fetched + 1;
    if request_count > 0 && num > request_count {
        None
    } else {
        Some(RequestSlot { number: num, pool_index: fetched })
    }
}

/// With a request count set, every request number handed out is between
/// 1 and the count, its pool index is one less, and a worker that reads
/// the counter at `count` or beyond stops.
pub proof fn law_claims_within_count(fetched: usize, request_count: usize)
    requires
        fetched < usize::MAX,
        request_count > 0,
    ensures
        ({
            let r = if request_count > 0 && fetched + 1 > request_count {
                None::<RequestSlot>
            } else {
                Some(RequestSlot { number: (fetched + 1) as usize, pool_index: fetched })
            };
            &&& fetched < request_count ==> (r matches Some(slot) && 1 <= slot.number <= request_count
                && slot.pool_index == slot.number - 1)
            &&& fetched >= request_count ==> r is None
        }),
{
}

/// The prompt is made partly uncacheable when the cache is in use and the
/// cache rate is strictly between 0 and 100.
pub fn uses_cache_breaker(no_cache: bool, cache_rate: usize) -> (b: bool)
    ensures
        b == (!no_cache && 1 <= cache_rate <= 99),
{
    !no_cache && 1 <= cache_rate && cache_rate <= 99
}

/// A server that reports no prompt tokens is credited one token per four
/// bytes of prompt.
pub fn fill_prompt_tokens(timing: &mut Timing, prompt_char_len: usize)
    ensures
        final(timing).prompt_tokens == (if old(timing).prompt_tokens == 0 {
            prompt_char_len / 4
        } else {
            old(timing).prompt_tokens
        }),
        final(timing).ttft == old(timing).ttft,
        final(timing).prefill_dur == old(timing).prefill_dur,
        final(timing).decode_dur == old(timing).decode_dur,
        final(timing).total_dur == old(timing).total_dur,
        final(timing).output_tokens == old(timing).output_tokens,
        final(timing).cached_tokens == old(timing).cached_tokens,
        final(timing).tpot == old(timing).tpot,
        final(timing).token_timings@ == old(timing).token_timings@,
{
    if timing.prompt_tokens == 0 {
        timing.prompt_tokens = prompt_char_len / 4;
    }
}

// --------------------------------------------------------- cache breaking

/// First index at or after `i` holding a space byte.
pub open spec fn first_space_from(b: Seq<u8>, i: int) -> Option<int>
    decreases b.len() - i,
{
    if i < 0 || i >= b.len() {
        None
    } else if b[i] == 32 {
        Some(i)
    } else {
        first_space_from(b, i + 1)
    }
}

/// Just past the first space at or after `pos`, or the end of `b`.
pub open spec fn word_boundary(b: Seq<u8>, pos: int) -> int {
    if pos >= b.len() {
        b.len() as int
    } else {
        match first_space_from(b, pos) {
            Some(j) => j + 1,
            None => b.len() as int,
        }
    }
}

proof fn lemma_first_space(b: Seq<u8>, i: int)
    requires
        0 <= i,
    ensures
        first_space_from(b, i) matches Some(j) ==> i <= j < b.len() && b[j] == 32,
    decreases b.len() - i,
{
    if i < b.len() && b[i] != 32 {
        lemma_first_space(b, i + 1);
    }
}

/// Byte offset just past the nearest space at or after `pos`, so that a
/// prompt is not split mid-word; the end of `s` when there is none.
pub fn find_word_boundary(s: &str, pos: usize) -> (res: usize)
    requires
        pos >= s.spec_bytes().len() || is_char_boundary(s.spec_bytes(), pos as int),
    ensures
        res == word_boundary(s.spec_bytes(), pos as int),
        res <= s.spec_bytes().len(),
        is_char_boundary(s.spec_bytes(), res as int),
{
    proof {
        vstd::utf8::encode_utf8_valid_utf8(s@);
        lemma_word_boundary_is_char_boundary(s.spec_bytes(), pos as int);
    }
    let b = s.as_bytes();
    let n = b.len();
    if pos >= n {
        return n;
    }
    let mut i = pos;
    while i < n
        invariant
            pos <= i <= n == b@.len(),
            b@ == s.spec_bytes(),
            first_space_from(b@, pos as int) == first_space_from(b@, i as int),
            pos < n,
            is_char_boundary(b@, word_boundary(b@, pos as int)),
        decreases n - i,
    {
        if b[i] == 32u8 {
            assert(first_space_from(b@, i as int) == Some(i as int));
            return i + 1;
        }
        i = i + 1;
    }
    n
}

/// A byte right after an ASCII byte of valid UTF-8 starts a character.
proof fn lemma_boundary_after_ascii(bytes: Seq<u8>, j: int)
    requires
        valid_utf8(bytes),
        0 <= j < bytes.len(),
        bytes[j] < 0x80,
    ensures
        is_char_boundary(bytes, j + 1),
    decreases bytes.len(),
{
    vstd::utf8::is_char_boundary_iff_not_is_continuation_byte(bytes, j);
    let l = length_of_first_scalar(bytes);
    let rest = pop_first_scalar(bytes);
    assert(valid_utf8(rest));
    if j == 0 {
        assert(l == 1);
        assert(is_char_boundary(rest, 0));
    } else {
        assert(is_char_boundary(bytes, j));
        assert(is_char_boundary(rest, j - l));
        if j - l < 0 {
            assert(false);
        }
        assert(rest.len() == bytes.len() - l);
        assert(rest[j - l] == bytes[j]);
        lemma_boundary_after_ascii(rest, j - l);
    }
}

/// `word_boundary(b, pos)` falls on a character boundary of valid UTF-8.
proof fn lemma_word_boundary_is_char_boundary(b: Seq<u8>, pos: int)
    requires
        valid_utf8(b),
        0 <= pos,
    ensures
        is_char_boundary(b, word_boundary(b, pos)),
        0 <= word_boundary(b, pos) <= b.len(),
{
    vstd::utf8::is_char_boundary_start_end_of_seq(b);
    lemma_first_space(b, pos);
    if pos < b.len() {
        if let Some(j) = first_space_from(b, pos) {
            lemma_boundary_after_ascii(b, j);
        }
    }
}

/// Where the cache breaker goes in a prompt of `b`: `cache_rate` percent of
/// the way in, moved forward past the next space.
pub open spec fn breaker_position(b: Seq<u8>, cache_rate: int) -> int {
    word_boundary(b, b.len() * cache_rate / 100)
}

/// `prompt` with `\n[id]\n` inserted at the breaker position: the part
/// before stays a shared, cacheable prefix; the rest becomes unique.
pub open spec fn with_cache_breaker(b: Seq<u8>, cache_rate: int, id: Seq<char>) -> Seq<char> {
    let p = breaker_position(b, cache_rate);
    decode_utf8(b.take(p)) + seq!['\n', '['] + id + seq![']', '\n'] + decode_utf8(b.skip(p))
}

/// The text of `prompt` has a cache breaker at `cache_rate` percent when
/// its position there is a character boundary (or the end); computing the
/// position does not overflow.
pub open spec fn cache_breaker_ok(prompt: &str, cache_rate: int) -> bool {
    let b = prompt.spec_bytes();
    &&& b.len() * cache_rate <= usize::MAX
    &&& (b.len() * cache_rate / 100 >= b.len() || is_char_boundary(b, b.len() * cache_rate / 100))
}

/// Inserts `\n[id]\n` into `prompt` at its breaker position.
pub fn insert_cache_breaker_with(prompt: &str, cache_rate: usize, id: &str) -> (res: String)
    requires
        cache_breaker_ok(prompt, cache_rate as int),
    ensures
        res@ == with_cache_breaker(prompt.spec_bytes(), cache_rate as int, id@),
        vstd::utf8::encode_utf8(res@).len() == prompt.spec_bytes().len() + id.spec_bytes().len() + 4,
{
    let ghost b = prompt.spec_bytes();
    proof {
        vstd::utf8::encode_utf8_valid_utf8(prompt@);
    }
    let n = prompt.as_bytes().len();
    let pos = n * cache_rate / 100;
    let p = find_word_boundary(prompt, pos);
    proof {
        lemma_word_boundary_is_char_boundary(b, pos as int);
    }
    let (head, tail) = prompt.split_at(p);
    proof {
        vstd::utf8::encode_utf8_decode_utf8(head@);
        vstd::utf8::encode_utf8_decode_utf8(tail@);
        assert(b.subrange(0, p as int) =~= b.take(p as int));
        assert(b.subrange(p as int, b.len() as int) =~= b.skip(p as int));
    }
    let mut res = head.to_owned();
    res.append("\n[");
    res.append(id);
    res.append("]\n");
    res.append(tail);
    proof {
        reveal_strlit("\n[");
        reveal_strlit("]\n");
        assert(res@ =~= with_cache_breaker(b, cache_rate as int, id@));
        let h = head@;
        let t = tail@;
        let o = seq!['\n', '['];
        let c = seq![']', '\n'];
        assert(res@ =~= h + o + id@ + c + t);
        crate::text::lemma_encode_concat(h + o + id@ + c, t);
        crate::text::lemma_encode_concat(h + o + id@, c);
        crate::text::lemma_encode_concat(h + o, id@);
        crate::text::lemma_encode_concat(h, o);
        crate::text::lemma_encode_ascii_len(o);
        crate::text::lemma_encode_ascii_len(c);
        assert(head.spec_bytes().len() + tail.spec_bytes().len() == b.len());
    }
    res
}

/// Inserts a fresh random UUID, framed as `\n[UUID]\n`, at the breaker
/// position of `prompt`.
pub fn insert_cache_breaker(prompt: &str, cache_rate: usize) -> (res: String)
    requires
        cache_breaker_ok(prompt, cache_rate as int),
    ensures
        exists|id: Seq<char>| is_uuid_text(id)
            && res@ == with_cache_breaker(prompt.spec_bytes(), cache_rate as int, id),
        vstd::utf8::encode_utf8(res@).len() == prompt.spec_bytes().len() + 40,
{
    let id = new_uuid_v4();
    proof {
        assert forall|i: int| 0 <= i < id@.len() implies (#[trigger] id@[i] as u32) < 0x80 by {
            assert(i == 8 || i == 13 || i == 18 || i == 23 || crate::ids::is_lower_hex_digit(id@[i]));
        }
        crate::text::lemma_encode_ascii_len(id@);
    }
    insert_cache_breaker_with(prompt, cache_rate, id.as_str())
}

/// The text before the breaker, and the text after it, make up the prompt.
pub proof fn law_cache_breaker_keeps_prompt(prompt: &str, cache_rate: int, id: Seq<char>)
    requires
        cache_rate >= 0,
    ensures ({
        let b = prompt.spec_bytes();
        let p = breaker_position(b, cache_rate);
        &&& decode_utf8(b.take(p)) + decode_utf8(b.skip(p)) == prompt@
        &&& with_cache_breaker(b, cache_rate, id)
            == decode_utf8(b.take(p)) + seq!['\n', '['] + id + seq![']', '\n'] + decode_utf8(b.skip(p))
    }),
{
    let b = prompt.spec_bytes();
    vstd::utf8::encode_utf8_valid_utf8(prompt@);
    vstd::utf8::encode_utf8_decode_utf8(prompt@);
    let pos = b.len() * cache_rate / 100;
    assert(pos >= 0) by (nonlinear_arith)
        requires cache_rate >= 0, b.len() >= 0, pos == b.len() * cache_rate / 100;
    lemma_word_boundary_is_char_boundary(b, pos);
    let p = breaker_position(b, cache_rate);
    vstd::utf8::decode_utf8_split(b, p);
    assert(b.subrange(0, p) =~= b.take(p));
    assert(b.subrange(p, b.len() as int) =~= b.skip(p));
}

/// Two prompts given cache breakers at the same rate share the text up to
/// and including `\n[`, and, for ids of one length (as UUIDs are), come
/// out the same exactly when their ids are the same: fresh ids make
/// distinct prompts behind a common, cacheable prefix.
pub proof fn law_cache_breakers_differ_by_id(prompt: &str, cache_rate: int, id1: Seq<char>, id2: Seq<char>)
    requires
        id1.len() == id2.len(),
    ensures ({
        let b = prompt.spec_bytes();
        let head = decode_utf8(b.take(breaker_position(b, cache_rate))) + seq!['\n', '['];
        &&& with_cache_breaker(b, cache_rate, id1).take(head.len() as int) == head
        &&& with_cache_breaker(b, cache_rate, id2).take(head.len() as int) == head
        &&& (with_cache_breaker(b, cache_rate, id1) == with_cache_breaker(b, cache_rate, id2) <==> id1 == id2)
    }),
{
    let b = prompt.spec_bytes();
    let head = decode_utf8(b.take(breaker_position(b, cache_rate))) + seq!['\n', '['];
    let tail = seq![']', '\n'] + decode_utf8(b.skip(breaker_position(b, cache_rate)));
    let r1 = with_cache_breaker(b, cache_rate, id1);
    let r2 = with_cache_breaker(b, cache_rate, id2);
    assert(r1 =~= head + id1 + tail);
    assert(r2 =~= head + id2 + tail);
    assert(r1.take(head.len() as int) =~= head);
    assert(r2.take(head.len() as int) =~= head);
    let h = head.len() as int;
    let n = id1.len() as int;
    assert(r1.subrange(h, h + n) =~= id1);
    assert(r2.subrange(h, h + n) =~= id2);
}

// ------------------------------------------------------------- composing

/// The request a worker sends for one prompt: the user prompt (with the
/// cache breaker when [`uses_cache_breaker`] says so), after the system
/// prompt if there is one; and the prompt's size in bytes, which stands in
/// for token counts the server does not report.
pub fn compose_request(
    model: &str,
    system_prompt: Option<&str>,
    user_prompt: &str,
    no_cache: bool,
    cache_rate: usize,
    max_tokens: usize,
) -> (res: (Request, usize))
    requires
        (!no_cache && 1 <= cache_rate <= 99) ==> cache_breaker_ok(user_prompt, cache_rate as int),
        system_prompt matches Some(s) ==> s.spec_bytes().len() + user_prompt.spec_bytes().len() + 40 <= usize::MAX,
        user_prompt.spec_bytes().len() + 40 <= usize::MAX,
    ensures
        res.0.model@ == model@,
        res.0.max_tokens == max_tokens,
        res.0.no_cache == no_cache,
        res.1 == (match system_prompt { Some(s) => s.spec_bytes().len(), None => 0 })
            + vstd::utf8::encode_utf8(message_views(res.0.messages@).last().content).len(),
        exists|user: Seq<char>| {
            &&& (if !no_cache && 1 <= cache_rate <= 99 {
                exists|id: Seq<char>| is_uuid_text(id)
                    && user == with_cache_breaker(user_prompt.spec_bytes(), cache_rate as int, id)
            } else {
                user == user_prompt@
            })
            &&& message_views(res.0.messages@) == (match system_prompt {
                Some(s) => seq![
                    MessageView { role: "system"@, content: s@ },
                    MessageView { role: "user"@, content: user },
                ],
                None => seq![MessageView { role: "user"@, content: user }],
            })
        },
{
    let user: String = if uses_cache_breaker(no_cache, cache_rate) {
        insert_cache_breaker(user_prompt, cache_rate)
    } else {
        user_prompt.to_owned()
    };
    assert(vstd::utf8::encode_utf8(user@).len() <= user_prompt.spec_bytes().len() + 40);
    let user_len = user.as_str().as_bytes().len();
    match system_prompt {
        Some(s) => {
            let mut req = new_benchmark_request_with_system(model, s, user.as_str(), max_tokens);
            req.no_cache = no_cache;
            let len = s.as_bytes().len() + user_len;
            (req, len)
        },
        None => {
            let mut req = new_benchmark_request(model, user.as_str(), max_tokens);
            req.no_cache = no_cache;
            (req, user_len)
        },
    }
}

} // verus!

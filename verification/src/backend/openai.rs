//! The OpenAI-compatible chat-completion protocol: message preparation,
//! server-sent-event framing, and the accounting of streamed and
//! non-streamed answers.
use vstd::prelude::*;
use vstd::string::StringExecFns;
use vstd::utf8::{valid_utf8, decode_utf8};
use crate::duration::Duration;
use crate::ids::{is_uuid_text, new_uuid_v4};
use crate::metrics::stats::dur_total;
use crate::text::{chars_of, string_of, copy_range, trim, trim_start, trim_bounds, skip_ws_within};
use super::{Message, MessageView, Request, Response, Timing, message_views};

verus! {

// ------------------------------------------------------------- messages

/// The messages as sent: with `no_cache`, the first message's content is
/// prefixed by `id` and a space.
pub open spec fn prepared_messages(msgs: Seq<MessageView>, no_cache: bool, id: Seq<char>) -> Seq<MessageView> {
    if no_cache && msgs.len() > 0 {
        msgs.update(0, MessageView { role: msgs[0].role, content: id + seq![' '] + msgs[0].content })
    } else {
        msgs
    }
}

/// The request's messages, the first one prefixed by `id` when the request
/// asks to bypass the prompt cache.
pub fn prepare_messages_with(req: &Request, id: &str) -> (res: Vec<Message>)
    ensures
        message_views(res@) == prepared_messages(message_views(req.messages@), req.no_cache, id@),
{
    let mut res: Vec<Message> = Vec::new();
    let mut i: usize = 0;
    while i < req.messages.len()
        invariant
            i <= req.messages@.len(),
            message_views(res@) == message_views(req.messages@).take(i as int),
        decreases req.messages@.len() - i,
    {
        let m = req.messages[i].duplicate();
        let ghost prev = res@;
        res.push(m);
        assert(message_views(res@) =~= message_views(prev).push(m@));
        i = i + 1;
        assert(message_views(res@) =~= message_views(req.messages@).take(i as int));
    }
    assert(message_views(req.messages@).take(i as int) =~= message_views(req.messages@));
    if req.no_cache && res.len() > 0 {
        let mut content = id.to_owned();
        content.append(" ");
        content.append(res[0].content.as_str());
        let role = res[0].role.clone();
        let ghost prev = res@;
        res.set(0, Message { role, content });
        assert(message_views(res@) =~= prepared_messages(message_views(req.messages@), req.no_cache, id@)) by {
            assert(" "@ =~= seq![' ']) by {
                reveal_strlit(" ");
            }
        }
    }
    res
}

/// The request's messages as sent; when the request bypasses the prompt
/// cache, the first one is prefixed by a fresh random UUID.
pub fn prepare_messages(req: &Request) -> (res: Vec<Message>)
    ensures
        exists|id: Seq<char>| is_uuid_text(id)
            && message_views(res@) == prepared_messages(message_views(req.messages@), req.no_cache, id),
{
    if req.no_cache && req.messages.len() > 0 {
        let id = new_uuid_v4();
        prepare_messages_with(req, id.as_str())
    } else {
        let res = prepare_messages_with(req, "");
        let ghost id = Seq::new(36, |i: int| if i == 8 || i == 13 || i == 18 || i == 23 { '-' } else { '4' });
        assert(is_uuid_text(id));
        res
    }
}

// ------------------------------------------------------ non-streamed answer

/// Token usage reported by the server.
#[derive(Debug, Clone, Copy, PartialEq, Eq)]
pub struct UsageInfo {
    pub prompt_tokens: usize,
    pub completion_tokens: usize,
    /// `prompt_tokens_details.cached_tokens`, absent when the server sent
    /// no details.
    pub cached_tokens: Option<usize>,
}

/// Text of the first choice: its `content`, or else its `reasoning`.
#[derive(Debug)]
pub struct ChoiceText {
    pub content: Option<String>,
    pub reasoning: Option<String>,
}

pub open spec fn opt_text(o: Option<String>) -> Option<Seq<char>> {
    match o {
        Some(s) => Some(s@),
        None => None,
    }
}

/// The text a choice contributes: `content`, else `reasoning`, else empty.
pub open spec fn choice_text(content: Option<Seq<char>>, reasoning: Option<Seq<char>>) -> Seq<char> {
    match content {
        Some(c) => c,
        None => match reasoning {
            Some(r) => r,
            None => Seq::empty(),
        },
    }
}

/// `d / n`, with `n` narrowed to `u32` first as the caller's `n as u32`
/// does.
pub open spec fn div_narrowed(d: Duration, n: int) -> Duration {
    Duration { nanos: (d@ / (n % 4294967296)) as u128 }
}

fn text_of(o: &Option<String>) -> (res: Option<String>)
    ensures
        opt_text(res) == opt_text(*o),
{
    match o {
        Some(s) => Some(s.clone()),
        None => None,
    }
}

/// The answer to a non-streamed request that took `total_dur`: every phase
/// is reported as the whole request; TPOT is the duration spread over the
/// output tokens when there are more than one.
pub fn single_response(total_dur: Duration, usage: Option<UsageInfo>, first_choice: Option<ChoiceText>) -> (res: Response)
    requires
        usage matches Some(u) ==> (u.completion_tokens <= 1 || (u.completion_tokens as int) % 4294967296 != 0),
    ensures
        res.content@ == (match first_choice {
            Some(c) => choice_text(opt_text(c.content), opt_text(c.reasoning)),
            None => Seq::empty(),
        }),
        res.timing.ttft == total_dur,
        res.timing.prefill_dur == total_dur,
        res.timing.decode_dur == total_dur,
        res.timing.total_dur == total_dur,
        res.timing.prompt_tokens == (match usage { Some(u) => u.prompt_tokens, None => 0 }),
        res.timing.output_tokens == (match usage { Some(u) => u.completion_tokens, None => 0 }),
        res.timing.cached_tokens == (match usage {
            Some(u) => match u.cached_tokens { Some(c) => c, None => 0 },
            None => 0,
        }),
        res.timing.tpot == (if res.timing.output_tokens > 1 {
            div_narrowed(total_dur, res.timing.output_tokens as int)
        } else {
            Duration { nanos: 0 }
        }),
        res.timing.token_timings@.len() == 0,
{
    let (prompt_tokens, output_tokens, cached_tokens) = match usage {
        Some(u) => (u.prompt_tokens, u.completion_tokens, match u.cached_tokens { Some(c) => c, None => 0 }),
        None => (0, 0, 0),
    };
    let content = match first_choice {
        Some(c) => match text_of(&c.content) {
            Some(t) => t,
            None => match text_of(&c.reasoning) {
                Some(r) => r,
                None => String::new(),
            },
        },
        None => String::new(),
    };
    let tpot = if output_tokens > 1 {
        let narrowed = ((output_tokens as u64) % 4294967296u64) as u32;
        total_dur.div_u32(narrowed)
    } else {
        Duration::zero()
    };
    Response {
        content,
        timing: Timing {
            ttft: total_dur,
            prefill_dur: total_dur,
            decode_dur: total_dur,
            total_dur,
            prompt_tokens,
            output_tokens,
            cached_tokens,
            tpot,
            token_timings: Vec::new(),
        },
    }
}


// ------------------------------------------------------- event framing

/// First index at or after `i` where `pat` occurs in `buf`.
pub open spec fn find_from(buf: Seq<u8>, pat: Seq<u8>, i: int) -> Option<int>
    decreases buf.len() - i,
{
    if i < 0 || i >= buf.len() || i + pat.len() > buf.len() {
        None
    } else if buf.subrange(i, i + pat.len()) == pat {
        Some(i)
    } else {
        find_from(buf, pat, i + 1)
    }
}

pub open spec fn lf_lf() -> Seq<u8> { seq![10u8, 10u8] }
pub open spec fn crlf_crlf() -> Seq<u8> { seq![13u8, 10u8, 13u8, 10u8] }
pub open spec fn crlf_lf() -> Seq<u8> { seq![13u8, 10u8, 10u8] }

/// Where the first complete event of `buf` ends, and the length of the
/// blank-line separator there: the first `\n\n`, else the first
/// `\r\n\r\n`, else the first `\r\n\n`.
pub open spec fn event_boundary(buf: Seq<u8>) -> Option<(int, int)> {
    let pos = match find_from(buf, lf_lf(), 0) {
        Some(p) => Some(p),
        None => match find_from(buf, crlf_crlf(), 0) {
            Some(p) => Some(p),
            None => find_from(buf, crlf_lf(), 0),
        },
    };
    match pos {
        None => None,
        Some(p) => Some((p,
            if p + 4 <= buf.len() && buf.subrange(p, p + 4) == crlf_crlf() {
                4
            } else if p + 3 <= buf.len() && buf.subrange(p, p + 3) == crlf_lf() {
                3
            } else {
                2
            })),
    }
}

/// `buf[i..i + pat.len()] == pat`.
fn matches_at(buf: &[u8], i: usize, pat: &[u8]) -> (b: bool)
    requires
        i + pat@.len() <= buf@.len(),
    ensures
        b == (buf@.subrange(i as int, i + pat@.len()) == pat@),
{
    let bl = buf.len();
    let mut k: usize = 0;
    while k < pat.len()
        invariant
            k <= pat@.len(),
            bl == buf@.len(),
            i + pat@.len() <= buf@.len(),
            buf@.subrange(i as int, i + k) == pat@.take(k as int),
        decreases pat@.len() - k,
    {
        if buf[i + k] != pat[k] {
            assert(buf@.subrange(i as int, i + pat@.len())[k as int] != pat@[k as int]);
            return false;
        }
        k = k + 1;
        assert(buf@.subrange(i as int, i + k) =~= pat@.take(k as int));
    }
    assert(pat@.take(k as int) =~= pat@);
    true
}

/// First occurrence of `pat` in `buf`.
fn find_pattern(buf: &[u8], pat: &[u8]) -> (res: Option<usize>)
    requires
        pat@.len() > 0,
    ensures
        match res {
            Some(p) => find_from(buf@, pat@, 0) == Some(p as int),
            None => find_from(buf@, pat@, 0) is None,
        },
{
    if pat.len() > buf.len() {
        return None;
    }
    let bl = buf.len();
    let last = bl - pat.len();
    let mut i: usize = 0;
    while i <= last
        invariant
            last == buf@.len() - pat@.len(),
            pat@.len() > 0,
            last < bl,
            i <= last + 1,
            find_from(buf@, pat@, 0) == find_from(buf@, pat@, i as int),
        decreases last + 1 - i,
    {
        if matches_at(buf, i, pat) {
            return Some(i);
        }
        i = i + 1;
    }
    None
}

/// Bytes of a response stream not yet split into events.
pub struct SseBuffer {
    pub buf: Vec<u8>,
}

impl SseBuffer {
    pub fn new() -> (b: SseBuffer)
        ensures
            b.buf@ == Seq::<u8>::empty(),
    {
        SseBuffer { buf: Vec::new() }
    }

    /// Appends bytes received from the stream.
    pub fn push_bytes(&mut self, chunk: &[u8])
        ensures
            final(self).buf@ == old(self).buf@ + chunk@,
    {
        let mut i: usize = 0;
        while i < chunk.len()
            invariant
                i <= chunk@.len(),
                self.buf@ == old(self).buf@ + chunk@.take(i as int),
            decreases chunk@.len() - i,
        {
            self.buf.push(chunk[i]);
            i = i + 1;
            assert(self.buf@ =~= old(self).buf@ + chunk@.take(i as int));
        }
        assert(chunk@.take(i as int) =~= chunk@);
    }

    /// Removes and returns the first complete event, separator included.
    pub fn next_event(&mut self) -> (res: Option<Vec<u8>>)
        ensures
            match event_boundary(old(self).buf@) {
                None => res is None && final(self).buf@ == old(self).buf@,
                Some((p, n)) => res matches Some(ev) && ev@ == old(self).buf@.take(p + n)
                    && final(self).buf@ == old(self).buf@.skip(p + n),
            },
    {
        let lf2: [u8; 2] = [10u8, 10u8];
        let cr2: [u8; 4] = [13u8, 10u8, 13u8, 10u8];
        let crlf: [u8; 3] = [13u8, 10u8, 10u8];
        assert(lf2@ =~= lf_lf());
        assert(cr2@ =~= crlf_crlf());
        assert(crlf@ =~= crlf_lf());
        let found = match find_pattern(self.buf.as_slice(), lf2.as_slice()) {
            Some(p) => Some(p),
            None => match find_pattern(self.buf.as_slice(), cr2.as_slice()) {
                Some(p) => Some(p),
                None => find_pattern(self.buf.as_slice(), crlf.as_slice()),
            },
        };
        match found {
            None => None,
            Some(pos) => {
                proof {
                    assert(find_from(self.buf@, lf_lf(), 0) is Some ==> pos + 2 <= self.buf@.len()) by {
                        lemma_find_from_bound(self.buf@, lf_lf(), 0);
                    }
                    lemma_find_from_bound(self.buf@, crlf_crlf(), 0);
                    lemma_find_from_bound(self.buf@, crlf_lf(), 0);
                }
                let n = self.buf.len();
                let end_len: usize = if n >= 4 && pos <= n - 4 && matches_at(self.buf.as_slice(), pos, cr2.as_slice()) {
                    4
                } else if n >= 3 && pos <= n - 3 && matches_at(self.buf.as_slice(), pos, crlf.as_slice()) {
                    3
                } else {
                    2
                };
                let end = pos + end_len;
                let ev = copy_bytes(self.buf.as_slice(), 0, end);
                let rest = copy_bytes(self.buf.as_slice(), end, n);
                assert(ev@ =~= self.buf@.take(end as int));
                assert(rest@ =~= self.buf@.skip(end as int));
                self.buf = rest;
                Some(ev)
            },
        }
    }
}

proof fn lemma_find_from_bound(buf: Seq<u8>, pat: Seq<u8>, i: int)
    ensures
        find_from(buf, pat, i) matches Some(p) ==> i <= p && p + pat.len() <= buf.len(),
    decreases buf.len() - i,
{
    if i < 0 || i >= buf.len() || i + pat.len() > buf.len() {
    } else if buf.subrange(i, i + pat.len()) == pat {
    } else {
        lemma_find_from_bound(buf, pat, i + 1);
    }
}

/// A copy of `s[from..to]`.
fn copy_bytes(s: &[u8], from: usize, to: usize) -> (res: Vec<u8>)
    requires
        from <= to <= s@.len(),
    ensures
        res@ == s@.subrange(from as int, to as int),
{
    let mut res: Vec<u8> = Vec::new();
    let mut i = from;
    while i < to
        invariant
            from <= i <= to <= s@.len(),
            res@ == s@.subrange(from as int, i as int),
        decreases to - i,
    {
        res.push(s[i]);
        i = i + 1;
    }
    res
}

// ------------------------------------------------------- event payloads

/// How `String::from_utf8_lossy` reads `bytes`.
pub uninterp spec fn lossy_utf8(bytes: Seq<u8>) -> Seq<char>;

/// The text of `bytes`, invalid sequences replaced by U+FFFD
/// (`String::from_utf8_lossy`).
///
/// Trusted: the result is `lossy_utf8(bytes)`, a function of the bytes
/// alone, and std documents that valid UTF-8 comes back unchanged.
#[verifier::external_body]
fn utf8_lossy(bytes: &[u8]) -> (res: String)
    ensures
        res@ == lossy_utf8(bytes@),
        valid_utf8(bytes@) ==> res@ == decode_utf8(bytes@),
{
    String::from_utf8_lossy(bytes).into_owned()
}

/// Index of the first `\n` at or after `start`, or the length of `s`.
pub open spec fn line_end(s: Seq<char>, start: int) -> int
    decreases s.len() - start,
{
    if start < 0 || start >= s.len() {
        s.len() as int
    } else if s[start] == '\n' {
        start
    } else {
        line_end(s, start + 1)
    }
}

proof fn lemma_line_end(s: Seq<char>, start: int)
    requires
        0 <= start <= s.len(),
    ensures
        start <= line_end(s, start) <= s.len(),
        line_end(s, start) < s.len() ==> s[line_end(s, start)] == '\n',
        forall|k: int| start <= k < line_end(s, start) ==> s[k] != '\n',
    decreases s.len() - start,
{
    if start < s.len() && s[start] != '\n' {
        lemma_line_end(s, start + 1);
    }
}

pub open spec fn data_prefix() -> Seq<char> {
    seq!['d', 'a', 't', 'a', ':']
}

pub open spec fn done_marker() -> Seq<char> {
    seq!['[', 'D', 'O', 'N', 'E', ']']
}

/// The `data:` payloads of the lines of `s` from `start` on, up to a
/// `[DONE]` payload: each line is trimmed, lines that do not start with
/// `data:` are skipped, and a payload is what follows `data:` with its
/// leading whitespace removed.
pub open spec fn payloads_from(s: Seq<char>, start: int) -> Seq<Seq<char>>
    decreases s.len() - start,
{
    if start < 0 || start > s.len() {
        Seq::empty()
    } else {
        let e = line_end(s, start);
        let t = trim(s.subrange(start, if e < start { start } else { e }));
        let rest = if start <= e < s.len() { payloads_from(s, e + 1) } else { Seq::empty() };
        if t.len() >= 5 && t.take(5) == data_prefix() {
            if trim_start(t.skip(5)) == done_marker() {
                Seq::empty()
            } else {
                seq![trim_start(t.skip(5))] + rest
            }
        } else {
            rest
        }
    }
}

/// The JSON payloads of one event, in order, stopping at `[DONE]`.
pub open spec fn event_payloads(event: Seq<u8>) -> Seq<Seq<char>> {
    payloads_from(lossy_utf8(event), 0)
}

fn is_data_line(t: &[char], a: usize, b: usize) -> (r: bool)
    requires
        a <= b <= t@.len(),
    ensures
        r == (t@.subrange(a as int, b as int).len() >= 5
            && t@.subrange(a as int, b as int).take(5) == data_prefix()),
{
    if b - a < 5 {
        return false;
    }
    let r = t[a] == 'd' && t[a + 1] == 'a' && t[a + 2] == 't' && t[a + 3] == 'a' && t[a + 4] == ':';
    assert(r == (t@.subrange(a as int, b as int).take(5) =~= data_prefix()));
    r
}

fn is_done(t: &[char], a: usize, b: usize) -> (r: bool)
    requires
        a <= b <= t@.len(),
    ensures
        r == (t@.subrange(a as int, b as int) == done_marker()),
{
    if b - a != 6 {
        assert(t@.subrange(a as int, b as int).len() != done_marker().len());
        return false;
    }
    let r = t[a] == '[' && t[a + 1] == 'D' && t[a + 2] == 'O' && t[a + 3] == 'N' && t[a + 4] == 'E'
        && t[a + 5] == ']';
    assert(r == (t@.subrange(a as int, b as int) =~= done_marker()));
    r
}

/// The `data:` payloads of an event's text, in order, up to `[DONE]`.
pub fn data_payloads(text: &str) -> (res: Vec<String>)
    ensures
        res@.map_values(|p: String| p@) == payloads_from(text@, 0),
{
    let s = chars_of(text);
    let n = s.len();
    let mut out: Vec<String> = Vec::new();
    let mut start: usize = 0;
    loop
        invariant
            n == s@.len(),
            start <= n,
            s@ == text@,
            out@.map_values(|p: String| p@) + payloads_from(s@, start as int) == payloads_from(s@, 0),
        decreases n - start,
    {
        let mut e = start;
        while e < n && s[e] != '\n'
            invariant
                n == s@.len(),
                start <= e <= n,
                line_end(s@, start as int) == line_end(s@, e as int),
            decreases n - e,
        {
            e = e + 1;
        }
        proof {
            lemma_line_end(s@, start as int);
        }
        let (a, b) = trim_bounds(s.as_slice(), start, e);
        let ghost t = trim(s@.subrange(start as int, e as int));
        let ghost rest = if e < n { payloads_from(s@, e + 1) } else { Seq::<Seq<char>>::empty() };
        assert(payloads_from(s@, start as int) == (if t.len() >= 5 && t.take(5) == data_prefix() {
            if trim_start(t.skip(5)) == done_marker() { Seq::<Seq<char>>::empty() } else { seq![trim_start(t.skip(5))] + rest }
        } else { rest }));
        if is_data_line(s.as_slice(), a, b) {
            let c = skip_ws_within(s.as_slice(), a + 5, b);
            assert(t.skip(5) =~= s@.subrange(a + 5, b as int));
            if is_done(s.as_slice(), c, b) {
                assert(out@.map_values(|p: String| p@) =~= payloads_from(s@, 0));
                return out;
            }
            let d = copy_range(s.as_slice(), c, b);
            let ghost prev = out@;
            out.push(string_of(d.as_slice()));
            assert(out@.map_values(|p: String| p@) =~= prev.map_values(|p: String| p@).push(d@));
            assert(seq![d@] + rest =~= seq![trim_start(t.skip(5))] + rest);
        }
        if e >= n {
            assert(out@.map_values(|p: String| p@) =~= payloads_from(s@, 0));
            return out;
        }
        start = e + 1;
    }
}


/// Splits an event into its `data:` payloads, in order, up to `[DONE]`.
pub fn event_data_payloads(event: &[u8]) -> (res: Vec<String>)
    ensures
        res@.map_values(|p: String| p@) == event_payloads(event@),
{
    let text = utf8_lossy(event);
    data_payloads(text.as_str())
}

// ------------------------------------------------------- streamed answer

/// What one parsed stream chunk carries.
#[derive(Debug)]
pub struct ChunkInfo {
    /// Token usage, usually sent in the last chunk.
    pub usage: Option<UsageInfo>,
    /// The first choice's delta, if the chunk has any choice.
    pub first_choice: Option<DeltaInfo>,
}

/// The first choice of a chunk.
#[derive(Debug)]
pub struct DeltaInfo {
    pub content: Option<String>,
    pub reasoning: Option<String>,
    /// The choice carries a `finish_reason`.
    pub finished: bool,
}

/// What the consumer of a stream does after handing a chunk to
/// [`StreamState::on_chunk`].
#[derive(Debug)]
pub enum ChunkStep {
    /// Ignore the remaining lines of the current event.
    StopEvent,
    /// Nothing to report; go on with the next line.
    Skip,
    /// A token arrived, `gap` after the previous one (zero for the first).
    Token { text: String, gap: Duration },
}

/// Accounting of a streamed answer as its chunks arrive.
pub struct StreamState {
    pub content: String,
    pub token_count: usize,
    pub first_token_at: Option<Duration>,
    pub last_token_at: Option<Duration>,
    pub token_timings: Vec<Duration>,
    pub server_prompt_tokens: usize,
    pub server_output_tokens: usize,
    pub server_cached_tokens: usize,
    pub usage_seen: bool,
    /// A choice finished; only usage is taken from later chunks.
    pub done: bool,
}

impl StreamState {
    /// Token bookkeeping agrees: first and last arrival exist exactly when a
    /// token arrived, the gaps are one fewer than the tokens, arrivals are
    /// ordered, and the gaps add up to the time from the first token to the
    /// last.
    pub open spec fn wf(&self) -> bool {
        &&& (self.token_count == 0) == (self.first_token_at is None)
        &&& (self.token_count == 0) == (self.last_token_at is None)
        &&& self.token_count == 0 ==> self.token_timings@.len() == 0
        &&& self.token_count > 0 ==> {
            &&& self.token_timings@.len() + 1 == self.token_count
            &&& self.first_token_at.unwrap()@ <= self.last_token_at.unwrap()@
            &&& dur_total(self.token_timings@)
                == self.last_token_at.unwrap()@ - self.first_token_at.unwrap()@
            &&& self.last_token_at.unwrap().in_range()
        }
    }

    /// Token bookkeeping of `self` and `other` agree.
    pub open spec fn same_tokens(&self, other: &StreamState) -> bool {
        &&& self.content@ == other.content@
        &&& self.token_count == other.token_count
        &&& self.first_token_at == other.first_token_at
        &&& self.last_token_at == other.last_token_at
        &&& self.token_timings@ == other.token_timings@
    }

    pub fn new() -> (s: StreamState)
        ensures
            s.wf(),
            s.content@ == Seq::<char>::empty(),
            s.token_count == 0,
            s.server_prompt_tokens == 0,
            s.server_output_tokens == 0,
            s.server_cached_tokens == 0,
            !s.usage_seen,
            !s.done,
    {
        StreamState {
            content: String::new(),
            token_count: 0,
            first_token_at: None,
            last_token_at: None,
            token_timings: Vec::new(),
            server_prompt_tokens: 0,
            server_output_tokens: 0,
            server_cached_tokens: 0,
            usage_seen: false,
            done: false,
        }
    }

    /// Takes in one chunk that arrived `now` after the request started.
    ///
    /// Usage, when present, is recorded first. Once a choice has finished
    /// or usage has been seen, the event's remaining lines are skipped. A
    /// chunk without choices, or whose delta text is empty, counts no
    /// token; an empty delta with a finish reason marks the answer done.
    /// Otherwise the delta is a token: it is appended to the content, and
    /// its gap to the previous token recorded.
    pub fn on_chunk(&mut self, chunk: &ChunkInfo, now: Duration) -> (step: ChunkStep)
        requires
            old(self).wf(),
            old(self).token_count < usize::MAX,
            now.in_range(),
            old(self).last_token_at matches Some(l) ==> l@ <= now@,
        ensures
            final(self).wf(),
            match chunk.usage {
                Some(u) => {
                    &&& final(self).server_prompt_tokens == u.prompt_tokens
                    &&& final(self).server_output_tokens == u.completion_tokens
                    &&& final(self).server_cached_tokens == (match u.cached_tokens { Some(c) => c, None => 0 })
                    &&& final(self).usage_seen
                },
                None => {
                    &&& final(self).server_prompt_tokens == old(self).server_prompt_tokens
                    &&& final(self).server_output_tokens == old(self).server_output_tokens
                    &&& final(self).server_cached_tokens == old(self).server_cached_tokens
                    &&& final(self).usage_seen == old(self).usage_seen
                },
            },
            (old(self).done || final(self).usage_seen) ==> {
                &&& step is StopEvent
                &&& final(self).same_tokens(&*old(self))
                &&& final(self).done == old(self).done
            },
            !(old(self).done || final(self).usage_seen) ==> match chunk.first_choice {
                None => step is Skip && final(self).same_tokens(&*old(self)) && final(self).done == old(self).done,
                Some(c) => {
                    let delta = choice_text(opt_text(c.content), opt_text(c.reasoning));
                    if delta.len() == 0 {
                        &&& step is Skip
                        &&& final(self).same_tokens(&*old(self))
                        &&& final(self).done == c.finished
                    } else {
                        &&& step matches ChunkStep::Token { text, gap } && text@ == delta
                            && gap@ == (if old(self).token_count > 0 {
                                now@ - old(self).last_token_at.unwrap()@
                            } else {
                                0
                            })
                        &&& final(self).content@ == old(self).content@ + delta
                        &&& final(self).token_count == old(self).token_count + 1
                        &&& final(self).first_token_at == (if old(self).token_count == 0 {
                            Some(now)
                        } else {
                            old(self).first_token_at
                        })
                        &&& final(self).last_token_at == Some(now)
                        &&& final(self).token_timings@ == (if old(self).token_count > 0 {
                            old(self).token_timings@.push(
                                Duration { nanos: (now@ - old(self).last_token_at.unwrap()@) as u128 })
                        } else {
                            old(self).token_timings@
                        })
                        &&& final(self).done == old(self).done
                    }
                },
            },
    {
        if let Some(u) = &chunk.usage {
            self.server_output_tokens = u.completion_tokens;
            self.server_prompt_tokens = u.prompt_tokens;
            self.server_cached_tokens = match u.cached_tokens {
                Some(c) => c,
                None => 0,
            };
            self.usage_seen = true;
        }
        if self.done || self.usage_seen {
            return ChunkStep::StopEvent;
        }
        let c = match &chunk.first_choice {
            None => {
                return ChunkStep::Skip;
            },
            Some(c) => c,
        };
        let delta: String = match text_of(&c.content) {
            Some(t) => t,
            None => match text_of(&c.reasoning) {
                Some(r) => r,
                None => String::new(),
            },
        };
        if delta.as_str().is_empty() {
            if c.finished {
                self.done = true;
            }
            return ChunkStep::Skip;
        }
        let ghost before = self.token_timings@;
        if self.token_count == 0 {
            self.first_token_at = Some(now);
        } else {
            match self.last_token_at {
                Some(last) => {
                    let gap = now.sub(&last);
                    self.token_timings.push(gap);
                    proof {
                        assert(self.token_timings@.drop_last() == before);
                    }
                },
                None => {},
            }
        }
        self.content.append(delta.as_str());
        let gap = if self.token_count > 0 {
            match self.last_token_at {
                Some(last) => now.sub(&last),
                None => Duration::zero(),
            }
        } else {
            Duration::zero()
        };
        self.token_count = self.token_count + 1;
        self.last_token_at = Some(now);
        ChunkStep::Token { text: delta, gap }
    }

    /// The response once the stream has ended, `total_dur` after the
    /// request started.
    ///
    /// TTFT is the first token's arrival (the whole duration if none came);
    /// decoding is the rest. TPOT spreads decoding over the server-counted
    /// output tokens after the first. The output count is the server's when
    /// it reported one, else the number of tokens seen.
    pub fn finish(self, total_dur: Duration) -> (res: Response)
        requires
            self.wf(),
            self.first_token_at matches Some(f) ==> f@ <= total_dur@,
            self.server_output_tokens <= 1 || (self.server_output_tokens - 1) % 4294967296 != 0,
        ensures
            res.content@ == self.content@,
            res.timing.ttft == (match self.first_token_at { Some(f) => f, None => total_dur }),
            res.timing.prefill_dur == res.timing.ttft,
            res.timing.total_dur == total_dur,
            res.timing.decode_dur@ == total_dur@ - res.timing.ttft@,
            res.timing.tpot == (if self.server_output_tokens > 1 {
                div_narrowed(res.timing.decode_dur, self.server_output_tokens - 1)
            } else {
                Duration { nanos: 0 }
            }),
            res.timing.output_tokens == (if self.server_output_tokens > 0 {
                self.server_output_tokens
            } else {
                self.token_count
            }),
            res.timing.prompt_tokens == self.server_prompt_tokens,
            res.timing.cached_tokens == self.server_cached_tokens,
            res.timing.token_timings@ == self.token_timings@,
    {
        let ttft = match self.first_token_at {
            Some(f) => f,
            None => total_dur,
        };
        let decode_dur = total_dur.sub(&ttft);
        let tpot = if self.server_output_tokens > 1 {
            let narrowed = (((self.server_output_tokens - 1) as u64) % 4294967296u64) as u32;
            decode_dur.div_u32(narrowed)
        } else {
            Duration::zero()
        };
        let output_tokens = if self.server_output_tokens > 0 {
            self.server_output_tokens
        } else {
            self.token_count
        };
        Response {
            content: self.content,
            timing: Timing {
                ttft,
                prefill_dur: ttft,
                decode_dur,
                total_dur,
                prompt_tokens: self.server_prompt_tokens,
                output_tokens,
                cached_tokens: self.server_cached_tokens,
                tpot,
                token_timings: self.token_timings,
            },
        }
    }
}

/// The gaps between consecutive tokens of a stream add up to the time
/// between its first and its last token, and there is one gap fewer than
/// tokens.
pub proof fn law_token_gaps_span(s: &StreamState)
    requires
        s.wf(),
        s.token_count > 0,
    ensures
        dur_total(s.token_timings@) == s.last_token_at.unwrap()@ - s.first_token_at.unwrap()@,
        s.token_timings@.len() == s.token_count - 1,
{
}

} // verus!

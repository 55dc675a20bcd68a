//! Requests, responses and per-request timings, and the registry that maps
//! backend names to how a backend is built.
pub mod openai;
pub mod vllm;
pub mod sglang;

use vstd::prelude::*;
use crate::duration::Duration;
use crate::error::AppError;
use crate::metrics::{Sample, copy_durations};
use crate::text::{chars_of, string_of};

verus! {

/// Timings and token counts of one request.
#[derive(Debug)]
pub struct Timing {
    pub ttft: Duration,
    pub prefill_dur: Duration,
    pub decode_dur: Duration,
    pub total_dur: Duration,
    pub prompt_tokens: usize,
    pub output_tokens: usize,
    pub cached_tokens: usize,
    pub tpot: Duration,
    pub token_timings: Vec<Duration>,
}

impl Timing {
    /// The sample recording these timings, field for field.
    pub fn to_sample(&self) -> (s: Sample)
        ensures
            s.ttft == self.ttft,
            s.prefill_dur == self.prefill_dur,
            s.decode_dur == self.decode_dur,
            s.total_dur == self.total_dur,
            s.prompt_tokens == self.prompt_tokens,
            s.output_tokens == self.output_tokens,
            s.cached_tokens == self.cached_tokens,
            s.tpot == self.tpot,
            s.token_timings@ == self.token_timings@,
    {
        Sample {
            ttft: self.ttft,
            prefill_dur: self.prefill_dur,
            decode_dur: self.decode_dur,
            total_dur: self.total_dur,
            prompt_tokens: self.prompt_tokens,
            output_tokens: self.output_tokens,
            cached_tokens: self.cached_tokens,
            tpot: self.tpot,
            token_timings: copy_durations(&self.token_timings),
        }
    }
}

/// One chat message.
#[derive(Debug)]
pub struct Message {
    pub role: String,
    pub content: String,
}

/// Mathematical value of a [`Message`].
pub ghost struct MessageView {
    pub role: Seq<char>,
    pub content: Seq<char>,
}

impl View for Message {
    type V = MessageView;

    open spec fn view(&self) -> MessageView {
        MessageView { role: self.role@, content: self.content@ }
    }
}

pub open spec fn message_views(s: Seq<Message>) -> Seq<MessageView> {
    s.map_values(|m: Message| m@)
}

impl Message {
    pub fn new(role: &str, content: &str) -> (m: Message)
        ensures
            m.role@ == role@,
            m.content@ == content@,
    {
        Message { role: role.to_owned(), content: content.to_owned() }
    }

    pub fn duplicate(&self) -> (m: Message)
        ensures
            m@ == self@,
    {
        Message { role: self.role.clone(), content: self.content.clone() }
    }
}

/// A chat-completion request. It is sent with sampling temperature zero.
#[derive(Debug)]
pub struct Request {
    pub model: String,
    pub messages: Vec<Message>,
    pub max_tokens: usize,
    /// Prefix the first message with a fresh UUID so that no prompt cache
    /// can serve it.
    pub no_cache: bool,
}

/// A backend's answer: the generated text and its timings.
#[derive(Debug)]
pub struct Response {
    pub content: String,
    pub timing: Timing,
}

// ------------------------------------------------------------------ registry

/// How a registered backend is built: an OpenAI-compatible HTTP client
/// carrying the given name.
#[derive(Debug, PartialEq, Eq)]
pub struct BackendCtor {
    pub name: String,
}

/// What [`new_backend`] hands back: everything needed to build the client.
#[derive(Debug, PartialEq, Eq)]
pub struct BackendSpec {
    /// Name given at construction (`"vllm"`, `"sglang"`, ...).
    pub name: String,
    /// Base URL without trailing slashes.
    pub base_url: String,
    /// Proxy to send requests through, when one was asked for.
    pub proxy: Option<String>,
}

/// Backend constructors, by name.
pub struct Registry {
    entries: Vec<(String, BackendCtor)>,
}

/// The names of registered entries and their constructors' names.
pub open spec fn entries_map(e: Seq<(String, BackendCtor)>) -> Map<Seq<char>, Seq<char>>
    decreases e.len(),
{
    if e.len() == 0 {
        Map::empty()
    } else {
        entries_map(e.drop_last()).insert(e.last().0@, e.last().1.name@)
    }
}

/// Names occur at most once among the entries.
pub open spec fn entries_distinct(e: Seq<(String, BackendCtor)>) -> bool {
    forall|i: int, j: int| 0 <= i < j < e.len() ==> (#[trigger] e[i]).0@ != (#[trigger] e[j]).0@
}

proof fn lemma_entries_map_index(e: Seq<(String, BackendCtor)>, i: int)
    requires
        entries_distinct(e),
        0 <= i < e.len(),
    ensures
        entries_map(e).dom().contains(e[i].0@),
        entries_map(e)[e[i].0@] == e[i].1.name@,
    decreases e.len(),
{
    if i < e.len() - 1 {
        let t = e.drop_last();
        assert(t[i] == e[i]);
        lemma_entries_map_index(t, i);
        assert(e[i].0@ != e.last().0@);
    }
}

proof fn lemma_entries_map_absent(e: Seq<(String, BackendCtor)>, k: Seq<char>)
    requires
        forall|i: int| 0 <= i < e.len() ==> (#[trigger] e[i]).0@ != k,
    ensures
        !entries_map(e).dom().contains(k),
    decreases e.len(),
{
    if e.len() > 0 {
        let t = e.drop_last();
        assert forall|i: int| 0 <= i < t.len() implies (#[trigger] t[i]).0@ != k by {
            assert(t[i] == e[i]);
        }
        lemma_entries_map_absent(t, k);
        assert(e.last() == e[e.len() - 1]);
    }
}

proof fn lemma_entries_map_update(e: Seq<(String, BackendCtor)>, i: int, v: (String, BackendCtor))
    requires
        entries_distinct(e),
        0 <= i < e.len(),
        v.0@ == e[i].0@,
    ensures
        entries_map(e.update(i, v)) == entries_map(e).insert(v.0@, v.1.name@),
        entries_distinct(e.update(i, v)),
    decreases e.len(),
{
    let u = e.update(i, v);
    assert forall|a: int, b: int| 0 <= a < b < u.len() implies (#[trigger] u[a]).0@ != (#[trigger] u[b]).0@ by {
        assert(e[a].0@ != e[b].0@);
    }
    if i == e.len() - 1 {
        assert(u.drop_last() =~= e.drop_last());
        assert(entries_map(u) =~= entries_map(e).insert(v.0@, v.1.name@));
    } else {
        let t = e.drop_last();
        assert(u.drop_last() =~= t.update(i, v));
        assert(t[i] == e[i]);
        lemma_entries_map_update(t, i, v);
        assert(e.last().0@ != v.0@) by {
            assert(e[i].0@ != e[e.len() - 1].0@);
        }
        assert(entries_map(u) =~= entries_map(e).insert(v.0@, v.1.name@));
    }
}

impl View for Registry {
    type V = Map<Seq<char>, Seq<char>>;

    closed spec fn view(&self) -> Map<Seq<char>, Seq<char>> {
        entries_map(self.entries@)
    }
}

impl Registry {
    /// Entry names are distinct.
    pub closed spec fn wf(&self) -> bool {
        entries_distinct(self.entries@)
    }

    pub fn new() -> (r: Registry)
        ensures
            r.wf(),
            r@ == Map::<Seq<char>, Seq<char>>::empty(),
    {
        Registry { entries: Vec::new() }
    }

    /// Registers `ctor` under `name`, replacing any constructor registered
    /// under that name before.
    pub fn register(&mut self, name: &str, ctor: BackendCtor)
        requires
            old(self).wf(),
        ensures
            final(self).wf(),
            final(self)@ == old(self)@.insert(name@, ctor.name@),
    {
        let key = name.to_owned();
        let mut i: usize = 0;
        while i < self.entries.len()
            invariant
                i <= self.entries@.len(),
                self.entries@ == old(self).entries@,
                entries_distinct(self.entries@),
                key@ == name@,
                forall|k: int| 0 <= k < i ==> (#[trigger] self.entries@[k]).0@ != name@,
            decreases self.entries@.len() - i,
        {
            if self.entries[i].0 == key {
                let ghost e = self.entries@;
                let entry = (key, ctor);
                self.entries.set(i, entry);
                proof {
                    lemma_entries_map_update(e, i as int, entry);
                }
                return;
            }
            i = i + 1;
        }
        let ghost e = self.entries@;
        self.entries.push((key, ctor));
        proof {
            lemma_entries_map_absent(e, name@);
            assert(self.entries@.drop_last() =~= e);
            assert forall|a: int, b: int| 0 <= a < b < self.entries@.len()
                implies (#[trigger] self.entries@[a]).0@ != (#[trigger] self.entries@[b]).0@ by {
                if b < e.len() {
                    assert(e[a].0@ != e[b].0@);
                } else {
                    assert(self.entries@[a] == e[a]);
                }
            }
        }
    }

    /// The constructor registered under `name`, if any.
    pub fn lookup(&self, name: &str) -> (res: Option<&BackendCtor>)
        requires
            self.wf(),
        ensures
            res is Some <==> self@.dom().contains(name@),
            res matches Some(c) ==> c.name@ == self@[name@],
    {
        let key = name.to_owned();
        let mut i: usize = 0;
        while i < self.entries.len()
            invariant
                i <= self.entries@.len(),
                entries_distinct(self.entries@),
                key@ == name@,
                forall|k: int| 0 <= k < i ==> (#[trigger] self.entries@[k]).0@ != name@,
            decreases self.entries@.len() - i,
        {
            if self.entries[i].0 == key {
                proof {
                    lemma_entries_map_index(self.entries@, i as int);
                }
                return Some(&self.entries[i].1);
            }
            i = i + 1;
        }
        proof {
            lemma_entries_map_absent(self.entries@, name@);
        }
        None
    }
}

/// `s` with every trailing `/` removed (`str::trim_end_matches('/')`).
pub open spec fn trim_trailing_slashes(s: Seq<char>) -> Seq<char>
    decreases s.len(),
{
    if s.len() > 0 && s.last() == '/' {
        trim_trailing_slashes(s.drop_last())
    } else {
        s
    }
}

/// `s` without its trailing slashes.
pub fn strip_trailing_slashes(s: &str) -> (res: String)
    ensures
        res@ == trim_trailing_slashes(s@),
{
    let cs = chars_of(s);
    let mut j = cs.len();
    assert(cs@.take(j as int) =~= cs@);
    while j > 0 && cs[j - 1] == '/'
        invariant
            j <= cs@.len(),
            trim_trailing_slashes(cs@) == trim_trailing_slashes(cs@.take(j as int)),
        decreases j,
    {
        assert(cs@.take(j as int).drop_last() =~= cs@.take(j - 1));
        j = j - 1;
    }
    assert(cs@.take(j as int) =~= cs@.subrange(0, j as int));
    let out = crate::text::copy_range(cs.as_slice(), 0, j);
    string_of(out.as_slice())
}

/// What [`new_backend`] returns for a registered constructor.
pub open spec fn backend_spec_of(ctor_name: Seq<char>, base_url: Seq<char>, http_proxy: Seq<char>) -> (Seq<char>, Seq<char>, Option<Seq<char>>) {
    (ctor_name, trim_trailing_slashes(base_url), if http_proxy.len() == 0 { None } else { Some(http_proxy) })
}

/// Builds the description of the backend registered under `name`, aimed at
/// `base_url` and, when `http_proxy` is not empty, sent through that proxy.
pub fn new_backend(reg: &Registry, name: &str, base_url: &str, http_proxy: &str) -> (res: Result<BackendSpec, AppError>)
    requires
        reg.wf(),
    ensures
        res is Ok <==> reg@.dom().contains(name@),
        res matches Ok(b) ==> (b.name@, b.base_url@, match b.proxy { Some(p) => Some(p@), None => None })
            == backend_spec_of(reg@[name@], base_url@, http_proxy@),
        res matches Err(e) ==> e matches AppError::UnknownBackend(n) && n@ == name@,
{
    match reg.lookup(name) {
        None => Err(AppError::UnknownBackend(name.to_owned())),
        Some(ctor) => {
            let url = strip_trailing_slashes(base_url);
            let proxy = if http_proxy.is_empty() { None } else { Some(http_proxy.to_owned()) };
            Ok(BackendSpec { name: ctor.name.clone(), base_url: url, proxy })
        },
    }
}

/// Registers the built-in backends, vLLM and SGLang.
pub fn init_backends(reg: &mut Registry)
    requires
        old(reg).wf(),
    ensures
        final(reg).wf(),
        final(reg)@ == old(reg)@.insert("vllm"@, "vllm"@).insert("sglang"@, "sglang"@),
{
    vllm::register_vllm(reg);
    sglang::register_sglang(reg);
}

} // verus!

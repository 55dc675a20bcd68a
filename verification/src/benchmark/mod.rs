//! Prompt pools drawn from a text corpus, and request construction.
pub mod runner;

use vstd::prelude::*;
use crate::backend::{Message, Request, MessageView, message_views};
use crate::rng::{seeded_rng, random_below};
use vstd::string::StringSliceAdditionalSpecFns;
use crate::text::{chars_of, string_of, copy_range, extend_chars, push_zero_padded, zero_padded};

verus! {

/// Characters of prompt text per token, for sizing prompts.
pub const CHARS_PER_TOKEN: usize = 4;

/// Public-domain Shakespeare, the source of prompt text.
pub const SHAKESPEARE: &'static str = "Shall I compare thee to a summer's day? Thou art more lovely and more temperate: Rough winds do shake the darling buds of May, And summer's lease hath all too short a date; Sometime too hot the eye of heaven shines, And often is his gold complexion dimm'd; And every fair from fair sometime declines, By chance or nature's changing course untrimm'd; But thy eternal summer shall not fade, Nor lose possession of that fair thou ow'st; Nor shall Death brag thou wander'st in his shade, When in eternal lines to time thou grow'st: So long as men can breathe or eyes can see, So long lives this, and this gives life to thee. When, in disgrace with fortune and men's eyes, I all alone beweep my outcast state, And trouble deaf heaven with my bootless cries, And look upon myself and curse my fate, Wishing me like to one more rich in hope, Featured like him, like him with friends possess'd, Desiring this man's art and that man's scope, With what I most enjoy contented least; Yet in these thoughts myself almost despising, Haply I think on thee, and then my state, Like to the lark at break of day arising From sullen earth, sings hymns at heaven's gate; For thy sweet love remember'd such wealth brings That then I scorn to change my state with kings. Let me not to the marriage of true minds Admit impediments. Love is not love Which alters when it alteration finds, Or bends with the remover to remove: O no; it is an ever-fixed mark, That looks on tempests and is never shaken; It is the star to every wandering bark, Whose worth's unknown, although his height be taken. Love's not Time's fool, though rosy lips and cheeks Within his bending sickle's compass come; Love alters not with his brief hours and weeks, But bears it out even to the edge of doom. If this be error and upon me proved, I never writ, nor no man ever loved. My mistress' eyes are nothing like the sun; Coral is far more red than her lips' red; If snow be white, why then her breasts are dun; If hairs be wires, black wires grow on her head. I have seen roses damask'd, red and white, But no such roses see I in her cheeks; And in some perfumes is there more delight Than in the breath that from my mistress reeks. I love to hear her speak, yet well I know That music hath a far more pleasing sound; I grant I never saw a goddess go; My mistress, when she walks, treads on the ground: And yet, by heaven, I think my love as rare As any she belied with false compare. That time of year thou mayst in me behold When yellow leaves, or none, or few, do hang Upon those boughs which shake against the cold, Bare ruin'd choirs, where late the sweet birds sang. In me thou see'st the twilight of such day As after sunset fadeth in the west, Which by and by black night doth take away, Death's second self, that seals up all in rest. To be, or not to be, that is the question: Whether 'tis nobler in the mind to suffer The slings and arrows of outrageous fortune, Or to take arms against a sea of troubles And by opposing end them. To die, to sleep; No more; and by a sleep to say we end The heart-ache and the thousand natural shocks That flesh is heir to: 'tis a consummation Devoutly to be wish'd. To die, to sleep; To sleep, perchance to dream: ay, there's the rub; For in that sleep of death what dreams may come When we have shuffled off this mortal coil, Must give us pause: there's the respect That makes calamity of so long life. All the world's a stage, And all the men and women merely players; They have their exits and their entrances; And one man in his time plays many parts, His acts being seven ages. At first the infant, Mewling and puking in the nurse's arms; And then the whining school-boy, with his satchel And shining morning face, creeping like snail Unwillingly to school. And then the lover, Sighing like furnace, with a woeful ballad Made to his mistress' eyebrow. Then a soldier, Full of strange oaths, and bearded like the pard, Jealous in honour, sudden and quick in quarrel, Seeking the bubble reputation Even in the cannon's mouth. Tomorrow, and tomorrow, and tomorrow, Creeps in this petty pace from day to day, To the last syllable of recorded time; And all our yesterdays have lighted fools The way to dusty death. Out, out, brief candle! Life's but a walking shadow, a poor player, That struts and frets his hour upon the stage, And then is heard no more. It is a tale Told by an idiot, full of sound and fury, Signifying nothing. Friends, Romans, countrymen, lend me your ears; I come to bury Caesar, not to praise him. The evil that men do lives after them; The good is oft interred with their bones; So let it be with Caesar. The noble Brutus Hath told you Caesar was ambitious: If it were so, it was a grievous fault, And grievously hath Caesar answer'd it. The quality of mercy is not strain'd, It droppeth as the gentle rain from heaven Upon the place beneath: it is twice blest; It blesseth him that gives and him that takes: 'Tis mightiest in the mightiest: it becomes The throned monarch better than his crown. Now is the winter of our discontent Made glorious summer by this sun of York; And all the clouds that lour'd upon our house In the deep bosom of the ocean buried. Now are our brows bound with victorious wreaths; Our bruised arms hung up for monuments; Our stern alarums changed to merry meetings, Our dreadful marches to delightful measures.";

/// The corpus as characters.
pub fn corpus() -> (res: Vec<char>)
    ensures
        res@ == SHAKESPEARE@,
{
    chars_of(SHAKESPEARE)
}

/// Tokens per pool prompt: the requested count when lengths do not vary,
/// else twice it (and at least 100 more), never more than the corpus holds.
pub open spec fn pool_prompt_tokens(prompt_tokens: int, stddev: int, corpus_len: int) -> int {
    let cap = corpus_len / 4;
    let want = if stddev == 0 {
        prompt_tokens
    } else if prompt_tokens * 2 >= prompt_tokens + 100 {
        prompt_tokens * 2
    } else {
        prompt_tokens + 100
    };
    if want <= cap { want } else { cap }
}

/// Characters in each pool prompt: four per token of
/// [`pool_prompt_tokens`], the spread taken modulo 100.
pub open spec fn pool_slice_len(prompt_tokens: int, prompt_stddev: int) -> int {
    4 * pool_prompt_tokens(prompt_tokens, prompt_stddev % 100, SHAKESPEARE@.len() as int)
}

/// Offsets a slice of `len` characters may be cut from are drawn below
/// this bound: the room the corpus leaves after such a slice, or 1 when it
/// leaves none.
pub open spec fn offset_bound(len: int) -> int {
    let room = SHAKESPEARE@.len() - len;
    if room > 1 { room } else { 1 }
}

/// The bound offsets of user prompts are drawn below.
fn start_bound(prompt_tokens: usize, prompt_stddev: usize) -> (b: usize)
    requires
        prompt_stddev % 100 != 0 ==> prompt_tokens * 2 <= usize::MAX && prompt_tokens + 100 <= usize::MAX,
    ensures
        b == offset_bound(pool_slice_len(prompt_tokens as int, prompt_stddev as int)),
        b > 0,
{
    let n = corpus().len();
    let effective_stddev = prompt_stddev % 100;
    let cap = n / CHARS_PER_TOKEN;
    let want = if effective_stddev == 0 {
        prompt_tokens
    } else if prompt_tokens * 2 >= prompt_tokens + 100 {
        prompt_tokens * 2
    } else {
        prompt_tokens + 100
    };
    let max_tokens = if want <= cap { want } else { cap };
    let room = n - max_tokens * CHARS_PER_TOKEN;
    if room > 1 { room } else { 1 }
}

/// A pool of user prompts, served in turn.
pub struct PromptGenerator {
    prompts: Vec<String>,
    idx: usize,
    prompt_tokens: usize,
    prompt_stddev: usize,
}

impl PromptGenerator {
    /// The prompts of the pool.
    pub closed spec fn pool(&self) -> Seq<Seq<char>> {
        self.prompts@.map_values(|p: String| p@)
    }

    /// How many prompts [`Self::next`] has served.
    pub closed spec fn served(&self) -> nat {
        self.idx as nat
    }

    /// Target tokens per request.
    pub closed spec fn target_tokens(&self) -> nat {
        self.prompt_tokens as nat
    }

    /// Spread of prompt lengths, in percent of the target.
    pub closed spec fn stddev(&self) -> nat {
        self.prompt_stddev as nat
    }

    /// Builds the pool from the corpus offsets its prompts start at: prompt
    /// `i` is the `pool_slice_len` characters of the corpus from
    /// `offsets[i]`. The spread is taken modulo 100. Each offset lies below
    /// [`offset_bound`], as a draw from the generator does.
    pub fn from_offsets(prompt_tokens: usize, prompt_stddev: usize, offsets: &[usize]) -> (g: PromptGenerator)
        requires
            prompt_stddev % 100 != 0 ==> prompt_tokens * 2 <= usize::MAX && prompt_tokens + 100 <= usize::MAX,
            forall|i: int| 0 <= i < offsets@.len() ==>
                #[trigger] offsets@[i] < offset_bound(pool_slice_len(prompt_tokens as int, prompt_stddev as int)),
        ensures
            g.pool().len() == offsets@.len(),
            forall|i: int| 0 <= i < offsets@.len() ==> #[trigger] g.pool()[i] == SHAKESPEARE@.subrange(
                offsets@[i] as int, offsets@[i] + pool_slice_len(prompt_tokens as int, prompt_stddev as int)),
            g.served() == 0,
            g.target_tokens() == prompt_tokens,
            g.stddev() == prompt_stddev % 100,
    {
        let corpus = corpus();
        let effective_stddev = prompt_stddev % 100;
        let cap = corpus.len() / CHARS_PER_TOKEN;
        let want = if effective_stddev == 0 {
            prompt_tokens
        } else if prompt_tokens * 2 >= prompt_tokens + 100 {
            prompt_tokens * 2
        } else {
            prompt_tokens + 100
        };
        let max_tokens = if want <= cap { want } else { cap };
        let char_count = max_tokens * CHARS_PER_TOKEN;
        let ghost len = pool_slice_len(prompt_tokens as int, prompt_stddev as int);
        assert(char_count == len);
        let mut prompts: Vec<String> = Vec::new();
        let mut i: usize = 0;
        while i < offsets.len()
            invariant
                corpus@ == SHAKESPEARE@,
                char_count == len,
                char_count <= corpus@.len(),
                i <= offsets@.len(),
                prompts@.len() == i,
                forall|k: int| 0 <= k < offsets@.len() ==> #[trigger] offsets@[k] < offset_bound(len),
                forall|k: int| 0 <= k < i ==> #[trigger] prompts@[k]@ == SHAKESPEARE@.subrange(
                    offsets@[k] as int, offsets@[k] + len),
            decreases offsets@.len() - i,
        {
            let start = offsets[i];
            assert(start < offset_bound(len));
            let clen = corpus.len();
            assert(start + char_count <= clen);
            let slice = copy_range(corpus.as_slice(), start, start + char_count);
            let p = string_of(slice.as_slice());
            prompts.push(p);
            i = i + 1;
        }
        let g = PromptGenerator { prompts, idx: 0, prompt_tokens, prompt_stddev: effective_stddev };
        assert forall|k: int| 0 <= k < offsets@.len() implies #[trigger] g.pool()[k] == SHAKESPEARE@.subrange(
            offsets@[k] as int, offsets@[k] + len) by {
            assert(g.pool()[k] == g.prompts@[k]@);
        }
        g
    }

    /// Builds a pool of `num_prefix_prompts` prompts, each cut from the
    /// corpus at an offset drawn from a generator seeded by `seed`, below
    /// [`offset_bound`]; see [`Self::from_offsets`]. Prompts hold
    /// `pool_prompt_tokens` tokens' worth of characters, so that, when
    /// lengths vary, every length up to the spread can be cut from them.
    pub fn new(prompt_tokens: usize, seed: u64, prompt_stddev: usize, num_prefix_prompts: usize) -> (g: PromptGenerator)
        requires
            prompt_stddev % 100 != 0 ==> prompt_tokens * 2 <= usize::MAX && prompt_tokens + 100 <= usize::MAX,
        ensures
            g.pool().len() == num_prefix_prompts,
            exists|offsets: Seq<usize>| {
                &&& offsets.len() == num_prefix_prompts
                &&& forall|i: int| 0 <= i < num_prefix_prompts ==> {
                    &&& #[trigger] offsets[i] < offset_bound(pool_slice_len(prompt_tokens as int, prompt_stddev as int))
                    &&& g.pool()[i] == SHAKESPEARE@.subrange(
                        offsets[i] as int, offsets[i] + pool_slice_len(prompt_tokens as int, prompt_stddev as int))
                }
            },
            g.served() == 0,
            g.target_tokens() == prompt_tokens,
            g.stddev() == prompt_stddev % 100,
    {
        let bound = start_bound(prompt_tokens, prompt_stddev);
        let mut rng = seeded_rng(seed);
        let mut offsets: Vec<usize> = Vec::new();
        let mut i: usize = 0;
        while i < num_prefix_prompts
            invariant
                bound == offset_bound(pool_slice_len(prompt_tokens as int, prompt_stddev as int)),
                bound > 0,
                i <= num_prefix_prompts,
                offsets@.len() == i,
                forall|k: int| 0 <= k < i ==> #[trigger] offsets@[k] < bound,
            decreases num_prefix_prompts - i,
        {
            let start = random_below(&mut rng, bound);
            offsets.push(start);
            i = i + 1;
        }
        let g = Self::from_offsets(prompt_tokens, prompt_stddev, offsets.as_slice());
        assert(forall|k: int| 0 <= k < num_prefix_prompts ==> #[trigger] offsets@[k] < bound
            && g.pool()[k] == SHAKESPEARE@.subrange(
                offsets@[k] as int, offsets@[k] + pool_slice_len(prompt_tokens as int, prompt_stddev as int)));
        g
    }

    /// The next prompt of the pool, in turn, cycling through it. The random
    /// shortening applied when lengths vary is the caller's to make, with
    /// [`prompt_prefix`].
    pub fn next(&mut self) -> (p: String)
        requires
            old(self).pool().len() > 0,
            old(self).served() < usize::MAX,
        ensures
            p@ == old(self).pool()[(old(self).served() % old(self).pool().len()) as int],
            final(self).served() == old(self).served() + 1,
            final(self).pool() == old(self).pool(),
            final(self).target_tokens() == old(self).target_tokens(),
            final(self).stddev() == old(self).stddev(),
    {
        let n = self.prompts.len();
        let p = self.prompts[self.idx % n].clone();
        self.idx = self.idx + 1;
        p
    }

    /// The prompt at `index`, counted cyclically through the pool, without
    /// advancing [`Self::next`].
    pub fn get(&self, index: usize) -> (p: String)
        requires
            self.pool().len() > 0,
        ensures
            p@ == self.pool()[(index as int) % (self.pool().len() as int)],
    {
        let n = self.prompts.len();
        self.prompts[index % n].clone()
    }

    /// Pool size.
    pub fn pool_len(&self) -> (n: usize)
        ensures
            n == self.pool().len(),
    {
        self.prompts.len()
    }

    /// Target tokens per request, around which prompt lengths vary.
    pub fn prompt_tokens(&self) -> (n: usize)
        ensures
            n == self.target_tokens(),
    {
        self.prompt_tokens
    }

    /// Spread of prompt lengths, in percent of the target (below 100).
    pub fn prompt_stddev(&self) -> (n: usize)
        ensures
            n == self.stddev(),
    {
        self.prompt_stddev
    }
}

/// The first `target_tokens` tokens' worth of `full`: its first
/// `4 * target_tokens` bytes, or all of it.
pub open spec fn prefix_len(full_len: int, target_tokens: int) -> int {
    if 4 * target_tokens <= full_len { 4 * target_tokens } else { full_len }
}

/// Cuts a prompt down to `target_tokens` tokens' worth of bytes.
pub fn prompt_prefix(full: &str, target_tokens: usize) -> (res: String)
    requires
        target_tokens * 4 <= usize::MAX,
        vstd::utf8::is_char_boundary(full.spec_bytes(), prefix_len(full.spec_bytes().len() as int, target_tokens as int)),
    ensures
        res@ == vstd::utf8::decode_utf8(full.spec_bytes().take(prefix_len(full.spec_bytes().len() as int, target_tokens as int))),
{
    let char_count = target_tokens * CHARS_PER_TOKEN;
    let bl = full.as_bytes().len();
    let n = if char_count <= bl { char_count } else { bl };
    proof {
        vstd::utf8::encode_utf8_valid_utf8(full@);
    }
    let (a, _b) = full.split_at(n);
    proof {
        vstd::utf8::encode_utf8_valid_utf8(a@);
        vstd::utf8::encode_utf8_decode_utf8(a@);
        assert(full.spec_bytes().subrange(0, n as int) =~= full.spec_bytes().take(n as int));
    }
    a.to_owned()
}

/// The instruction closing every system prompt, to draw long answers.
pub const OUTPUT_INSTRUCTION: &'static str = " Please continue writing extensively, as much as possible.";

/// Characters of corpus text in a system prompt of `tokens` tokens: the
/// size left after the `[NNN] ` tag (six characters reserved) and the
/// 58-character instruction.
pub open spec fn system_body_len(tokens: int) -> int {
    if 4 * tokens >= 64 { 4 * tokens - 64 } else { 0 }
}

/// System prompt number `i` (from 0): `[NNN] `, with `NNN` its 1-based
/// number in at least three digits, then `body`, then the instruction.
pub open spec fn system_prompt_text(i: int, body: Seq<char>) -> Seq<char> {
    seq!['['] + zero_padded((i + 1) as nat, 3) + seq![']', ' '] + body + OUTPUT_INSTRUCTION@
}

/// A pool of system prompts, each with its own `[NNN]` tag, so that the
/// pool size sets how often a prompt prefix repeats.
pub struct SystemPromptGenerator {
    prompts: Vec<String>,
}

impl SystemPromptGenerator {
    pub closed spec fn pool(&self) -> Seq<Seq<char>> {
        self.prompts@.map_values(|p: String| p@)
    }

    /// Builds the pool from the corpus offsets its bodies start at: prompt
    /// `i` is system prompt number `i` whose body is the
    /// `system_body_len` characters of the corpus from `offsets[i]`. Each
    /// offset lies below [`offset_bound`], as a draw from the generator does.
    pub fn from_offsets(system_prompt_tokens: usize, offsets: &[usize]) -> (g: SystemPromptGenerator)
        requires
            system_prompt_tokens * 4 <= usize::MAX,
            system_body_len(system_prompt_tokens as int) <= SHAKESPEARE@.len(),
            forall|i: int| 0 <= i < offsets@.len() ==>
                #[trigger] offsets@[i] < offset_bound(system_body_len(system_prompt_tokens as int)),
        ensures
            g.pool().len() == offsets@.len(),
            forall|i: int| 0 <= i < offsets@.len() ==> #[trigger] g.pool()[i] == system_prompt_text(i,
                SHAKESPEARE@.subrange(offsets@[i] as int, offsets@[i] + system_body_len(system_prompt_tokens as int))),
    {
        let corpus = corpus();
        let instruction = chars_of(OUTPUT_INSTRUCTION);
        let instruction_chars = instruction.len();
        proof {
            reveal_strlit(" Please continue writing extensively, as much as possible.");
        }
        assert(instruction_chars == 58);
        let char_count = system_prompt_tokens * CHARS_PER_TOKEN;
        let prefix_len: usize = 6;
        let body_len = if char_count >= prefix_len + instruction_chars {
            char_count - (prefix_len + instruction_chars)
        } else {
            0
        };
        let clen = corpus.len();
        let mut prompts: Vec<String> = Vec::new();
        let mut i: usize = 0;
        while i < offsets.len()
            invariant
                corpus@ == SHAKESPEARE@,
                clen == corpus@.len(),
                instruction@ == OUTPUT_INSTRUCTION@,
                body_len == system_body_len(system_prompt_tokens as int),
                body_len <= corpus@.len(),
                i <= offsets@.len(),
                prompts@.len() == i,
                forall|k: int| 0 <= k < offsets@.len() ==> #[trigger] offsets@[k] < offset_bound(body_len as int),
                forall|k: int| 0 <= k < i ==> #[trigger] prompts@[k]@ == system_prompt_text(k,
                    SHAKESPEARE@.subrange(offsets@[k] as int, offsets@[k] + body_len)),
            decreases offsets@.len() - i,
        {
            let start = offsets[i];
            assert(start < offset_bound(body_len as int));
            assert(start + body_len <= clen);
            let body = copy_range(corpus.as_slice(), start, start + body_len);
            let mut text: Vec<char> = Vec::new();
            text.push('[');
            push_zero_padded(&mut text, (i + 1) as u64, 3);
            text.push(']');
            text.push(' ');
            extend_chars(&mut text, body.as_slice());
            extend_chars(&mut text, instruction.as_slice());
            assert(text@ =~= system_prompt_text(i as int, body@));
            let p = string_of(text.as_slice());
            prompts.push(p);
            i = i + 1;
        }
        let g = SystemPromptGenerator { prompts };
        assert forall|k: int| 0 <= k < offsets@.len() implies #[trigger] g.pool()[k] == system_prompt_text(k,
            SHAKESPEARE@.subrange(offsets@[k] as int, offsets@[k] + system_body_len(system_prompt_tokens as int))) by {
            assert(g.pool()[k] == g.prompts@[k]@);
        }
        g
    }

    /// Builds `num_system_prompts` system prompts of `system_prompt_tokens`
    /// tokens, their bodies cut from the corpus at offsets drawn from a
    /// generator seeded by `seed`, below [`offset_bound`]; see
    /// [`Self::from_offsets`].
    pub fn new(system_prompt_tokens: usize, num_system_prompts: usize, seed: u64) -> (g: SystemPromptGenerator)
        requires
            system_prompt_tokens * 4 <= usize::MAX,
            system_body_len(system_prompt_tokens as int) <= SHAKESPEARE@.len(),
        ensures
            g.pool().len() == num_system_prompts,
            exists|offsets: Seq<usize>| {
                &&& offsets.len() == num_system_prompts
                &&& forall|i: int| 0 <= i < num_system_prompts ==> {
                    &&& #[trigger] offsets[i] < offset_bound(system_body_len(system_prompt_tokens as int))
                    &&& g.pool()[i] == system_prompt_text(i, SHAKESPEARE@.subrange(
                        offsets[i] as int, offsets[i] + system_body_len(system_prompt_tokens as int)))
                }
            },
    {
        let char_count = system_prompt_tokens * CHARS_PER_TOKEN;
        let body_len = if char_count >= 64 { char_count - 64 } else { 0 };
        let room = corpus().len() - body_len;
        let bound = if room > 1 { room } else { 1 };
        let mut rng = seeded_rng(seed);
        let mut offsets: Vec<usize> = Vec::new();
        let mut i: usize = 0;
        while i < num_system_prompts
            invariant
                bound == offset_bound(system_body_len(system_prompt_tokens as int)),
                bound > 0,
                i <= num_system_prompts,
                offsets@.len() == i,
                forall|k: int| 0 <= k < i ==> #[trigger] offsets@[k] < bound,
            decreases num_system_prompts - i,
        {
            let start = random_below(&mut rng, bound);
            offsets.push(start);
            i = i + 1;
        }
        let g = Self::from_offsets(system_prompt_tokens, offsets.as_slice());
        assert(forall|k: int| 0 <= k < num_system_prompts ==> #[trigger] offsets@[k] < bound
            && g.pool()[k] == system_prompt_text(k, SHAKESPEARE@.subrange(
                offsets@[k] as int, offsets@[k] + system_body_len(system_prompt_tokens as int))));
        g
    }

    /// The system prompt at `index`, counted cyclically through the pool.
    pub fn get(&self, index: usize) -> (p: String)
        requires
            self.pool().len() > 0,
        ensures
            p@ == self.pool()[(index as int) % (self.pool().len() as int)],
    {
        let n = self.prompts.len();
        self.prompts[index % n].clone()
    }
}

/// The request sending `prompt` as the single user message.
pub fn new_benchmark_request(model: &str, prompt: &str, max_tokens: usize) -> (r: Request)
    ensures
        r.model@ == model@,
        message_views(r.messages@) == seq![MessageView { role: "user"@, content: prompt@ }],
        r.max_tokens == max_tokens,
        !r.no_cache,
{
    let mut messages: Vec<Message> = Vec::new();
    messages.push(Message::new("user", prompt));
    let r = Request { model: model.to_owned(), messages, max_tokens, no_cache: false };
    assert(message_views(r.messages@) =~= seq![MessageView { role: "user"@, content: prompt@ }]);
    r
}

/// The request sending a system message, then the user message.
pub fn new_benchmark_request_with_system(model: &str, system_prompt: &str, user_prompt: &str, max_tokens: usize) -> (r: Request)
    ensures
        r.model@ == model@,
        message_views(r.messages@) == seq![
            MessageView { role: "system"@, content: system_prompt@ },
            MessageView { role: "user"@, content: user_prompt@ },
        ],
        r.max_tokens == max_tokens,
        !r.no_cache,
{
    let mut messages: Vec<Message> = Vec::new();
    messages.push(Message::new("system", system_prompt));
    messages.push(Message::new("user", user_prompt));
    let r = Request { model: model.to_owned(), messages, max_tokens, no_cache: false };
    assert(message_views(r.messages@) =~= seq![
        MessageView { role: "system"@, content: system_prompt@ },
        MessageView { role: "user"@, content: user_prompt@ },
    ]);
    r
}

/// Cycling the pools: the prompt at `index` and at `index` plus the pool
/// size are the same, for user and system prompts alike.
pub proof fn law_pool_cycles(g: &PromptGenerator, s: &SystemPromptGenerator, index: nat)
    requires
        g.pool().len() > 0,
        s.pool().len() > 0,
    ensures
        g.pool()[(index % g.pool().len()) as int] == g.pool()[((index + g.pool().len()) % g.pool().len()) as int],
        s.pool()[(index % s.pool().len()) as int] == s.pool()[((index + s.pool().len()) % s.pool().len()) as int],
{
    vstd::arithmetic::div_mod::lemma_mod_add_multiples_vanish(index as int, g.pool().len() as int);
    vstd::arithmetic::div_mod::lemma_mod_add_multiples_vanish(index as int, s.pool().len() as int);
}

} // verus!

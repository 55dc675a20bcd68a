//! The Prometheus text exposition format: one sample per line,
//! `name{key="value",...} value`, with `#` comment lines.
use vstd::prelude::*;
use crate::text::{
    chars_of, string_of, copy_range, is_ws, is_whitespace, trim, trim_start, trim_bounds,
    trimmed, skip_ws_within, index_of_from, lemma_index_of_from, find_char, trimmed_lines,
    char_views, nonempty_lines, has_suffix, ends_with, concat, lemma_index_past,
};
use crate::config::opt_view;

verus! {

// ------------------------------------------------------------------ labels

/// Characters that separate one label from the next.
pub open spec fn is_label_sep(c: char) -> bool {
    c == ',' || is_ws(c)
}

/// First index at or after `i` that holds no separator (or `s.len()`).
pub open spec fn skip_seps_from(s: Seq<char>, i: int) -> int
    decreases s.len() - i,
{
    if i < 0 || i >= s.len() {
        s.len() as int
    } else if is_label_sep(s[i]) {
        skip_seps_from(s, i + 1)
    } else {
        i
    }
}

/// First index at or after `i` that holds a separator (or `s.len()`).
pub open spec fn bare_end_from(s: Seq<char>, i: int) -> int
    decreases s.len() - i,
{
    if i < 0 || i >= s.len() {
        s.len() as int
    } else if is_label_sep(s[i]) {
        i
    } else {
        bare_end_from(s, i + 1)
    }
}

/// A quoted value read from index `i` on, just after its opening quote:
/// the unescaped characters up to the closing quote (a backslash takes the
/// next character as it is), and the index just after that quote (or
/// `s.len()` when the quote is never closed).
pub open spec fn quoted_from(s: Seq<char>, i: int) -> (Seq<char>, int)
    decreases s.len() - i,
{
    if i < 0 || i >= s.len() {
        (Seq::empty(), s.len() as int)
    } else if s[i] == '"' {
        (Seq::empty(), i + 1)
    } else if s[i] == '\\' {
        if i + 1 < s.len() {
            let r = quoted_from(s, i + 2);
            (seq![s[i + 1]] + r.0, r.1)
        } else {
            (Seq::empty(), s.len() as int)
        }
    } else {
        let r = quoted_from(s, i + 1);
        (seq![s[i]] + r.0, r.1)
    }
}

/// The value that starts at index `k` (just after `=`), and where reading
/// goes on: quoted when it opens with `"`, else up to the next separator.
pub open spec fn value_at(s: Seq<char>, k: int) -> (Seq<char>, int) {
    if 0 <= k < s.len() && s[k] == '"' {
        quoted_from(s, k + 1)
    } else {
        (s.subrange(k, bare_end_from(s, k)), bare_end_from(s, k))
    }
}

pub proof fn lemma_skip_seps(s: Seq<char>, i: int)
    requires
        0 <= i <= s.len(),
    ensures
        i <= skip_seps_from(s, i) <= s.len(),
    decreases s.len() - i,
{
    if i < s.len() && is_label_sep(s[i]) {
        lemma_skip_seps(s, i + 1);
    }
}

pub proof fn lemma_bare_end(s: Seq<char>, i: int)
    requires
        0 <= i <= s.len(),
    ensures
        i <= bare_end_from(s, i) <= s.len(),
    decreases s.len() - i,
{
    if i < s.len() && !is_label_sep(s[i]) {
        lemma_bare_end(s, i + 1);
    }
}

pub proof fn lemma_quoted_next(s: Seq<char>, i: int)
    requires
        0 <= i <= s.len(),
    ensures
        i <= quoted_from(s, i).1 <= s.len(),
        i < s.len() ==> i < quoted_from(s, i).1,
    decreases s.len() - i,
{
    if i < s.len() && s[i] != '"' {
        if s[i] == '\\' {
            if i + 1 < s.len() {
                lemma_quoted_next(s, i + 2);
            }
        } else {
            lemma_quoted_next(s, i + 1);
        }
    }
}

pub proof fn lemma_value_next(s: Seq<char>, k: int)
    requires
        0 <= k <= s.len(),
    ensures
        k <= value_at(s, k).1 <= s.len(),
{
    if k < s.len() && s[k] == '"' {
        lemma_quoted_next(s, k + 1);
    } else {
        lemma_bare_end(s, k);
    }
}

/// The labels written in `s` from index `i` on, as (key, value) pairs in
/// order. Labels are separated by commas or whitespace; a key runs up to
/// `=` and is trimmed; text with no `=` left ends the list.
pub open spec fn labels_from(s: Seq<char>, i: int) -> Seq<(Seq<char>, Seq<char>)>
    decreases s.len() - i,
{
    if i < 0 {
        Seq::empty()
    } else {
        let p = skip_seps_from(s, i);
        let e = index_of_from(s, '=', p);
        if p >= s.len() || e >= s.len() {
            Seq::empty()
        } else {
            let v = value_at(s, e + 1);
            proof {
                lemma_skip_seps(s, i);
                lemma_index_of_from(s, '=', p);
                lemma_value_next(s, e + 1);
            }
            seq![(trim(s.subrange(p, e)), v.0)] + labels_from(s, v.1)
        }
    }
}

/// All labels written in `s`.
pub open spec fn labels_spec(s: Seq<char>) -> Seq<(Seq<char>, Seq<char>)> {
    labels_from(s, 0)
}

pub open spec fn label_views(v: Seq<(String, String)>) -> Seq<(Seq<char>, Seq<char>)> {
    v.map_values(|x: (String, String)| (x.0@, x.1@))
}

fn skip_seps(s: &[char], from: usize) -> (p: usize)
    requires
        from <= s@.len(),
    ensures
        p == skip_seps_from(s@, from as int),
{
    let mut p = from;
    while p < s.len() && (s[p] == ',' || is_whitespace(s[p]))
        invariant
            from <= p <= s@.len(),
            skip_seps_from(s@, from as int) == skip_seps_from(s@, p as int),
        decreases s@.len() - p,
    {
        p = p + 1;
    }
    p
}

fn bare_end(s: &[char], from: usize) -> (p: usize)
    requires
        from <= s@.len(),
    ensures
        p == bare_end_from(s@, from as int),
{
    let mut p = from;
    while p < s.len() && !(s[p] == ',' || is_whitespace(s[p]))
        invariant
            from <= p <= s@.len(),
            bare_end_from(s@, from as int) == bare_end_from(s@, p as int),
        decreases s@.len() - p,
    {
        p = p + 1;
    }
    p
}

fn read_quoted(s: &[char], from: usize) -> (r: (Vec<char>, usize))
    requires
        from <= s@.len(),
    ensures
        r.0@ == quoted_from(s@, from as int).0,
        r.1 == quoted_from(s@, from as int).1,
{
    let n = s.len();
    let mut out: Vec<char> = Vec::new();
    let mut i = from;
    loop
        invariant
            n == s@.len(),
            from <= i <= n,
            out@ + quoted_from(s@, i as int).0 == quoted_from(s@, from as int).0,
            quoted_from(s@, i as int).1 == quoted_from(s@, from as int).1,
        decreases n - i,
    {
        if i >= n {
            assert(out@ + Seq::<char>::empty() =~= out@);
            return (out, n);
        }
        let c = s[i];
        if c == '"' {
            assert(out@ + Seq::<char>::empty() =~= out@);
            return (out, i + 1);
        }
        if c == '\\' {
            if i + 1 < n {
                let ghost prev = out@;
                let d = s[i + 1];
                out.push(d);
                assert(out@ + quoted_from(s@, i + 2).0 =~= prev + (seq![d] + quoted_from(s@, i + 2).0));
                i = i + 2;
            } else {
                assert(out@ + Seq::<char>::empty() =~= out@);
                return (out, n);
            }
        } else {
            let ghost prev = out@;
            out.push(c);
            assert(out@ + quoted_from(s@, i + 1).0 =~= prev + (seq![c] + quoted_from(s@, i + 1).0));
            i = i + 1;
        }
    }
}

/// The labels written in `s`, as (key, value) pairs in order.
pub fn labels_in(s: &[char]) -> (res: Vec<(String, String)>)
    ensures
        label_views(res@) == labels_spec(s@),
{
    let n = s.len();
    let mut out: Vec<(String, String)> = Vec::new();
    let mut i: usize = 0;
    loop
        invariant
            n == s@.len(),
            i <= n,
            label_views(out@) + labels_from(s@, i as int) == labels_spec(s@),
        decreases n - i,
    {
        let p = skip_seps(s, i);
        proof {
            lemma_skip_seps(s@, i as int);
        }
        if p >= n {
            assert(label_views(out@) + Seq::<(Seq<char>, Seq<char>)>::empty() =~= label_views(out@));
            return out;
        }
        let e = find_char(s, '=', p);
        proof {
            lemma_index_of_from(s@, '=', p as int);
        }
        if e >= n {
            assert(label_views(out@) + Seq::<(Seq<char>, Seq<char>)>::empty() =~= label_views(out@));
            return out;
        }
        let k = e + 1;
        proof {
            lemma_value_next(s@, k as int);
        }
        let (val, next) = if k < n && s[k] == '"' {
            read_quoted(s, k + 1)
        } else {
            let b = bare_end(s, k);
            (copy_range(s, k, b), b)
        };
        let (a, b) = trim_bounds(s, p, e);
        let key = copy_range(s, a, b);
        let ghost prev = label_views(out@);
        let entry = (string_of(key.as_slice()), string_of(val.as_slice()));
        out.push(entry);
        assert(label_views(out@) =~= prev.push((entry.0@, entry.1@)));
        assert(label_views(out@) + labels_from(s@, next as int) =~= prev + labels_from(s@, i as int));
        i = next;
    }
}

/// The labels written in `s` (the text between a sample's braces).
pub fn parse_labels(s: &str) -> (res: Vec<(String, String)>)
    ensures
        label_views(res@) == labels_spec(s@),
{
    let cs = chars_of(s);
    labels_in(cs.as_slice())
}

// ------------------------------------------------------------------ writing labels back

/// How one label is written: `key="value"`.
pub open spec fn label_text(k: Seq<char>, v: Seq<char>) -> Seq<char> {
    k + seq!['=', '"'] + v + seq!['"']
}

/// Labels written one after another, separated by commas.
pub open spec fn labels_text(ls: Seq<(Seq<char>, Seq<char>)>) -> Seq<char>
    decreases ls.len(),
{
    if ls.len() == 0 {
        Seq::empty()
    } else if ls.len() == 1 {
        label_text(ls[0].0, ls[0].1)
    } else {
        label_text(ls[0].0, ls[0].1) + seq![','] + labels_text(ls.drop_first())
    }
}

/// A key that reads back as written: not empty, no `=`, not starting with
/// a separator, not ending with whitespace.
pub open spec fn plain_key(k: Seq<char>) -> bool {
    &&& k.len() > 0
    &&& !is_label_sep(k[0])
    &&& !is_ws(k.last())
    &&& forall|j: int| 0 <= j < k.len() ==> k[j] != '='
}

/// A value that needs no escaping: no `"` and no backslash.
pub open spec fn plain_value(v: Seq<char>) -> bool {
    forall|j: int| 0 <= j < v.len() ==> v[j] != '"' && v[j] != '\\'
}

proof fn lemma_quoted_run(s: Seq<char>, i: int, m: int)
    requires
        0 <= i,
        0 <= m,
        i + m < s.len(),
        forall|j: int| i <= j < i + m ==> s[j] != '"' && s[j] != '\\',
        s[i + m] == '"',
    ensures
        quoted_from(s, i) == (s.subrange(i, i + m), i + m + 1),
    decreases m,
{
    if m > 0 {
        lemma_quoted_run(s, i + 1, m - 1);
        assert(seq![s[i]] + s.subrange(i + 1, i + m) =~= s.subrange(i, i + m));
    } else {
        assert(s.subrange(i, i) =~= Seq::<char>::empty());
    }
}

proof fn lemma_trim_plain(k: Seq<char>)
    requires
        plain_key(k),
    ensures
        trim(k) == k,
{
    assert(trim_start(k) == k);
}

/// A label written at `i` reads back first.
proof fn lemma_label_at(s: Seq<char>, i: int, k: Seq<char>, v: Seq<char>)
    requires
        0 <= i,
        i + label_text(k, v).len() <= s.len(),
        s.subrange(i, i + label_text(k, v).len()) == label_text(k, v),
        plain_key(k),
        plain_value(v),
    ensures
        labels_from(s, i) == seq![(k, v)] + labels_from(s, i + label_text(k, v).len()),
{
    let t = label_text(k, v);
    let e = i + k.len();
    assert(s[i] == t[0]);
    assert(t[0] == k[0]);
    assert(skip_seps_from(s, i) == i);
    assert forall|j: int| i <= j < e implies s[j] != '=' by {
        assert(s[j] == t[j - i]);
        assert(t[j - i] == k[j - i]);
    }
    assert(s[e] == t[k.len() as int]);
    lemma_index_past(s, '=', i, k.len() as int);
    assert(s[e + 1] == t[k.len() + 1int]);
    assert forall|j: int| e + 2 <= j < e + 2 + v.len() implies s[j] != '"' && s[j] != '\\' by {
        assert(s[j] == t[j - i]);
        assert(t[j - i] == v[j - e - 2]);
    }
    assert(s[e + 2 + v.len()] == t[k.len() + 2int + v.len()]);
    lemma_quoted_run(s, e + 2, v.len() as int);
    assert(s.subrange(e + 2, e + 2 + v.len()) =~= v) by {
        assert forall|j: int| 0 <= j < v.len() implies s.subrange(e + 2, e + 2 + v.len())[j] == v[j] by {
            assert(s[e + 2 + j] == t[k.len() + 2int + j]);
        }
    }
    assert(s.subrange(i, e) =~= k) by {
        assert forall|j: int| 0 <= j < k.len() implies s.subrange(i, e)[j] == k[j] by {
            assert(s[i + j] == t[j]);
        }
    }
    lemma_trim_plain(k);
    lemma_index_of_from(s, '=', i);
}

/// A comma before a label is skipped.
proof fn lemma_comma(s: Seq<char>, j: int)
    requires
        0 <= j < s.len(),
        s[j] == ',',
    ensures
        labels_from(s, j) == labels_from(s, j + 1),
{
    assert(skip_seps_from(s, j) == skip_seps_from(s, j + 1));
}

proof fn lemma_shift_skip(p: Seq<char>, s: Seq<char>, i: int)
    requires
        0 <= i <= s.len(),
    ensures
        skip_seps_from(p + s, p.len() + i) == p.len() + skip_seps_from(s, i),
        bare_end_from(p + s, p.len() + i) == p.len() + bare_end_from(s, i),
    decreases s.len() - i,
{
    if i < s.len() {
        assert((p + s)[p.len() + i] == s[i]);
        lemma_shift_skip(p, s, i + 1);
    }
}

proof fn lemma_shift_index(p: Seq<char>, s: Seq<char>, c: char, i: int)
    requires
        0 <= i <= s.len(),
    ensures
        index_of_from(p + s, c, p.len() + i) == p.len() + index_of_from(s, c, i),
    decreases s.len() - i,
{
    if i < s.len() {
        assert((p + s)[p.len() + i] == s[i]);
        lemma_shift_index(p, s, c, i + 1);
    }
}

proof fn lemma_shift_quoted(p: Seq<char>, s: Seq<char>, i: int)
    requires
        0 <= i <= s.len(),
    ensures
        quoted_from(p + s, p.len() + i) == (quoted_from(s, i).0, p.len() + quoted_from(s, i).1),
    decreases s.len() - i,
{
    if i < s.len() {
        assert((p + s)[p.len() + i] == s[i]);
        if i + 1 < s.len() {
            assert((p + s)[p.len() + i + 1] == s[i + 1]);
        }
        if s[i] == '\\' && i + 1 < s.len() {
            lemma_shift_quoted(p, s, i + 2);
        } else if s[i] != '"' && s[i] != '\\' {
            lemma_shift_quoted(p, s, i + 1);
        }
    }
}

/// Reading labels does not depend on what precedes the reading position.
proof fn lemma_shift_labels(p: Seq<char>, s: Seq<char>, i: int)
    requires
        0 <= i <= s.len(),
    ensures
        labels_from(p + s, p.len() + i) == labels_from(s, i),
    decreases s.len() - i,
{
    let ps = p + s;
    lemma_shift_skip(p, s, i);
    lemma_skip_seps(s, i);
    let q = skip_seps_from(s, i);
    if q < s.len() {
        lemma_shift_index(p, s, '=', q);
        lemma_index_of_from(s, '=', q);
        let e = index_of_from(s, '=', q);
        if e < s.len() {
            let k = e + 1;
            if k < s.len() {
                assert(ps[p.len() + k] == s[k]);
                lemma_shift_quoted(p, s, k + 1);
            }
            lemma_shift_skip(p, s, k);
            lemma_bare_end(s, k);
            assert(ps.subrange(p.len() + k, p.len() + bare_end_from(s, k)) =~= s.subrange(k, bare_end_from(s, k)));
            lemma_value_next(s, k);
            assert(ps.subrange(p.len() + q, p.len() + e) =~= s.subrange(q, e));
            lemma_shift_labels(p, s, value_at(s, k).1);
        }
    }
}

/// Labels written as `key="value"` and separated by commas read back as
/// they were written, when no key holds `=` or starts with a separator or
/// ends with whitespace, and no value holds a quote or a backslash.
#[verifier::spinoff_prover]
pub proof fn law_labels_read_back(ls: Seq<(Seq<char>, Seq<char>)>)
    requires
        forall|j: int| 0 <= j < ls.len() ==> plain_key(#[trigger] ls[j].0) && plain_value(ls[j].1),
    ensures
        labels_spec(labels_text(ls)) == ls,
    decreases ls.len(),
{
    if ls.len() == 0 {
        assert(labels_text(ls) =~= Seq::<char>::empty());
        assert(ls =~= Seq::<(Seq<char>, Seq<char>)>::empty());
    } else {
        let k = ls[0].0;
        let v = ls[0].1;
        let t = label_text(k, v);
        let s = labels_text(ls);
        assert(plain_key(ls[0].0) && plain_value(ls[0].1));
        if ls.len() == 1 {
            assert(s.subrange(0, t.len() as int) =~= t);
            lemma_label_at(s, 0, k, v);
            assert(labels_from(s, t.len() as int) =~= Seq::<(Seq<char>, Seq<char>)>::empty());
            assert(ls =~= seq![(k, v)]);
        } else {
            let rest = ls.drop_first();
            let r = labels_text(rest);
            let head = t + seq![','];
            assert(s =~= head + r);
            assert(s.subrange(0, t.len() as int) =~= t);
            lemma_label_at(s, 0, k, v);
            assert(s[t.len() as int] == ',');
            lemma_comma(s, t.len() as int);
            assert forall|j: int| 0 <= j < rest.len() implies plain_key(#[trigger] rest[j].0) && plain_value(rest[j].1) by {
                assert(rest[j] == ls[j + 1]);
                assert(plain_key(ls[j + 1].0) && plain_value(ls[j + 1].1));
            }
            law_labels_read_back(rest);
            lemma_shift_labels(head, r, 0);
            assert(ls =~= seq![(k, v)] + rest);
        }
    }
}

// ------------------------------------------------------------------ samples

/// One sample: metric name, labels, and the value as written.
pub type MetricSample = (String, Vec<(String, String)>, String);

/// Mathematical value of a [`MetricSample`].
pub type SampleView = (Seq<char>, Seq<(Seq<char>, Seq<char>)>, Seq<char>);

pub open spec fn sample_view(m: MetricSample) -> SampleView {
    (m.0@, label_views(m.1@), m.2@)
}

pub open spec fn sample_views(v: Seq<MetricSample>) -> Seq<SampleView> {
    v.map_values(|m: MetricSample| sample_view(m))
}

/// First index at or after `i` holding whitespace (or `s.len()`).
pub open spec fn ws_index_from(s: Seq<char>, i: int) -> int
    decreases s.len() - i,
{
    if i < 0 || i >= s.len() {
        s.len() as int
    } else if is_ws(s[i]) {
        i
    } else {
        ws_index_from(s, i + 1)
    }
}

/// The first whitespace-separated word of `s`, if it has one.
pub open spec fn first_word(s: Seq<char>) -> Option<Seq<char>> {
    let t = trim_start(s);
    if t.len() == 0 {
        None
    } else {
        Some(t.subrange(0, ws_index_from(t, 0)))
    }
}

/// A line that opens a label set also closes it: its first `}` comes after
/// its first `{`.
pub open spec fn braces_closed(line: Seq<char>) -> bool {
    let t = trim(line);
    let b = index_of_from(t, '{', 0);
    b < t.len() ==> b < index_of_from(t, '}', 0) < t.len()
}

/// The sample written on `line`: the name up to `{` (labels between the
/// braces, value the first word after `}`), or, with no labels, the name
/// up to the first whitespace and the value the first word after it. A
/// line with no value gives nothing.
pub open spec fn metric_line_spec(line: Seq<char>) -> Option<SampleView> {
    let t = trim(line);
    let b = index_of_from(t, '{', 0);
    let e = index_of_from(t, '}', 0);
    let w = ws_index_from(t, 0);
    if t.len() == 0 {
        None
    } else if b < t.len() {
        match first_word(trim(t.subrange(e + 1, t.len() as int))) {
            Some(v) => Some((t.subrange(0, b), labels_spec(t.subrange(b + 1, e)), v)),
            None => None,
        }
    } else if w < t.len() {
        match first_word(trim(t.subrange(w + 1, t.len() as int))) {
            Some(v) => Some((t.subrange(0, w), Seq::empty(), v)),
            None => None,
        }
    } else {
        None
    }
}

fn ws_index(s: &[char], from: usize) -> (j: usize)
    requires
        from <= s@.len(),
    ensures
        j == ws_index_from(s@, from as int),
        from <= j <= s@.len(),
{
    let mut j = from;
    while j < s.len() && !is_whitespace(s[j])
        invariant
            from <= j <= s@.len(),
            ws_index_from(s@, from as int) == ws_index_from(s@, j as int),
        decreases s@.len() - j,
    {
        j = j + 1;
    }
    j
}

/// Bounds in `s` of the first word of `s[from..to]`.
fn first_word_in(s: &[char], from: usize, to: usize) -> (r: Option<(usize, usize)>)
    requires
        from <= to <= s@.len(),
    ensures
        r is None ==> first_word(s@.subrange(from as int, to as int)) is None,
        r matches Some((c, j)) ==> from <= c <= j <= to && first_word(
            s@.subrange(from as int, to as int),
        ) == Some(s@.subrange(c as int, j as int)),
{
    let c = skip_ws_within(s, from, to);
    if c == to {
        return None;
    }
    let ghost t = s@.subrange(c as int, to as int);
    let mut j = c;
    while j < to && !is_whitespace(s[j])
        invariant
            c <= j <= to <= s@.len(),
            t == s@.subrange(c as int, to as int),
            ws_index_from(t, 0) == ws_index_from(t, j - c),
        decreases to - j,
    {
        assert(t[j - c] == s@[j as int]);
        j = j + 1;
    }
    proof {
        if j < to {
            assert(t[j - c] == s@[j as int]);
        }
        assert(t.subrange(0, j - c) =~= s@.subrange(c as int, j as int));
    }
    Some((c, j))
}

/// The sample written on the characters `cs`.
pub fn metric_line_in(cs: &[char]) -> (res: Option<MetricSample>)
    requires
        braces_closed(cs@),
    ensures
        res is None ==> metric_line_spec(cs@) is None,
        res matches Some(m) ==> metric_line_spec(cs@) == Some(sample_view(m)),
{
    let t = trimmed(cs);
    let n = t.len();
    if n == 0 {
        return None;
    }
    let b = find_char(t.as_slice(), '{', 0);
    proof {
        lemma_index_of_from(t@, '{', 0);
    }
    if b < n {
        let e = find_char(t.as_slice(), '}', 0);
        proof {
            lemma_index_of_from(t@, '}', 0);
        }
        let (a, z) = trim_bounds(t.as_slice(), e + 1, n);
        match first_word_in(t.as_slice(), a, z) {
            None => None,
            Some((c, j)) => {
                let name = copy_range(t.as_slice(), 0, b);
                let inner = copy_range(t.as_slice(), b + 1, e);
                let labels = labels_in(inner.as_slice());
                let value = copy_range(t.as_slice(), c, j);
                Some((string_of(name.as_slice()), labels, string_of(value.as_slice())))
            },
        }
    } else {
        let w = ws_index(t.as_slice(), 0);
        if w >= n {
            return None;
        }
        let (a, z) = trim_bounds(t.as_slice(), w + 1, n);
        match first_word_in(t.as_slice(), a, z) {
            None => None,
            Some((c, j)) => {
                let name = copy_range(t.as_slice(), 0, w);
                let value = copy_range(t.as_slice(), c, j);
                let labels: Vec<(String, String)> = Vec::new();
                assert(label_views(labels@) =~= Seq::<(Seq<char>, Seq<char>)>::empty());
                Some((string_of(name.as_slice()), labels, string_of(value.as_slice())))
            },
        }
    }
}

/// The sample written on `line`, with its value as text.
pub fn parse_metric_line(line: &str) -> (res: Option<MetricSample>)
    requires
        braces_closed(line@),
    ensures
        res is None ==> metric_line_spec(line@) is None,
        res matches Some(m) ==> metric_line_spec(line@) == Some(sample_view(m)),
{
    let cs = chars_of(line);
    metric_line_in(cs.as_slice())
}

// ------------------------------------------------------------------ writing samples back

/// No character of `s` is whitespace.
pub open spec fn no_ws(s: Seq<char>) -> bool {
    forall|j: int| 0 <= j < s.len() ==> !is_ws(#[trigger] s[j])
}

/// No character of `s` is `c`.
pub open spec fn lacks(s: Seq<char>, c: char) -> bool {
    forall|j: int| 0 <= j < s.len() ==> #[trigger] s[j] != c
}

proof fn lemma_ws_index_none(s: Seq<char>, i: int)
    requires
        0 <= i <= s.len(),
        forall|j: int| i <= j < s.len() ==> !is_ws(#[trigger] s[j]),
    ensures
        ws_index_from(s, i) == s.len(),
    decreases s.len() - i,
{
    if i < s.len() {
        lemma_ws_index_none(s, i + 1);
    }
}

proof fn lemma_ws_index_past(s: Seq<char>, i: int, m: int)
    requires
        0 <= i,
        0 <= m,
        i + m < s.len(),
        forall|j: int| i <= j < i + m ==> !is_ws(#[trigger] s[j]),
        is_ws(s[i + m]),
    ensures
        ws_index_from(s, i) == i + m,
    decreases m,
{
    if m > 0 {
        lemma_ws_index_past(s, i + 1, m - 1);
    }
}

proof fn lemma_index_none(s: Seq<char>, c: char, i: int)
    requires
        0 <= i <= s.len(),
        forall|j: int| i <= j < s.len() ==> #[trigger] s[j] != c,
    ensures
        index_of_from(s, c, i) == s.len(),
{
    lemma_index_of_from(s, c, i);
}

/// A word with no whitespace is its own trim and its own first word.
proof fn lemma_word(v: Seq<char>)
    requires
        v.len() > 0,
        no_ws(v),
    ensures
        trim(v) == v,
        first_word(v) == Some(v),
{
    assert(trim_start(v) == v);
    assert(!is_ws(v.last()));
    lemma_ws_index_none(v, 0);
    assert(v.subrange(0, v.len() as int) =~= v);
}

/// A space and then a word trims to the word.
proof fn lemma_space_word(v: Seq<char>)
    requires
        v.len() > 0,
        no_ws(v),
    ensures
        trim(seq![' '] + v) == v,
{
    let t = seq![' '] + v;
    assert(t.drop_first() =~= v);
    assert(trim_start(t) == trim_start(v));
    lemma_word(v);
}

proof fn lemma_labels_text_lacks(ls: Seq<(Seq<char>, Seq<char>)>, c: char)
    requires
        c != '=' && c != '"' && c != ',',
        forall|j: int| 0 <= j < ls.len() ==> lacks(#[trigger] ls[j].0, c) && lacks(ls[j].1, c),
    ensures
        lacks(labels_text(ls), c),
    decreases ls.len(),
{
    if ls.len() > 0 {
        let k = ls[0].0;
        let v = ls[0].1;
        assert(lacks(ls[0].0, c) && lacks(ls[0].1, c));
        let t = label_text(k, v);
        assert forall|j: int| 0 <= j < t.len() implies #[trigger] t[j] != c by {
            if j < k.len() {
                assert(t[j] == k[j]);
            } else if j >= k.len() + 2 && j < k.len() + 2 + v.len() {
                assert(t[j] == v[j - k.len() - 2]);
            }
        }
        if ls.len() > 1 {
            let rest = ls.drop_first();
            assert forall|j: int| 0 <= j < rest.len() implies lacks(#[trigger] rest[j].0, c) && lacks(rest[j].1, c) by {
                assert(rest[j] == ls[j + 1]);
            }
            lemma_labels_text_lacks(rest, c);
            let all = t + seq![','] + labels_text(rest);
            assert(labels_text(ls) == all);
            assert forall|j: int| 0 <= j < all.len() implies #[trigger] all[j] != c by {
                if j < t.len() {
                    assert(all[j] == t[j]);
                } else if j > t.len() {
                    assert(all[j] == labels_text(rest)[j - t.len() - 1]);
                }
            }
        }
    }
}

/// A sample written as `name value` reads back as that name, no labels,
/// and that value, when neither holds whitespace or `{`.
pub proof fn law_plain_sample_reads_back(name: Seq<char>, value: Seq<char>)
    requires
        name.len() > 0,
        value.len() > 0,
        no_ws(name),
        no_ws(value),
        lacks(name, '{'),
        lacks(value, '{'),
    ensures
        metric_line_spec(name + seq![' '] + value) == Some((name, Seq::<(Seq<char>, Seq<char>)>::empty(), value)),
{
    let t = name + seq![' '] + value;
    let n = name.len() as int;
    assert(t[0] == name[0]);
    assert(trim_start(t) == t);
    assert(t.last() == value.last());
    assert(trim(t) == t);
    assert forall|j: int| 0 <= j < t.len() implies #[trigger] t[j] != '{' by {
        if j < n {
            assert(t[j] == name[j]);
        } else if j > n {
            assert(t[j] == value[j - n - 1]);
        }
    }
    lemma_index_none(t, '{', 0);
    assert forall|j: int| 0 <= j < n implies !is_ws(#[trigger] t[j]) by {
        assert(t[j] == name[j]);
    }
    lemma_ws_index_past(t, 0, n);
    assert(t.subrange(n + 1, t.len() as int) =~= value);
    assert(t.subrange(0, n) =~= name);
    lemma_word(value);
}

/// A sample written as `name{labels} value` reads back as that name, those
/// labels and that value, when the name and value hold no whitespace, the
/// name no brace, and the labels are plain and hold no brace.
#[verifier::spinoff_prover]
pub proof fn law_labeled_sample_reads_back(name: Seq<char>, ls: Seq<(Seq<char>, Seq<char>)>, value: Seq<char>)
    requires
        name.len() > 0,
        value.len() > 0,
        no_ws(name),
        no_ws(value),
        lacks(name, '{'),
        lacks(name, '}'),
        forall|j: int| 0 <= j < ls.len() ==> plain_key(#[trigger] ls[j].0) && plain_value(ls[j].1),
        forall|j: int| 0 <= j < ls.len() ==> lacks(#[trigger] ls[j].0, '}') && lacks(ls[j].1, '}'),
    ensures
        metric_line_spec(name + seq!['{'] + labels_text(ls) + seq!['}', ' '] + value) == Some((name, ls, value)),
{
    let l = labels_text(ls);
    let t = name + seq!['{'] + l + seq!['}', ' '] + value;
    let n = name.len() as int;
    let e = n + 1 + l.len();
    assert(t[0] == name[0]);
    assert(trim_start(t) == t);
    assert(t.last() == value.last());
    assert(trim(t) == t);
    assert forall|j: int| 0 <= j < n implies #[trigger] t[j] != '{' by {
        assert(t[j] == name[j]);
    }
    lemma_index_past(t, '{', 0, n);
    assert forall|j: int| 0 <= j < ls.len() implies lacks(#[trigger] ls[j].0, '}') && lacks(ls[j].1, '}') by {
        assert(lacks(ls[j].0, '}') && lacks(ls[j].1, '}'));
    }
    lemma_labels_text_lacks(ls, '}');
    assert forall|j: int| 0 <= j < e implies #[trigger] t[j] != '}' by {
        if j < n {
            assert(t[j] == name[j]);
        } else if j > n {
            assert(t[j] == l[j - n - 1]);
        }
    }
    assert(t[e] == '}');
    lemma_index_past(t, '}', 0, e);
    assert(t.subrange(0, n) =~= name);
    assert(t.subrange(n + 1, e) =~= l);
    assert(t.subrange(e + 1, t.len() as int) =~= seq![' '] + value);
    lemma_space_word(value);
    lemma_word(value);
    law_labels_read_back(ls);
}

/// A comment line (`# HELP`, `# TYPE`, ...).
pub open spec fn is_comment(l: Seq<char>) -> bool {
    l.len() > 0 && l[0] == '#'
}

/// The samples written on the (trimmed, non-empty) lines `ls`, in order;
/// comments and lines with no value are left out.
pub open spec fn samples_of(ls: Seq<Seq<char>>) -> Seq<SampleView>
    decreases ls.len(),
{
    if ls.len() == 0 {
        Seq::empty()
    } else {
        let prev = samples_of(ls.drop_last());
        let l = ls.last();
        if is_comment(l) {
            prev
        } else {
            match metric_line_spec(l) {
                Some(m) => prev.push(m),
                None => prev,
            }
        }
    }
}

/// Every line that is not a comment closes the label set it opens.
pub open spec fn exposition_ok(input: Seq<char>) -> bool {
    forall|i: int|
        0 <= i < trimmed_lines(input).len() && !is_comment(#[trigger] trimmed_lines(input)[i])
            ==> braces_closed(trimmed_lines(input)[i])
}


/// Whether the characters `cs` close the label set they open.
pub fn braces_closed_in(cs: &[char]) -> (b: bool)
    ensures
        b == braces_closed(cs@),
{
    let t = trimmed(cs);
    let n = t.len();
    let b = find_char(t.as_slice(), '{', 0);
    if b >= n {
        return true;
    }
    let e = find_char(t.as_slice(), '}', 0);
    b < e && e < n
}

/// Whether [`parse_prometheus_text`] may be asked to read `input`.
pub fn exposition_ok_text(input: &str) -> (b: bool)
    ensures
        b == exposition_ok(input@),
{
    let cs = chars_of(input);
    let lines = nonempty_lines(cs.as_slice());
    let ghost ls = char_views(lines@);
    let mut i: usize = 0;
    while i < lines.len()
        invariant
            i <= lines@.len(),
            ls == char_views(lines@),
            ls == trimmed_lines(input@),
            forall|k: int| 0 <= k < i && !is_comment(#[trigger] ls[k]) ==> braces_closed(ls[k]),
        decreases lines@.len() - i,
    {
        assert(ls[i as int] == lines@[i as int]@);
        let line = &lines[i];
        let is_hash = line.len() > 0 && line[0] == '#';
        if !is_hash && !braces_closed_in(line.as_slice()) {
            return false;
        }
        i = i + 1;
    }
    true
}

/// The samples of a whole exposition, in the order of their lines.
pub fn parse_prometheus_text(input: &str) -> (res: Vec<MetricSample>)
    requires
        exposition_ok(input@),
    ensures
        sample_views(res@) == samples_of(trimmed_lines(input@)),
{
    let cs = chars_of(input);
    let lines = nonempty_lines(cs.as_slice());
    let ghost ls = char_views(lines@);
    let mut out: Vec<MetricSample> = Vec::new();
    let mut i: usize = 0;
    while i < lines.len()
        invariant
            i <= lines@.len(),
            ls == char_views(lines@),
            ls == trimmed_lines(input@),
            exposition_ok(input@),
            sample_views(out@) == samples_of(ls.take(i as int)),
        decreases lines@.len() - i,
    {
        let line = &lines[i];
        assert(ls.take(i + 1).drop_last() =~= ls.take(i as int));
        assert(ls.take(i + 1).last() == line@);
        assert(ls[i as int] == line@);
        let is_hash = line.len() > 0 && line[0] == '#';
        if !is_hash {
            let ghost prev = sample_views(out@);
            match metric_line_in(line.as_slice()) {
                Some(m) => {
                    out.push(m);
                    assert(sample_views(out@) =~= prev.push(sample_view(m)));
                },
                None => {},
            }
        }
        i = i + 1;
    }
    assert(ls.take(lines@.len() as int) =~= ls);
    out
}

// ------------------------------------------------------------------ lookups

/// A name that is no part of a histogram: it ends in none of `_bucket`,
/// `_count`, `_sum`.
pub open spec fn is_scalar_name(name: Seq<char>) -> bool {
    !has_suffix(name, "_bucket"@) && !has_suffix(name, "_count"@) && !has_suffix(name, "_sum"@)
}

/// The value of the last sample named `name`.
pub open spec fn last_named(ss: Seq<SampleView>, name: Seq<char>) -> Option<Seq<char>>
    decreases ss.len(),
{
    if ss.len() == 0 {
        None
    } else if ss.last().0 == name {
        Some(ss.last().2)
    } else {
        last_named(ss.drop_last(), name)
    }
}

/// The value of the first label whose key is `key`.
pub open spec fn first_label(ls: Seq<(Seq<char>, Seq<char>)>, key: Seq<char>) -> Option<Seq<char>>
    decreases ls.len(),
{
    if ls.len() == 0 {
        None
    } else if ls[0].0 == key {
        Some(ls[0].1)
    } else {
        first_label(ls.drop_first(), key)
    }
}

/// The samples named `name`, in order, each as its `le` label and value.
pub open spec fn bucket_parts(ss: Seq<SampleView>, name: Seq<char>) -> Seq<(Option<Seq<char>>, Seq<char>)>
    decreases ss.len(),
{
    if ss.len() == 0 {
        Seq::empty()
    } else {
        let prev = bucket_parts(ss.drop_last(), name);
        if ss.last().0 == name {
            prev.push((first_label(ss.last().1, "le"@), ss.last().2))
        } else {
            prev
        }
    }
}

/// The scalar value recorded under `key`: the last sample of that name,
/// unless the name is a histogram part.
pub open spec fn scalar_of(ss: Seq<SampleView>, key: Seq<char>) -> Option<Seq<char>> {
    if is_scalar_name(key) {
        last_named(ss, key)
    } else {
        None
    }
}

/// The first of `keys` that has a scalar value, and that value.
pub open spec fn scalar_lookup(ss: Seq<SampleView>, keys: Seq<Seq<char>>) -> Option<Seq<char>>
    decreases keys.len(),
{
    if keys.len() == 0 {
        None
    } else {
        match scalar_of(ss, keys[0]) {
            Some(v) => Some(v),
            None => scalar_lookup(ss, keys.drop_first()),
        }
    }
}

/// A histogram as written: its `_count` and `_sum` values and its buckets
/// (`le` bound and cumulative count), all as text.
pub struct HistogramText {
    pub count: Option<String>,
    pub sum: Option<String>,
    pub buckets: Vec<(Option<String>, String)>,
}

/// Mathematical value of a [`HistogramText`].
pub ghost struct HistogramView {
    pub count: Option<Seq<char>>,
    pub sum: Option<Seq<char>>,
    pub buckets: Seq<(Option<Seq<char>>, Seq<char>)>,
}

pub open spec fn bucket_views(b: Seq<(Option<String>, String)>) -> Seq<(Option<Seq<char>>, Seq<char>)> {
    b.map_values(|x: (Option<String>, String)| (opt_view(x.0), x.1@))
}

impl View for HistogramText {
    type V = HistogramView;

    open spec fn view(&self) -> HistogramView {
        HistogramView { count: opt_view(self.count), sum: opt_view(self.sum), buckets: bucket_views(self.buckets@) }
    }
}

/// The histogram named `key`.
pub open spec fn histogram_of(ss: Seq<SampleView>, key: Seq<char>) -> HistogramView {
    HistogramView {
        count: last_named(ss, key + "_count"@),
        sum: last_named(ss, key + "_sum"@),
        buckets: bucket_parts(ss, key + "_bucket"@),
    }
}

/// The samples of `ss` named `name`, in order.
pub open spec fn named_samples(ss: Seq<SampleView>, name: Seq<char>) -> Seq<SampleView> {
    ss.filter(|s: SampleView| s.0 == name)
}

/// The buckets of the histogram named `key` are its `key_bucket` samples,
/// one for one and in order: each bucket's bound is its sample's `le`
/// label and its cumulative count is that sample's value.
pub proof fn law_buckets_are_bucket_samples(ss: Seq<SampleView>, key: Seq<char>)
    ensures ({
        let bs = named_samples(ss, key + "_bucket"@);
        let h = histogram_of(ss, key);
        &&& h.buckets.len() == bs.len()
        &&& forall|j: int| 0 <= j < bs.len() ==> (#[trigger] h.buckets[j]).1 == bs[j].2
            && h.buckets[j].0 == first_label(bs[j].1, "le"@)
    }),
    decreases ss.len(),
{
    let name = key + "_bucket"@;
    reveal(Seq::filter);
    if ss.len() > 0 {
        law_buckets_are_bucket_samples(ss.drop_last(), key);
        assert(named_samples(ss, name) == if ss.last().0 == name {
            named_samples(ss.drop_last(), name).push(ss.last())
        } else {
            named_samples(ss.drop_last(), name)
        });
    } else {
        assert(named_samples(ss, name) =~= Seq::<SampleView>::empty());
    }
}

/// The value read for a name is that of the last sample so named, and
/// there is none when no sample has the name.
pub proof fn law_last_sample_wins(ss: Seq<SampleView>, name: Seq<char>)
    ensures ({
        let ns = named_samples(ss, name);
        &&& ns.len() == 0 ==> last_named(ss, name) is None
        &&& ns.len() > 0 ==> last_named(ss, name) == Some(ns.last().2)
        &&& forall|j: int| 0 <= j < ns.len() ==> (#[trigger] ns[j]).0 == name
    }),
    decreases ss.len(),
{
    reveal(Seq::filter);
    if ss.len() > 0 {
        law_last_sample_wins(ss.drop_last(), name);
        let prev = named_samples(ss.drop_last(), name);
        assert(named_samples(ss, name) == if ss.last().0 == name { prev.push(ss.last()) } else { prev });
        assert forall|j: int| 0 <= j < named_samples(ss, name).len() implies
            (#[trigger] named_samples(ss, name)[j]).0 == name by {
            if j < prev.len() {
                assert(named_samples(ss, name)[j] == prev[j]);
            }
        }
    } else {
        assert(named_samples(ss, name) =~= Seq::<SampleView>::empty());
    }
}

/// A histogram's count and sum are the values of the last `key_count` and
/// `key_sum` samples; a gauge or counter is the value of the last sample
/// of its name, and a histogram part is never read as one.
pub proof fn law_histogram_totals_and_scalars(ss: Seq<SampleView>, key: Seq<char>)
    ensures ({
        let h = histogram_of(ss, key);
        let cs = named_samples(ss, key + "_count"@);
        let sms = named_samples(ss, key + "_sum"@);
        let ks = named_samples(ss, key);
        &&& h.count == (if cs.len() > 0 { Some(cs.last().2) } else { None })
        &&& h.sum == (if sms.len() > 0 { Some(sms.last().2) } else { None })
        &&& scalar_of(ss, key) == (if is_scalar_name(key) && ks.len() > 0 { Some(ks.last().2) } else { None })
    }),
{
    law_last_sample_wins(ss, key + "_count"@);
    law_last_sample_wins(ss, key + "_sum"@);
    law_last_sample_wins(ss, key);
}

/// A line `key_bucket{le="b"} v` read after the samples `ss` adds the
/// bucket `(b, v)` to the histogram named `key`: bound `b`, cumulative
/// count `v`.
#[verifier::spinoff_prover]
pub proof fn law_bucket_line_adds_bucket(ss: Seq<SampleView>, key: Seq<char>, b: Seq<char>, v: Seq<char>)
    requires
        key.len() > 0,
        no_ws(key),
        lacks(key, '{'),
        lacks(key, '}'),
        plain_value(b),
        lacks(b, '}'),
        v.len() > 0,
        no_ws(v),
        lacks(v, '{'),
    ensures ({
        let line = key + "_bucket"@ + seq!['{'] + labels_text(seq![("le"@, b)]) + seq!['}', ' '] + v;
        metric_line_spec(line) matches Some(s) && histogram_of(ss.push(s), key).buckets
            == histogram_of(ss, key).buckets.push((Some(b), v))
    }),
{
    reveal_strlit("_bucket");
    reveal_strlit("le");
    let name = key + "_bucket"@;
    let ls = seq![("le"@, b)];
    assert forall|j: int| 0 <= j < name.len() implies !is_ws(#[trigger] name[j]) by {
        if j < key.len() { assert(name[j] == key[j]); }
    }
    assert forall|j: int| 0 <= j < name.len() implies #[trigger] name[j] != '{' by {
        if j < key.len() { assert(name[j] == key[j]); }
    }
    assert forall|j: int| 0 <= j < name.len() implies #[trigger] name[j] != '}' by {
        if j < key.len() { assert(name[j] == key[j]); }
    }
    assert(ls[0].0 == "le"@);
    assert(plain_key(ls[0].0));
    assert forall|j: int| 0 <= j < ls.len() implies lacks(#[trigger] ls[j].0, '}') && lacks(ls[j].1, '}') by {
        assert(j == 0);
    }
    law_labeled_sample_reads_back(name, ls, v);
    let s = (name, ls, v);
    assert(ss.push(s).drop_last() =~= ss);
    assert(first_label(ls, "le"@) == Some(b));
}

/// Some sample is a part of the histogram named `key`.
pub open spec fn has_histogram(ss: Seq<SampleView>, key: Seq<char>) -> bool {
    let h = histogram_of(ss, key);
    h.count is Some || h.sum is Some || h.buckets.len() > 0
}

/// The histogram under the first of `keys` that has one.
pub open spec fn histogram_lookup(ss: Seq<SampleView>, keys: Seq<Seq<char>>) -> Option<HistogramView>
    decreases keys.len(),
{
    if keys.len() == 0 {
        None
    } else if has_histogram(ss, keys[0]) {
        Some(histogram_of(ss, keys[0]))
    } else {
        histogram_lookup(ss, keys.drop_first())
    }
}

/// Name prefixes tried, in order, for metrics of the given backend.
pub open spec fn prefixes_for(backend: Seq<char>) -> Seq<Seq<char>> {
    if backend == "vllm"@ {
        seq!["vllm:"@, ""@]
    } else if backend == "sglang"@ {
        seq!["sglang:"@, ""@]
    } else {
        seq![""@, "vllm:"@, "sglang:"@]
    }
}

pub open spec fn string_views(v: Seq<String>) -> Seq<Seq<char>> {
    v.map_values(|x: String| x@)
}

/// For vLLM and SGLang the backend's own prefix is tried before the bare
/// name, and no other name is tried.
pub proof fn law_backend_prefix_first(ss: Seq<SampleView>, backend: Seq<char>, name: Seq<char>)
    requires
        backend == "vllm"@ || backend == "sglang"@,
    ensures
        scalar_lookup(ss, prefixes_for(backend).map_values(|p: Seq<char>| p + name))
            == match scalar_of(ss, prefixes_for(backend)[0] + name) {
                Some(v) => Some(v),
                None => scalar_of(ss, ""@ + name),
            },
{
    let keys = prefixes_for(backend).map_values(|p: Seq<char>| p + name);
    assert(keys.len() == 2);
    assert(keys[0] == prefixes_for(backend)[0] + name);
    assert(keys.drop_first()[0] == ""@ + name);
    assert(keys.drop_first().drop_first() =~= Seq::<Seq<char>>::empty());
    reveal_with_fuel(scalar_lookup, 3);
}

/// For any other backend the bare name is tried first, then the vLLM
/// name, then the SGLang name.
pub proof fn law_other_backends_bare_name_first(ss: Seq<SampleView>, backend: Seq<char>, name: Seq<char>)
    requires
        backend != "vllm"@,
        backend != "sglang"@,
    ensures
        scalar_lookup(ss, prefixes_for(backend).map_values(|p: Seq<char>| p + name))
            == match scalar_of(ss, ""@ + name) {
                Some(v) => Some(v),
                None => match scalar_of(ss, "vllm:"@ + name) {
                    Some(v) => Some(v),
                    None => scalar_of(ss, "sglang:"@ + name),
                },
            },
{
    let keys = prefixes_for(backend).map_values(|p: Seq<char>| p + name);
    assert(keys.len() == 3);
    assert(keys[0] == ""@ + name);
    assert(keys.drop_first()[0] == "vllm:"@ + name);
    assert(keys.drop_first().drop_first()[0] == "sglang:"@ + name);
    assert(keys.drop_first().drop_first().drop_first() =~= Seq::<Seq<char>>::empty());
    reveal_with_fuel(scalar_lookup, 4);
}

/// The names under which `name` is looked up for `backend`: each prefix of
/// [`prefixes_for`] followed by `name`.
pub fn metric_keys(name: &str, backend: &str) -> (res: Vec<String>)
    ensures
        string_views(res@) == prefixes_for(backend@).map_values(|p: Seq<char>| p + name@),
{
    let b = backend.to_owned();
    let mut out: Vec<String> = Vec::new();
    if b == "vllm".to_owned() {
        out.push(concat("vllm:", name));
        out.push(concat("", name));
    } else if b == "sglang".to_owned() {
        out.push(concat("sglang:", name));
        out.push(concat("", name));
    } else {
        out.push(concat("", name));
        out.push(concat("vllm:", name));
        out.push(concat("sglang:", name));
    }
    assert(string_views(out@) =~= prefixes_for(backend@).map_values(|p: Seq<char>| p + name@));
    out
}

/// Whether `name` is no part of a histogram.
pub fn scalar_name(name: &String) -> (b: bool)
    ensures
        b == is_scalar_name(name@),
{
    !ends_with(name.as_str(), "_bucket") && !ends_with(name.as_str(), "_count") && !ends_with(name.as_str(), "_sum")
}

/// The value of the last sample named `name`.
pub fn last_value(samples: &[MetricSample], name: &String) -> (res: Option<String>)
    ensures
        opt_view(res) == last_named(sample_views(samples@), name@),
{
    let ghost ss = sample_views(samples@);
    let mut res: Option<String> = None;
    let mut i: usize = 0;
    while i < samples.len()
        invariant
            i <= samples@.len(),
            ss == sample_views(samples@),
            opt_view(res) == last_named(ss.take(i as int), name@),
        decreases samples@.len() - i,
    {
        assert(ss.take(i + 1).drop_last() =~= ss.take(i as int));
        assert(ss.take(i + 1).last() == sample_view(samples@[i as int]));
        if samples[i].0 == *name {
            res = Some(samples[i].2.clone());
        }
        i = i + 1;
    }
    assert(ss.take(samples@.len() as int) =~= ss);
    res
}

/// The value of the first label whose key is `key`.
pub fn label_value(labels: &[(String, String)], key: &str) -> (res: Option<String>)
    ensures
        opt_view(res) == first_label(label_views(labels@), key@),
{
    let ghost ls = label_views(labels@);
    let k = key.to_owned();
    let mut i: usize = 0;
    assert(ls.skip(0) =~= ls);
    while i < labels.len()
        invariant
            i <= labels@.len(),
            ls == label_views(labels@),
            k@ == key@,
            first_label(ls, key@) == first_label(ls.skip(i as int), key@),
        decreases labels@.len() - i,
    {
        assert(ls.skip(i as int)[0] == (labels@[i as int].0@, labels@[i as int].1@));
        if labels[i].0 == k {
            return Some(labels[i].1.clone());
        }
        assert(ls.skip(i as int).drop_first() =~= ls.skip(i + 1));
        i = i + 1;
    }
    assert(ls.skip(labels@.len() as int) =~= Seq::<(Seq<char>, Seq<char>)>::empty());
    None
}

/// The `le` bound and value of each sample named `name`, in order.
pub fn bucket_values(samples: &[MetricSample], name: &String) -> (res: Vec<(Option<String>, String)>)
    ensures
        bucket_views(res@) == bucket_parts(sample_views(samples@), name@),
{
    let ghost ss = sample_views(samples@);
    let mut out: Vec<(Option<String>, String)> = Vec::new();
    let mut i: usize = 0;
    while i < samples.len()
        invariant
            i <= samples@.len(),
            ss == sample_views(samples@),
            bucket_views(out@) == bucket_parts(ss.take(i as int), name@),
        decreases samples@.len() - i,
    {
        assert(ss.take(i + 1).drop_last() =~= ss.take(i as int));
        assert(ss.take(i + 1).last() == sample_view(samples@[i as int]));
        if samples[i].0 == *name {
            let ghost prev = bucket_views(out@);
            let le = label_value(samples[i].1.as_slice(), "le");
            let entry = (le, samples[i].2.clone());
            out.push(entry);
            assert(bucket_views(out@) =~= prev.push((opt_view(entry.0), entry.1@)));
        }
        i = i + 1;
    }
    assert(ss.take(samples@.len() as int) =~= ss);
    out
}

/// The scalar value of the first of `keys` that has one.
pub fn find_scalar(samples: &[MetricSample], keys: &[String]) -> (res: Option<String>)
    ensures
        opt_view(res) == scalar_lookup(sample_views(samples@), string_views(keys@)),
{
    let ghost ss = sample_views(samples@);
    let ghost ks = string_views(keys@);
    let mut i: usize = 0;
    assert(ks.skip(0) =~= ks);
    while i < keys.len()
        invariant
            i <= keys@.len(),
            ss == sample_views(samples@),
            ks == string_views(keys@),
            scalar_lookup(ss, ks) == scalar_lookup(ss, ks.skip(i as int)),
        decreases keys@.len() - i,
    {
        assert(ks.skip(i as int)[0] == keys@[i as int]@);
        assert(ks.skip(i as int).drop_first() =~= ks.skip(i + 1));
        if scalar_name(&keys[i]) {
            let v = last_value(samples, &keys[i]);
            if v.is_some() {
                return v;
            }
        }
        i = i + 1;
    }
    assert(ks.skip(keys@.len() as int) =~= Seq::<Seq<char>>::empty());
    None
}

fn with_suffix(key: &String, suf: &str) -> (res: String)
    ensures
        res@ == key@ + suf@,
{
    concat(key.as_str(), suf)
}

/// The histogram under the first of `keys` that has one.
pub fn find_histogram(samples: &[MetricSample], keys: &[String]) -> (res: Option<HistogramText>)
    ensures
        res is None ==> histogram_lookup(sample_views(samples@), string_views(keys@)) is None,
        res matches Some(h) ==> histogram_lookup(sample_views(samples@), string_views(keys@)) == Some(h@),
{
    let ghost ss = sample_views(samples@);
    let ghost ks = string_views(keys@);
    let mut i: usize = 0;
    assert(ks.skip(0) =~= ks);
    while i < keys.len()
        invariant
            i <= keys@.len(),
            ss == sample_views(samples@),
            ks == string_views(keys@),
            histogram_lookup(ss, ks) == histogram_lookup(ss, ks.skip(i as int)),
        decreases keys@.len() - i,
    {
        assert(ks.skip(i as int)[0] == keys@[i as int]@);
        assert(ks.skip(i as int).drop_first() =~= ks.skip(i + 1));
        let count = last_value(samples, &with_suffix(&keys[i], "_count"));
        let sum = last_value(samples, &with_suffix(&keys[i], "_sum"));
        let buckets = bucket_values(samples, &with_suffix(&keys[i], "_bucket"));
        if count.is_some() || sum.is_some() || buckets.len() > 0 {
            let h = HistogramText { count, sum, buckets };
            return Some(h);
        }
        i = i + 1;
    }
    assert(ks.skip(keys@.len() as int) =~= Seq::<Seq<char>>::empty());
    None
}

/// Index of the first bucket whose cumulative count reaches `target`, the
/// bucket a histogram percentile falls in.
pub fn first_bucket_reaching(cumulative: &[u64], target: u64) -> (r: Option<usize>)
    ensures
        r is None ==> forall|i: int| 0 <= i < cumulative@.len() ==> cumulative@[i] < target,
        r matches Some(i) ==> i < cumulative@.len() && cumulative@[i as int] >= target
            && forall|j: int| 0 <= j < i ==> cumulative@[j] < target,
{
    let mut i: usize = 0;
    while i < cumulative.len()
        invariant
            i <= cumulative@.len(),
            forall|j: int| 0 <= j < i ==> cumulative@[j] < target,
        decreases cumulative@.len() - i,
    {
        if cumulative[i] >= target {
            return Some(i);
        }
        i = i + 1;
    }
    None
}

} // verus!

//! Character-sequence helpers shared by the parsers: whitespace, trimming,
//! splitting, decimal numbers.
use vstd::prelude::*;

verus! {

/// The characters of a string slice, in order.
pub fn chars_of(s: &str) -> (res: Vec<char>)
    ensures
        res@ == s@,
{
    broadcast use vstd::string::axiom_spec_iter;
    let mut out: Vec<char> = Vec::new();
    for c in it: s.chars()
        invariant
            it.seq() == s@,
            out@ == it.seq().take(it.index() as int),
    {
        out.push(c);
    }
    assert(out@ =~= s@);
    out
}

/// A `String` holding exactly the given characters, in order.
///
/// Trusted: std's `FromIterator<&char>` for `String` (`collect`) pushes
/// each character in turn, so the string's characters are `cs`.
#[verifier::external_body]
pub(crate) fn string_of(cs: &[char]) -> (res: String)
    ensures
        res@ == cs@,
{
    cs.iter().collect()
}

/// A copy of `s[from..to]`.
pub fn copy_range(s: &[char], from: usize, to: usize) -> (res: Vec<char>)
    requires
        from <= to <= s@.len(),
    ensures
        res@ == s@.subrange(from as int, to as int),
{
    let mut res: Vec<char> = Vec::new();
    let mut i = from;
    while i < to
        invariant
            from <= i <= to <= s@.len(),
            res@ == s@.subrange(from as int, i as int),
        decreases to - i,
    {
        res.push(s[i]);
        i = i + 1;
    }
    res
}

/// Appends all of `b` to `a`.
pub fn extend_chars(a: &mut Vec<char>, b: &[char])
    ensures
        final(a)@ == old(a)@ + b@,
{
    let mut i: usize = 0;
    while i < b.len()
        invariant
            i <= b@.len(),
            a@ == old(a)@ + b@.subrange(0, i as int),
        decreases b@.len() - i,
    {
        a.push(b[i]);
        i = i + 1;
    }
}

/// Unicode `White_Space`, the set that `char::is_whitespace` tests.
pub open spec fn is_ws(c: char) -> bool {
    ||| ('\t' <= c && c <= '\r')
    ||| c == ' '
    ||| c == '\u{85}'
    ||| c == '\u{a0}'
    ||| c == '\u{1680}'
    ||| ('\u{2000}' <= c && c <= '\u{200a}')
    ||| c == '\u{2028}'
    ||| c == '\u{2029}'
    ||| c == '\u{202f}'
    ||| c == '\u{205f}'
    ||| c == '\u{3000}'
}

pub fn is_whitespace(c: char) -> (b: bool)
    ensures
        b == is_ws(c),
{
    ('\t' <= c && c <= '\r') || c == ' ' || c == '\u{85}' || c == '\u{a0}' || c == '\u{1680}'
        || ('\u{2000}' <= c && c <= '\u{200a}') || c == '\u{2028}' || c == '\u{2029}'
        || c == '\u{202f}' || c == '\u{205f}' || c == '\u{3000}'
}

/// `s` without its leading whitespace.
pub open spec fn trim_start(s: Seq<char>) -> Seq<char>
    decreases s.len(),
{
    if s.len() > 0 && is_ws(s[0]) {
        trim_start(s.drop_first())
    } else {
        s
    }
}

/// `s` without its trailing whitespace.
pub open spec fn trim_end(s: Seq<char>) -> Seq<char>
    decreases s.len(),
{
    if s.len() > 0 && is_ws(s.last()) {
        trim_end(s.drop_last())
    } else {
        s
    }
}

/// `s` without leading and trailing whitespace, as `str::trim` gives it.
pub open spec fn trim(s: Seq<char>) -> Seq<char> {
    trim_end(trim_start(s))
}

/// Start of `trim_start(s[from..to])` inside `s`.
pub fn skip_ws_within(s: &[char], from: usize, to: usize) -> (c: usize)
    requires
        from <= to <= s@.len(),
    ensures
        from <= c <= to,
        trim_start(s@.subrange(from as int, to as int)) == s@.subrange(c as int, to as int),
{
    let mut c = from;
    while c < to && is_whitespace(s[c])
        invariant
            from <= c <= to <= s@.len(),
            trim_start(s@.subrange(from as int, to as int)) == trim_start(s@.subrange(c as int, to as int)),
        decreases to - c,
    {
        assert(s@.subrange(c as int, to as int).drop_first() =~= s@.subrange(c + 1, to as int));
        c = c + 1;
    }
    c
}

/// End of `s[from..to]` once trailing whitespace is removed.
pub fn rskip_ws(s: &[char], from: usize, to: usize) -> (j: usize)
    requires
        from <= to <= s@.len(),
    ensures
        from <= j <= to,
        trim_end(s@.subrange(from as int, to as int)) == s@.subrange(from as int, j as int),
        forall|k: int| j <= k < to ==> is_ws(#[trigger] s@[k]),
        j > from ==> !is_ws(s@[j - 1]),
{
    let mut j = to;
    while j > from && is_whitespace(s[j - 1])
        invariant
            from <= j <= to <= s@.len(),
            trim_end(s@.subrange(from as int, to as int)) == trim_end(s@.subrange(from as int, j as int)),
            forall|k: int| j <= k < to ==> is_ws(#[trigger] s@[k]),
        decreases j,
    {
        assert(s@.subrange(from as int, j as int).drop_last() =~= s@.subrange(from as int, j - 1));
        j = j - 1;
    }
    j
}

/// Bounds of `trim(s[from..to])` inside `s`.
pub fn trim_bounds(s: &[char], from: usize, to: usize) -> (r: (usize, usize))
    requires
        from <= to <= s@.len(),
    ensures
        from <= r.0 <= r.1 <= to,
        trim(s@.subrange(from as int, to as int)) == s@.subrange(r.0 as int, r.1 as int),
{
    let mut i = from;
    while i < to && is_whitespace(s[i])
        invariant
            from <= i <= to <= s@.len(),
            trim_start(s@.subrange(from as int, to as int)) == trim_start(s@.subrange(i as int, to as int)),
        decreases to - i,
    {
        assert(s@.subrange(i as int, to as int).drop_first() =~= s@.subrange(i + 1, to as int));
        i = i + 1;
    }
    assert(trim_start(s@.subrange(i as int, to as int)) == s@.subrange(i as int, to as int));
    let j = rskip_ws(s, i, to);
    (i, j)
}

/// `trim(s)` as a new vector.
pub fn trimmed(s: &[char]) -> (res: Vec<char>)
    ensures
        res@ == trim(s@),
{
    let (a, b) = trim_bounds(s, 0, s.len());
    assert(s@.subrange(0, s@.len() as int) =~= s@);
    copy_range(s, a, b)
}

// ---------------------------------------------------------------- numbers

pub open spec fn is_digit(c: char) -> bool {
    '0' <= c && c <= '9'
}

pub open spec fn digit_value(c: char) -> int {
    (c as int) - ('0' as int)
}

pub open spec fn all_digits(s: Seq<char>) -> bool {
    forall|i: int| 0 <= i < s.len() ==> is_digit(#[trigger] s[i])
}

/// Value of a run of decimal digits, most significant first.
pub open spec fn digits_value(s: Seq<char>) -> int
    decreases s.len(),
{
    if s.len() == 0 {
        0
    } else {
        digits_value(s.drop_last()) * 10 + digit_value(s.last())
    }
}

/// The digits that `FromStr` for an unsigned integer reads: an optional
/// leading `+` is dropped when something follows it.
pub open spec fn unsigned_body(s: Seq<char>) -> Seq<char> {
    if s.len() > 1 && s[0] == '+' {
        s.drop_first()
    } else {
        s
    }
}

/// `s` is accepted by `FromStr` for unsigned integers, overflow aside.
pub open spec fn is_unsigned_text(s: Seq<char>) -> bool {
    unsigned_body(s).len() > 0 && all_digits(unsigned_body(s))
}

/// Value of `s` as an unsigned decimal, for `s` with `is_unsigned_text(s)`.
pub open spec fn unsigned_value(s: Seq<char>) -> int {
    digits_value(unsigned_body(s))
}

/// What `s.parse::<u64>()` gives, as an option.
pub open spec fn parse_u64_spec(s: Seq<char>) -> Option<u64> {
    if is_unsigned_text(s) && unsigned_value(s) <= u64::MAX {
        Some(unsigned_value(s) as u64)
    } else {
        None
    }
}

/// What `s.parse::<u32>()` gives, as an option.
pub open spec fn parse_u32_spec(s: Seq<char>) -> Option<u32> {
    if is_unsigned_text(s) && unsigned_value(s) <= u32::MAX {
        Some(unsigned_value(s) as u32)
    } else {
        None
    }
}

pub proof fn lemma_digits_value_nonneg(s: Seq<char>)
    requires
        all_digits(s),
    ensures
        digits_value(s) >= 0,
    decreases s.len(),
{
    if s.len() > 0 {
        lemma_digits_value_nonneg(s.drop_last());
    }
}

/// A prefix of a digit run never has a larger value than the whole run.
pub proof fn lemma_digits_prefix_le(s: Seq<char>, i: int)
    requires
        all_digits(s),
        0 <= i <= s.len(),
    ensures
        digits_value(s.take(i)) <= digits_value(s),
    decreases s.len() - i,
{
    if i < s.len() {
        lemma_digits_prefix_le(s, i + 1);
        assert(s.take(i + 1).drop_last() =~= s.take(i));
        lemma_digits_value_nonneg(s.take(i));
    } else {
        assert(s.take(i) =~= s);
    }
}

/// Parses `s` as `str::parse::<u64>` does.
pub fn parse_u64(s: &[char]) -> (res: Option<u64>)
    ensures
        res == parse_u64_spec(s@),
{
    let n = s.len();
    let start: usize = if n > 1 && s[0] == '+' { 1 } else { 0 };
    let ghost body = unsigned_body(s@);
    assert(body =~= s@.subrange(start as int, n as int));
    if start >= n {
        return None;
    }
    let mut v: u64 = 0;
    let mut i = start;
    while i < n
        invariant
            start <= i <= n == s@.len(),
            body == unsigned_body(s@),
            body == s@.subrange(start as int, n as int),
            all_digits(body.take(i - start)),
            v == digits_value(body.take(i - start)),
        decreases n - i,
    {
        let c = s[i];
        if !('0' <= c && c <= '9') {
            assert(body[i - start] == c);
            assert(!all_digits(body));
            return None;
        }
        let d = (c as u32 - '0' as u32) as u64;
        assert(body.take(i + 1 - start).drop_last() =~= body.take(i - start));
        assert(body.take(i + 1 - start).last() == c);
        assert(all_digits(body.take(i + 1 - start))) by {
            assert forall|k: int| 0 <= k < body.take(i + 1 - start).len() implies is_digit(#[trigger] body.take(i + 1 - start)[k]) by {
                if k < i - start {
                    assert(body.take(i + 1 - start)[k] == body.take(i - start)[k]);
                }
            }
        }
        if v > (u64::MAX - d) / 10 {
            proof {
                assert(digits_value(body.take(i + 1 - start)) == v * 10 + d);
                assert(v * 10 + d > u64::MAX) by (nonlinear_arith)
                    requires v > (u64::MAX - d) / 10, d <= 9;
                // every later prefix, and the whole body, is at least this large
                if all_digits(body) {
                    lemma_digits_prefix_le(body, i + 1 - start);
                    assert(unsigned_value(s@) > u64::MAX);
                }
            }
            return None;
        }
        assert(v * 10 + d <= u64::MAX) by (nonlinear_arith)
            requires v <= (u64::MAX - d) / 10, d <= 9;
        v = v * 10 + d;
        i = i + 1;
    }
    assert(body.take(n - start) =~= body);
    Some(v)
}

/// Parses `s` as `str::parse::<u32>` does.
pub fn parse_u32(s: &[char]) -> (res: Option<u32>)
    ensures
        res == parse_u32_spec(s@),
{
    proof {
        if is_unsigned_text(s@) {
            lemma_digits_value_nonneg(unsigned_body(s@));
        }
    }
    match parse_u64(s) {
        Some(v) => {
            if v <= u32::MAX as u64 {
                Some(v as u32)
            } else {
                None
            }
        },
        None => {
            assert(parse_u32_spec(s@) is None);
            None
        },
    }
}

/// Decimal digits of `n`, without leading zeros (`"0"` for zero).
pub open spec fn decimal(n: nat) -> Seq<char>
    decreases n,
{
    if n < 10 {
        seq![(('0' as int) + n) as char]
    } else {
        decimal(n / 10).push((('0' as int) + (n % 10)) as char)
    }
}

/// `decimal(n)` left-padded with zeros to at least `width` characters,
/// as `format!("{:0width$}", n)` writes it.
pub open spec fn zero_padded(n: nat, width: nat) -> Seq<char> {
    if decimal(n).len() < width {
        Seq::new((width - decimal(n).len()) as nat, |i: int| '0') + decimal(n)
    } else {
        decimal(n)
    }
}

pub proof fn lemma_decimal_len_pos(n: nat)
    ensures
        decimal(n).len() >= 1,
    decreases n,
{
    if n >= 10 {
        lemma_decimal_len_pos(n / 10);
    }
}

/// Appends the decimal digits of `n`.
pub fn push_decimal(out: &mut Vec<char>, n: u64)
    ensures
        final(out)@ == old(out)@ + decimal(n as nat),
    decreases n,
{
    if n < 10 {
        let c = char_of_digit(n as u32);
        out.push(c);
        assert(decimal(n as nat) =~= seq![c]);
    } else {
        push_decimal(out, n / 10);
        let c = char_of_digit((n % 10) as u32);
        out.push(c);
    }
}

/// The ASCII digit for `d < 10`.
pub fn char_of_digit(d: u32) -> (c: char)
    requires
        d < 10,
    ensures
        c == (('0' as int) + d) as char,
        is_digit(c),
{
    if d == 0 { '0' }
    else if d == 1 { '1' }
    else if d == 2 { '2' }
    else if d == 3 { '3' }
    else if d == 4 { '4' }
    else if d == 5 { '5' }
    else if d == 6 { '6' }
    else if d == 7 { '7' }
    else if d == 8 { '8' }
    else { '9' }
}

/// Appends `n` in decimal, zero-padded to at least `width` digits.
pub fn push_zero_padded(out: &mut Vec<char>, n: u64, width: usize)
    ensures
        final(out)@ == old(out)@ + zero_padded(n as nat, width as nat),
{
    let mut digits: Vec<char> = Vec::new();
    push_decimal(&mut digits, n);
    assert(digits@ =~= decimal(n as nat));
    if digits.len() < width {
        let pad = width - digits.len();
        let mut k: usize = 0;
        let ghost start = out@;
        while k < pad
            invariant
                k <= pad,
                out@ == start + Seq::new(k as nat, |i: int| '0'),
            decreases pad - k,
        {
            out.push('0');
            k = k + 1;
            assert(out@ =~= start + Seq::new(k as nat, |i: int| '0'));
        }
        extend_chars(out, digits.as_slice());
        assert(out@ =~= old(out)@ + zero_padded(n as nat, width as nat));
    } else {
        extend_chars(out, digits.as_slice());
    }
}


// ------------------------------------------------------------------ UTF-8

/// Encoding a concatenation concatenates the encodings.
pub proof fn lemma_encode_concat(x: Seq<char>, y: Seq<char>)
    ensures
        vstd::utf8::encode_utf8(x + y) == vstd::utf8::encode_utf8(x) + vstd::utf8::encode_utf8(y),
    decreases x.len(),
{
    if x.len() == 0 {
        assert(x + y =~= y);
    } else {
        lemma_encode_concat(x.drop_first(), y);
        assert((x + y).drop_first() =~= x.drop_first() + y);
        assert((x + y)[0] == x[0]);
    }
}

/// ASCII characters encode to one byte each.
pub proof fn lemma_encode_ascii_len(x: Seq<char>)
    requires
        forall|i: int| 0 <= i < x.len() ==> (#[trigger] x[i] as u32) < 0x80,
    ensures
        vstd::utf8::encode_utf8(x).len() == x.len(),
    decreases x.len(),
{
    if x.len() > 0 {
        let t = x.drop_first();
        assert forall|i: int| 0 <= i < t.len() implies (#[trigger] t[i] as u32) < 0x80 by {
            assert(t[i] == x[i + 1]);
        }
        lemma_encode_ascii_len(t);
        assert((x[0] as u32) < 0x80);
    }
}

// ------------------------------------------------------------------ lines

/// Index of the first `c` at or after `i` in `s`, or `s.len()`.
pub open spec fn index_of_from(s: Seq<char>, c: char, i: int) -> int
    decreases s.len() - i,
{
    if i < 0 || i >= s.len() {
        s.len() as int
    } else if s[i] == c {
        i
    } else {
        index_of_from(s, c, i + 1)
    }
}

pub proof fn lemma_index_of_from(s: Seq<char>, c: char, i: int)
    requires
        0 <= i <= s.len(),
    ensures
        i <= index_of_from(s, c, i) <= s.len(),
        index_of_from(s, c, i) < s.len() ==> s[index_of_from(s, c, i)] == c,
        forall|k: int| i <= k < index_of_from(s, c, i) ==> s[k] != c,
    decreases s.len() - i,
{
    if i < s.len() && s[i] != c {
        lemma_index_of_from(s, c, i + 1);
    }
}

/// The first `c` at or after `i` is `m` places on when none comes before.
pub proof fn lemma_index_past(s: Seq<char>, c: char, i: int, m: int)
    requires
        0 <= i,
        0 <= m,
        i + m < s.len(),
        forall|j: int| i <= j < i + m ==> s[j] != c,
        s[i + m] == c,
    ensures
        index_of_from(s, c, i) == i + m,
    decreases m,
{
    if m > 0 {
        lemma_index_past(s, c, i + 1, m - 1);
    }
}

/// Index of the first `c` at or after `from` in `s`.
pub fn find_char(s: &[char], c: char, from: usize) -> (j: usize)
    requires
        from <= s@.len(),
    ensures
        j == index_of_from(s@, c, from as int),
{
    let mut j = from;
    while j < s.len() && s[j] != c
        invariant
            from <= j <= s@.len(),
            index_of_from(s@, c, from as int) == index_of_from(s@, c, j as int),
        decreases s@.len() - j,
    {
        j = j + 1;
    }
    j
}

/// The lines of `s` from `start` on, each trimmed, empty ones left out.
/// (Splitting at `\n` and trimming agrees with `str::lines` followed by
/// `str::trim`, since trimming also removes a line's `\r`.)
pub open spec fn trimmed_lines_from(s: Seq<char>, start: int) -> Seq<Seq<char>>
    decreases s.len() - start,
{
    if start < 0 || start > s.len() {
        Seq::empty()
    } else {
        let e = index_of_from(s, '\n', start);
        let t = trim(s.subrange(start, if e < start { start } else { e }));
        let rest = if start <= e < s.len() { trimmed_lines_from(s, e + 1) } else { Seq::empty() };
        if t.len() == 0 { rest } else { seq![t] + rest }
    }
}

pub open spec fn trimmed_lines(s: Seq<char>) -> Seq<Seq<char>> {
    trimmed_lines_from(s, 0)
}

pub open spec fn char_views(v: Seq<Vec<char>>) -> Seq<Seq<char>> {
    v.map_values(|x: Vec<char>| x@)
}

/// The non-empty lines of `s`, trimmed, in order.
pub fn nonempty_lines(s: &[char]) -> (res: Vec<Vec<char>>)
    ensures
        char_views(res@) == trimmed_lines(s@),
{
    let n = s.len();
    let mut out: Vec<Vec<char>> = Vec::new();
    let mut start: usize = 0;
    loop
        invariant
            n == s@.len(),
            start <= n,
            char_views(out@) + trimmed_lines_from(s@, start as int) == trimmed_lines(s@),
        decreases n - start,
    {
        let e = find_char(s, '\n', start);
        proof {
            lemma_index_of_from(s@, '\n', start as int);
        }
        let (a, b) = trim_bounds(s, start, e);
        if a < b {
            let line = copy_range(s, a, b);
            let ghost prev = out@;
            out.push(line);
            assert(char_views(out@) =~= char_views(prev).push(line@));
            let ghost rest = if e < n { trimmed_lines_from(s@, e + 1) } else { Seq::<Seq<char>>::empty() };
            assert(char_views(out@) + rest =~= char_views(prev) + (seq![line@] + rest));
        }
        if e >= n {
            assert(char_views(out@) =~= char_views(out@) + Seq::<Seq<char>>::empty());
            return out;
        }
        start = e + 1;
    }
}
// ---------------------------------------------------------------- affixes

/// `s` ends with `suf`.
pub open spec fn has_suffix(s: Seq<char>, suf: Seq<char>) -> bool {
    suf.len() <= s.len() && s.subrange(s.len() - suf.len(), s.len() as int) == suf
}

/// The characters of `a` followed by those of `b`.
pub fn concat(a: &str, b: &str) -> (res: String)
    ensures
        res@ == a@ + b@,
{
    let mut cs = chars_of(a);
    let bs = chars_of(b);
    extend_chars(&mut cs, bs.as_slice());
    string_of(cs.as_slice())
}

/// Whether `s` ends with `suf`.
pub fn ends_with(s: &str, suf: &str) -> (b: bool)
    ensures
        b == has_suffix(s@, suf@),
{
    let cs = chars_of(s);
    let ss = chars_of(suf);
    if ss.len() > cs.len() {
        return false;
    }
    let off = cs.len() - ss.len();
    let mut i: usize = 0;
    while i < ss.len()
        invariant
            cs@ == s@,
            ss@ == suf@,
            ss@.len() <= cs@.len() <= usize::MAX,
            off + ss@.len() == cs@.len(),
            i <= ss@.len(),
            forall|k: int| 0 <= k < i ==> cs@[off + k] == ss@[k],
        decreases ss@.len() - i,
    {
        if cs[off + i] != ss[i] {
            assert(s@.subrange(off as int, s@.len() as int)[i as int] != suf@[i as int]);
            return false;
        }
        i = i + 1;
    }
    assert(s@.subrange(off as int, s@.len() as int) =~= suf@);
    true
}

} // verus!

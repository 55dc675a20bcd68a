//! Choosing which model files to fetch or check, naming where they come
//! from, and tallying a check of files already on disk.
use vstd::prelude::*;
use crate::backend::{strip_trailing_slashes, trim_trailing_slashes};
use vstd::string::StringExecFns;
use crate::text::{chars_of, string_of, parse_u64, parse_u64_spec, concat, decimal, push_decimal, extend_chars};

verus! {

// ----------------------------------------------------------- file lists

/// A file of a model repository, with its SHA-256 when the hub knows it.
#[derive(Debug)]
pub struct FileInfo {
    pub filename: String,
    pub sha256: Option<String>,
}

/// Name and checksum of a file.
pub open spec fn file_view(f: FileInfo) -> (Seq<char>, Option<Seq<char>>) {
    (f.filename@, match f.sha256 { Some(s) => Some(s@), None => None })
}

pub open spec fn file_views(s: Seq<FileInfo>) -> Seq<(Seq<char>, Option<Seq<char>>)> {
    s.map_values(|f: FileInfo| file_view(f))
}

impl FileInfo {
    pub fn duplicate(&self) -> (f: FileInfo)
        ensures
            file_view(f) == file_view(*self),
    {
        FileInfo {
            filename: self.filename.clone(),
            sha256: match &self.sha256 {
                Some(s) => Some(s.clone()),
                None => None,
            },
        }
    }
}

pub open spec fn safetensors_suffix() -> Seq<char> {
    seq!['.', 's', 'a', 'f', 'e', 't', 'e', 'n', 's', 'o', 'r', 's']
}

/// The file holds model weights: its name ends in `.safetensors`.
pub open spec fn is_weights(name: Seq<char>) -> bool {
    name.len() >= 12 && name.skip(name.len() - 12) == safetensors_suffix()
}

/// The files of `s` that hold weights (`weights == true`) or the others,
/// in order.
pub open spec fn split_files<A>(s: Seq<(Seq<char>, A)>, weights: bool) -> Seq<(Seq<char>, A)>
    decreases s.len(),
{
    if s.len() == 0 {
        Seq::empty()
    } else if is_weights(s.last().0) == weights {
        split_files(s.drop_last(), weights).push(s.last())
    } else {
        split_files(s.drop_last(), weights)
    }
}

/// `ceil(n / parts)`.
pub open spec fn div_ceil(n: int, parts: int) -> int {
    if n % parts == 0 { n / parts } else { n / parts + 1 }
}

/// The part of `s` a worker takes: from `offset`, `count` items, or all the
/// rest when `count` is zero.
pub open spec fn window<A>(s: Seq<A>, offset: int, count: int) -> Seq<A> {
    let rest = if offset <= s.len() { s.skip(offset) } else { Seq::empty() };
    if count > 0 && count < rest.len() { rest.take(count) } else { rest }
}

/// The weight files of role `current` out of `total`: an equal share of
/// `ceil(n / total)` files, in order.
pub open spec fn role_share<A>(w: Seq<A>, current: int, total: int) -> Seq<A> {
    let chunk = div_ceil(w.len() as int, total);
    window(w, (current - 1) * chunk, chunk)
}

/// The files a worker handles. With a role `(current, total)`, role 1 takes
/// every non-weight file and each role its share of the weight files;
/// without one, the `offset`/`count` window of the whole list: the first
/// `offset` files are skipped and `count` files taken (all the rest when
/// `count` is zero). A target, when given, keeps only the files so named.
pub open spec fn selected_files<A>(
    files: Seq<(Seq<char>, A)>,
    role: Option<(usize, usize)>,
    offset: int,
    count: int,
    target: Option<Seq<char>>,
) -> Seq<(Seq<char>, A)> {
    let chosen = match role {
        Some((cur, total)) => {
            let others = split_files(files, false);
            (if cur == 1 { others } else { Seq::empty() }) + role_share(split_files(files, true), cur as int, total as int)
        },
        None => window(files, offset, count),
    };
    match target {
        Some(t) => keep_named(chosen, t),
        None => chosen,
    }
}

/// The items of `s` named `t`, in order.
pub open spec fn keep_named<A>(s: Seq<(Seq<char>, A)>, t: Seq<char>) -> Seq<(Seq<char>, A)>
    decreases s.len(),
{
    if s.len() == 0 {
        Seq::empty()
    } else if s.last().0 == t {
        keep_named(s.drop_last(), t).push(s.last())
    } else {
        keep_named(s.drop_last(), t)
    }
}

/// Role arguments are usable: `1 <= current <= total`, and the share's
/// offset fits `usize`.
pub open spec fn role_ok(files: Seq<(Seq<char>, Option<Seq<char>>)>, role: Option<(usize, usize)>) -> bool {
    role matches Some((cur, total)) ==> {
        &&& 1 <= cur <= total
        &&& (cur - 1) * div_ceil(split_files(files, true).len() as int, total as int) <= usize::MAX
    }
}

fn ends_with_safetensors(name: &String) -> (b: bool)
    ensures
        b == is_weights(name@),
{
    let cs = chars_of(name.as_str());
    let n = cs.len();
    if n < 12 {
        return false;
    }
    let b = cs[n - 12] == '.' && cs[n - 11] == 's' && cs[n - 10] == 'a' && cs[n - 9] == 'f'
        && cs[n - 8] == 'e' && cs[n - 7] == 't' && cs[n - 6] == 'e' && cs[n - 5] == 'n'
        && cs[n - 4] == 's' && cs[n - 3] == 'o' && cs[n - 2] == 'r' && cs[n - 1] == 's';
    assert(b == (cs@.skip(n - 12) =~= safetensors_suffix()));
    b
}

/// Copies of the files that hold weights (or the others), in order.
fn split_file_list(files: &Vec<FileInfo>, weights: bool) -> (res: Vec<FileInfo>)
    ensures
        file_views(res@) == split_files(file_views(files@), weights),
{
    let mut res: Vec<FileInfo> = Vec::new();
    let mut i: usize = 0;
    while i < files.len()
        invariant
            i <= files@.len(),
            file_views(res@) == split_files(file_views(files@).take(i as int), weights),
        decreases files@.len() - i,
    {
        let ghost prev = res@;
        assert(file_views(files@).take(i + 1).drop_last() =~= file_views(files@).take(i as int));
        assert(file_views(files@).take(i + 1).last() == file_view(files@[i as int]));
        if ends_with_safetensors(&files[i].filename) == weights {
            let f = files[i].duplicate();
            res.push(f);
            assert(file_views(res@) =~= file_views(prev).push(file_view(f)));
        }
        i = i + 1;
    }
    assert(file_views(files@).take(i as int) =~= file_views(files@));
    res
}

/// Appends copies of `src[from..to]` to `out`.
fn append_files(out: &mut Vec<FileInfo>, src: &Vec<FileInfo>, from: usize, to: usize)
    requires
        from <= to <= src@.len(),
    ensures
        file_views(final(out)@) == file_views(old(out)@) + file_views(src@).subrange(from as int, to as int),
{
    let mut i = from;
    while i < to
        invariant
            from <= i <= to <= src@.len(),
            file_views(out@) == file_views(old(out)@) + file_views(src@).subrange(from as int, i as int),
        decreases to - i,
    {
        let f = src[i].duplicate();
        let ghost prev = out@;
        out.push(f);
        assert(file_views(out@) =~= file_views(prev).push(file_view(f)));
        i = i + 1;
        assert(file_views(out@) =~= file_views(old(out)@) + file_views(src@).subrange(from as int, i as int));
    }
}


/// Appends copies of the `offset`/`count` window of `src` to `out`.
fn append_window(out: &mut Vec<FileInfo>, src: &Vec<FileInfo>, offset: usize, count: usize)
    ensures
        file_views(final(out)@) == file_views(old(out)@) + window(file_views(src@), offset as int, count as int),
{
    let n = src.len();
    let start = if offset <= n { offset } else { n };
    let end = if count > 0 && count < n - start { start + count } else { n };
    append_files(out, src, start, end);
    proof {
        let v = file_views(src@);
        let rest = if offset <= n { v.skip(offset as int) } else { Seq::empty() };
        assert(rest =~= v.subrange(start as int, n as int));
        assert(window(v, offset as int, count as int) =~= v.subrange(start as int, end as int));
    }
}

/// Whether [`select_files`] may be asked about these files and this role.
pub fn role_fits(files: &Vec<FileInfo>, role: Option<(usize, usize)>) -> (b: bool)
    ensures
        b == role_ok(file_views(files@), role),
{
    match role {
        None => true,
        Some((cur, total)) => {
            if cur < 1 || cur > total {
                return false;
            }
            let n = split_file_list(files, true).len();
            proof {
                assert(n % total != 0 ==> n / total + 1 <= n) by (nonlinear_arith)
                    requires total >= 1;
            }
            let chunk = if n % total == 0 { n / total } else { n / total + 1 };
            match (cur - 1).checked_mul(chunk) {
                Some(_) => true,
                None => false,
            }
        },
    }
}

/// Chooses the files a worker downloads or checks; see [`selected_files`].
pub fn select_files(
    files: &Vec<FileInfo>,
    role: Option<(usize, usize)>,
    offset: usize,
    count: usize,
    target: Option<&str>,
) -> (res: Vec<FileInfo>)
    requires
        role_ok(file_views(files@), role),
    ensures
        file_views(res@) == selected_files(file_views(files@), role, offset as int, count as int,
            match target { Some(t) => Some(t@), None => None }),
{
    let mut chosen: Vec<FileInfo> = Vec::new();
    match role {
        Some((current, total)) => {
            let weights = split_file_list(files, true);
            let ghost w = file_views(weights@);
            if current == 1 {
                let others = split_file_list(files, false);
                append_files(&mut chosen, &others, 0, others.len());
                assert(file_views(others@).subrange(0, others@.len() as int) =~= file_views(others@));
            }
            let ghost before = file_views(chosen@);
            let n = weights.len();
            assert(n % total != 0 ==> total >= 2);
            assert(total >= 2 ==> n / total <= n / 2) by {
                if total >= 2 {
                    vstd::arithmetic::div_mod::lemma_div_is_ordered_by_denominator(n as int, 2, total as int);
                }
            }
            let chunk = if n % total == 0 { n / total } else { n / total + 1 };
            let off = (current - 1) * chunk;
            append_window(&mut chosen, &weights, off, chunk);
            proof {
                if current == 1 {
                    assert(before == split_files(file_views(files@), false));
                } else {
                    assert(before =~= Seq::<(Seq<char>, Option<Seq<char>>)>::empty());
                }
            }
        },
        None => {
            append_window(&mut chosen, files, offset, count);
            assert(file_views(chosen@) =~= window(file_views(files@), offset as int, count as int));
        },
    }
    match target {
        None => chosen,
        Some(t) => {
            let key = t.to_owned();
            let mut res: Vec<FileInfo> = Vec::new();
            let mut i: usize = 0;
            while i < chosen.len()
                invariant
                    i <= chosen@.len(),
                    key@ == t@,
                    file_views(res@) == keep_named(file_views(chosen@).take(i as int), t@),
                decreases chosen@.len() - i,
            {
                let ghost prev = res@;
                assert(file_views(chosen@).take(i + 1).drop_last() =~= file_views(chosen@).take(i as int));
                assert(file_views(chosen@).take(i + 1).last() == file_view(chosen@[i as int]));
                if chosen[i].filename == key {
                    let f = chosen[i].duplicate();
                    res.push(f);
                    assert(file_views(res@) =~= file_views(prev).push(file_view(f)));
                }
                i = i + 1;
            }
            assert(file_views(chosen@).take(i as int) =~= file_views(chosen@));
            res
        },
    }
}


/// The files that roles `1..=k` out of `total` handle, role after role.
pub open spec fn roles_upto<A>(files: Seq<(Seq<char>, A)>, total: int, k: int) -> Seq<(Seq<char>, A)>
    decreases k,
{
    if k <= 0 {
        Seq::empty()
    } else {
        roles_upto(files, total, k - 1) + selected_files(files, Some(((k as usize), (total as usize))), 0, 0, None)
    }
}

proof fn lemma_div_ceil(n: int, t: int)
    requires
        n >= 0,
        t >= 1,
    ensures
        div_ceil(n, t) * t >= n,
        n > 0 ==> div_ceil(n, t) >= 1,
        div_ceil(n, t) >= 0,
{
    vstd::arithmetic::div_mod::lemma_fundamental_div_mod(n, t);
    vstd::arithmetic::div_mod::lemma_div_pos_is_pos(n, t);
    let q = n / t;
    let r = n % t;
    assert(0 <= r < t);
    assert(n == t * q + r);
    if r == 0 {
        assert(q * t >= n) by (nonlinear_arith)
            requires n == t * q + r, r == 0;
        if n > 0 {
            assert(q >= 1) by (nonlinear_arith)
                requires n == t * q, n > 0, t >= 1;
        }
    } else {
        assert((q + 1) * t >= n) by (nonlinear_arith)
            requires n == t * q + r, r < t;
    }
}

proof fn lemma_share_is_slice<A>(w: Seq<A>, k: int, total: int)
    requires
        1 <= k,
        total >= 1,
        w.len() > 0,
    ensures ({
        let c = div_ceil(w.len() as int, total);
        let lo = if (k - 1) * c <= w.len() { (k - 1) * c } else { w.len() as int };
        let hi = if k * c <= w.len() { k * c } else { w.len() as int };
        role_share(w, k, total) == w.subrange(lo, hi)
    }),
{
    let n = w.len() as int;
    let c = div_ceil(n, total);
    lemma_div_ceil(n, total);
    assert(k * c == (k - 1) * c + c) by (nonlinear_arith);
    assert((k - 1) * c >= 0) by (nonlinear_arith)
        requires k >= 1, c >= 0;
    let off = (k - 1) * c;
    if off <= n {
        let rest = w.skip(off);
        if c < rest.len() {
            assert(rest.take(c) =~= w.subrange(off, off + c));
        } else {
            assert(rest =~= w.subrange(off, n));
        }
    } else {
        assert(w.subrange(n, n) =~= Seq::<A>::empty());
    }
}

proof fn lemma_shares_prefix<A>(w: Seq<A>, total: int, k: int)
    requires
        0 <= k <= total,
        total >= 1,
        w.len() > 0,
    ensures ({
        let c = div_ceil(w.len() as int, total);
        let hi = if k * c <= w.len() { k * c } else { w.len() as int };
        shares_upto(w, total, k) == w.take(hi)
    }),
    decreases k,
{
    let n = w.len() as int;
    let c = div_ceil(n, total);
    lemma_div_ceil(n, total);
    if k == 0 {
        assert(k * c == 0) by (nonlinear_arith)
            requires k == 0;
        assert(w.take(0) =~= Seq::<A>::empty());
    } else {
        lemma_shares_prefix(w, total, k - 1);
        assert(shares_upto(w, total, k) == shares_upto(w, total, k - 1) + role_share(w, k, total));
        lemma_share_is_slice(w, k, total);
        assert(k * c == (k - 1) * c + c) by (nonlinear_arith);
        assert((k - 1) * c >= 0) by (nonlinear_arith)
            requires k >= 1, c >= 0;
        let lo = if (k - 1) * c <= n { (k - 1) * c } else { n };
        let hi = if k * c <= n { k * c } else { n };
        assert(w.take(lo) + w.subrange(lo, hi) =~= w.take(hi));
    }
}

/// Role shares `1..=k` of the weight files `w`, concatenated.
pub open spec fn shares_upto<A>(w: Seq<A>, total: int, k: int) -> Seq<A>
    decreases k,
{
    if k <= 0 {
        Seq::empty()
    } else {
        shares_upto(w, total, k - 1) + role_share(w, k, total)
    }
}

/// Splitting a role's work into `total` shares loses no weight file and
/// repeats none: the shares of roles `1..=total`, in order, are the weight
/// files.
pub proof fn law_shares_cover_weights<A>(w: Seq<A>, total: int)
    requires
        total >= 1,
    ensures
        shares_upto(w, total, total) == w,
{
    if w.len() == 0 {
        assert forall|k: int| 0 <= k <= total implies #[trigger] shares_upto(w, total, k) == w by {
            lemma_empty_shares(w, total, k);
        }
    } else {
        lemma_shares_prefix(w, total, total);
        let c = div_ceil(w.len() as int, total);
        lemma_div_ceil(w.len() as int, total);
        assert(total * c >= w.len()) by (nonlinear_arith)
            requires c * total >= w.len();
        assert(w.take(w.len() as int) =~= w);
    }
}

proof fn lemma_empty_shares<A>(w: Seq<A>, total: int, k: int)
    requires
        w.len() == 0,
        total >= 1,
        k >= 0,
    ensures
        shares_upto(w, total, k) == w,
    decreases k,
{
    if k > 0 {
        lemma_empty_shares(w, total, k - 1);
        assert(w.skip(0) =~= w);
        assert(shares_upto(w, total, k) =~= w);
    }
}

/// Roles `1..=k` handle every non-weight file once (in role 1) followed by
/// the shares of the weight files.
proof fn lemma_roles_upto<A>(files: Seq<(Seq<char>, A)>, total: int, k: int)
    requires
        1 <= k <= total,
        total <= usize::MAX,
    ensures
        roles_upto(files, total, k) == split_files(files, false) + shares_upto(split_files(files, true), total, k),
    decreases k,
{
    let others = split_files(files, false);
    let w = split_files(files, true);
    if k == 1 {
        assert(roles_upto(files, total, 0) =~= Seq::<(Seq<char>, A)>::empty());
        assert(shares_upto(w, total, 0) =~= Seq::<(Seq<char>, A)>::empty());
        assert(roles_upto(files, total, 1) =~= others + role_share(w, 1, total));
        assert(shares_upto(w, total, 1) =~= role_share(w, 1, total));
    } else {
        lemma_roles_upto(files, total, k - 1);
        assert(((k as usize) as int) == k);
        assert(selected_files(files, Some(((k as usize), (total as usize))), 0, 0, None)
            =~= role_share(w, k, total));
        assert(roles_upto(files, total, k) =~= others + shares_upto(w, total, k));
    }
}

/// The workers of a split download, roles `1..=total`, together handle
/// every file of the repository exactly once: the non-weight files, then
/// all the weight files.
pub proof fn law_roles_cover_all_files<A>(files: Seq<(Seq<char>, A)>, total: int)
    requires
        1 <= total <= usize::MAX,
    ensures
        roles_upto(files, total, total) == split_files(files, false) + split_files(files, true),
{
    lemma_roles_upto(files, total, total);
    law_shares_cover_weights(split_files(files, true), total);
}

/// Workers given adjoining `offset`/`count` ranges (no role) split the file
/// list between them: the files of `offset, a` followed by those of
/// `offset + a, b` are the files of `offset, a + b`, or of everything from
/// `offset` on when `b` is zero.
pub proof fn law_windows_adjoin<A>(files: Seq<(Seq<char>, A)>, offset: int, a: int, b: int)
    requires
        offset >= 0,
        a > 0,
        b >= 0,
    ensures
        selected_files(files, None, offset, a, None) + selected_files(files, None, offset + a, b, None)
            == selected_files(files, None, offset, if b == 0 { 0 } else { a + b }, None),
{
    let n = files.len() as int;
    let lo = if offset <= n { offset } else { n };
    let mid = if a < n - lo { lo + a } else { n };
    let hi = if b > 0 && b < n - mid { mid + b } else { n };
    assert(window(files, offset, a) =~= files.subrange(lo, mid));
    assert(window(files, offset + a, b) =~= files.subrange(mid, hi));
    assert(window(files, offset, if b == 0 { 0 } else { a + b }) =~= files.subrange(lo, hi));
    assert(files.subrange(lo, mid) + files.subrange(mid, hi) =~= files.subrange(lo, hi));
}

// ------------------------------------------------------------ checking

/// What checking one file found.
#[derive(Debug, Clone, Copy, PartialEq, Eq, Structural)]
pub enum FileStatus {
    /// Not on disk.
    Missing,
    /// On disk, with the expected checksum.
    Verified,
    /// On disk, with another checksum.
    Corrupted,
    /// On disk, but its checksum could not be computed.
    HashFailed,
    /// On disk; the hub lists no checksum for it.
    NoChecksum,
}

/// The finding for a file that is (or is not) `on_disk`, whose expected
/// checksum is `expected` and whose computed one is `computed`.
pub open spec fn file_status(on_disk: bool, expected: Option<Seq<char>>, computed: Option<Seq<char>>) -> FileStatus {
    if !on_disk {
        FileStatus::Missing
    } else {
        match expected {
            None => FileStatus::NoChecksum,
            Some(e) => match computed {
                None => FileStatus::HashFailed,
                Some(a) => if a == e { FileStatus::Verified } else { FileStatus::Corrupted },
            },
        }
    }
}

/// Outcome of checking the files of a model against the hub's list.
#[derive(Debug)]
pub struct CheckResult {
    pub total: usize,
    pub missing: Vec<String>,
    pub corrupted: Vec<String>,
    pub verified: usize,
    pub no_checksum: usize,
}

impl CheckResult {
    /// A check of `total` files that has looked at none yet.
    pub fn new(total: usize) -> (r: CheckResult)
        ensures
            r.total == total,
            r.missing@.len() == 0,
            r.corrupted@.len() == 0,
            r.verified == 0,
            r.no_checksum == 0,
    {
        CheckResult { total, missing: Vec::new(), corrupted: Vec::new(), verified: 0, no_checksum: 0 }
    }

    /// No file is missing or corrupted.
    pub fn is_ok(&self) -> (b: bool)
        ensures
            b == (self.missing@.len() == 0 && self.corrupted@.len() == 0),
    {
        self.missing.len() == 0 && self.corrupted.len() == 0
    }

    /// Records a file that is not on disk.
    pub fn record_missing(&mut self, filename: &str)
        ensures
            final(self).missing@.map_values(|s: String| s@) == old(self).missing@.map_values(|s: String| s@).push(filename@),
            final(self).corrupted@ == old(self).corrupted@,
            final(self).verified == old(self).verified,
            final(self).no_checksum == old(self).no_checksum,
            final(self).total == old(self).total,
    {
        self.missing.push(filename.to_owned());
        assert(self.missing@.map_values(|s: String| s@) =~= old(self).missing@.map_values(|s: String| s@).push(filename@));
    }

    /// Records a file present on disk whose checksum could not be compared
    /// (the hub lists none, or computing it failed).
    pub fn record_unchecked(&mut self)
        requires
            old(self).no_checksum < usize::MAX,
        ensures
            final(self).no_checksum == old(self).no_checksum + 1,
            final(self).missing@ == old(self).missing@,
            final(self).corrupted@ == old(self).corrupted@,
            final(self).verified == old(self).verified,
            final(self).total == old(self).total,
    {
        self.no_checksum = self.no_checksum + 1;
    }

    /// Records a file whose SHA-256 (lowercase hex) was computed: verified
    /// when it equals the expected one, corrupted otherwise. Returns whether
    /// it matched.
    pub fn record_digest(&mut self, filename: &str, actual: &str, expected: &str) -> (ok: bool)
        requires
            old(self).verified < usize::MAX,
        ensures
            ok == (actual@ == expected@),
            ok ==> final(self).verified == old(self).verified + 1 && final(self).corrupted@ == old(self).corrupted@,
            !ok ==> final(self).verified == old(self).verified
                && final(self).corrupted@.map_values(|s: String| s@) == old(self).corrupted@.map_values(|s: String| s@).push(filename@),
            final(self).missing@ == old(self).missing@,
            final(self).no_checksum == old(self).no_checksum,
            final(self).total == old(self).total,
    {
        let a = actual.to_owned();
        let e = expected.to_owned();
        if a == e {
            self.verified = self.verified + 1;
            true
        } else {
            self.corrupted.push(filename.to_owned());
            assert(self.corrupted@.map_values(|s: String| s@) =~= old(self).corrupted@.map_values(|s: String| s@).push(filename@));
            false
        }
    }

    /// Files looked at so far: verified, without checksum, missing or
    /// corrupted.
    pub open spec fn tally(&self) -> int {
        self.verified + self.no_checksum + self.missing@.len() + self.corrupted@.len()
    }

    /// Records the check of one file: `on_disk` says whether it exists,
    /// `expected` is the checksum the hub lists, `computed` the one computed
    /// from the file (`None` when computing it failed). Each file counts
    /// once, so a check of every listed file tallies to `total`.
    pub fn record_file(&mut self, filename: &str, on_disk: bool, expected: Option<&str>, computed: Option<&str>) -> (st: FileStatus)
        requires
            old(self).tally() < old(self).total,
        ensures
            st == file_status(on_disk, match expected { Some(e) => Some(e@), None => None },
                match computed { Some(a) => Some(a@), None => None }),
            final(self).tally() == old(self).tally() + 1,
            final(self).total == old(self).total,
            st == FileStatus::Missing ==> final(self).missing@.map_values(|s: String| s@)
                == old(self).missing@.map_values(|s: String| s@).push(filename@),
            st != FileStatus::Missing ==> final(self).missing@ == old(self).missing@,
            st == FileStatus::Corrupted ==> final(self).corrupted@.map_values(|s: String| s@)
                == old(self).corrupted@.map_values(|s: String| s@).push(filename@),
            st != FileStatus::Corrupted ==> final(self).corrupted@ == old(self).corrupted@,
            final(self).verified == old(self).verified + (if st == FileStatus::Verified { 1int } else { 0 }),
            final(self).no_checksum == old(self).no_checksum
                + (if st == FileStatus::HashFailed || st == FileStatus::NoChecksum { 1int } else { 0 }),
    {
        let ghost m0 = self.missing@;
        let ghost c0 = self.corrupted@;
        if !on_disk {
            self.record_missing(filename);
            assert(self.missing@.len() == self.missing@.map_values(|s: String| s@).len());
            assert(m0.len() == m0.map_values(|s: String| s@).len());
            return FileStatus::Missing;
        }
        match expected {
            None => {
                self.record_unchecked();
                FileStatus::NoChecksum
            },
            Some(e) => match computed {
                None => {
                    self.record_unchecked();
                    FileStatus::HashFailed
                },
                Some(a) => {
                    if self.record_digest(filename, a, e) {
                        FileStatus::Verified
                    } else {
                        assert(self.corrupted@.len() == self.corrupted@.map_values(|s: String| s@).len());
                        assert(c0.len() == c0.map_values(|s: String| s@).len());
                        FileStatus::Corrupted
                    }
                },
            },
        }
    }
}

/// One `  - name` line per name, in order.
pub open spec fn name_list(names: Seq<Seq<char>>) -> Seq<char>
    decreases names.len(),
{
    if names.len() == 0 {
        Seq::empty()
    } else {
        name_list(names.drop_last()) + "  - "@ + names.last() + "\n"@
    }
}

/// The names recorded in `v`.
pub open spec fn names_of(v: Seq<String>) -> Seq<Seq<char>> {
    v.map_values(|s: String| s@)
}

/// The summary printed after a check: the counts, the missing and the
/// corrupted files by name, and a closing verdict line.
pub open spec fn check_summary(r: CheckResult) -> Seq<char> {
    let m = names_of(r.missing@);
    let c = names_of(r.corrupted@);
    "\n=== Check Summary ===\n"@
        + "Total files: "@ + decimal(r.total as nat) + "\n"@
        + "Verified (SHA256): "@ + decimal(r.verified as nat) + "\n"@
        + "No checksum available: "@ + decimal(r.no_checksum as nat) + "\n"@
        + "Missing: "@ + decimal(m.len()) + "\n"@
        + "Corrupted: "@ + decimal(c.len()) + "\n"@
        + (if m.len() > 0 { "\nMissing files:\n"@ + name_list(m) } else { Seq::empty() })
        + (if c.len() > 0 { "\nCorrupted files:\n"@ + name_list(c) } else { Seq::empty() })
        + (if m.len() == 0 && c.len() == 0 {
            "\n\u{2713} All files present and verified\n"@
        } else {
            "\n\u{2717} Some files are missing or corrupted\n"@
        })
}

/// Appends the characters of `s`.
fn push_str(out: &mut Vec<char>, s: &str)
    ensures
        final(out)@ == old(out)@ + s@,
{
    let cs = chars_of(s);
    extend_chars(out, cs.as_slice());
}

/// Appends a `  - name` line for each of `names`.
fn push_name_list(out: &mut Vec<char>, names: &Vec<String>)
    ensures
        final(out)@ == old(out)@ + name_list(names_of(names@)),
{
    let mut i: usize = 0;
    while i < names.len()
        invariant
            i <= names@.len(),
            out@ == old(out)@ + name_list(names_of(names@).take(i as int)),
        decreases names@.len() - i,
    {
        let ghost before = out@;
        push_str(out, "  - ");
        push_str(out, names[i].as_str());
        push_str(out, "\n");
        proof {
            let t = names_of(names@).take(i + 1);
            assert(t.drop_last() =~= names_of(names@).take(i as int));
            assert(t.last() == names@[i as int]@);
            assert(out@ =~= old(out)@ + name_list(t));
        }
        i = i + 1;
    }
    assert(names_of(names@).take(i as int) =~= names_of(names@));
}

impl CheckResult {
    /// The text [`check_summary`] describes.
    pub fn summary(&self) -> (res: String)
        ensures
            res@ == check_summary(*self),
    {
        let mut out: Vec<char> = Vec::new();
        push_str(&mut out, "\n=== Check Summary ===\n");
        push_str(&mut out, "Total files: ");
        push_decimal(&mut out, self.total as u64);
        push_str(&mut out, "\n");
        push_str(&mut out, "Verified (SHA256): ");
        push_decimal(&mut out, self.verified as u64);
        push_str(&mut out, "\n");
        push_str(&mut out, "No checksum available: ");
        push_decimal(&mut out, self.no_checksum as u64);
        push_str(&mut out, "\n");
        push_str(&mut out, "Missing: ");
        push_decimal(&mut out, self.missing.len() as u64);
        push_str(&mut out, "\n");
        push_str(&mut out, "Corrupted: ");
        push_decimal(&mut out, self.corrupted.len() as u64);
        push_str(&mut out, "\n");
        let ghost head = out@;
        if self.missing.len() > 0 {
            push_str(&mut out, "\nMissing files:\n");
            push_name_list(&mut out, &self.missing);
        }
        let ghost mid = out@;
        if self.corrupted.len() > 0 {
            push_str(&mut out, "\nCorrupted files:\n");
            push_name_list(&mut out, &self.corrupted);
        }
        let ghost tail = out@;
        if self.missing.len() == 0 && self.corrupted.len() == 0 {
            push_str(&mut out, "\n\u{2713} All files present and verified\n");
        } else {
            push_str(&mut out, "\n\u{2717} Some files are missing or corrupted\n");
        }
        proof {
            let m = names_of(self.missing@);
            let c = names_of(self.corrupted@);
            assert(m.len() == self.missing@.len());
            assert(c.len() == self.corrupted@.len());
            let mp = if m.len() > 0 { "\nMissing files:\n"@ + name_list(m) } else { Seq::<char>::empty() };
            let cp = if c.len() > 0 { "\nCorrupted files:\n"@ + name_list(c) } else { Seq::<char>::empty() };
            assert(mid =~= head + mp);
            assert(tail =~= head + mp + cp);
        }
        assert(out@ =~= check_summary(*self));
        string_of(out.as_slice())
    }
}

pub open spec fn hex_digit(v: int) -> char {
    if v < 10 { (('0' as int) + v) as char } else { (('a' as int) + v - 10) as char }
}

/// `bytes` as lowercase hexadecimal, two digits per byte, as `hex::encode`
/// writes them.
pub open spec fn hex_lower(bytes: Seq<u8>) -> Seq<char>
    decreases bytes.len(),
{
    if bytes.len() == 0 {
        Seq::empty()
    } else {
        hex_lower(bytes.drop_last()) + seq![hex_digit((bytes.last() / 16) as int), hex_digit((bytes.last() % 16) as int)]
    }
}

fn hex_char(v: u8) -> (c: char)
    requires
        v < 16,
    ensures
        c == hex_digit(v as int),
{
    if v < 10 {
        crate::text::char_of_digit(v as u32)
    } else if v == 10 { 'a' }
    else if v == 11 { 'b' }
    else if v == 12 { 'c' }
    else if v == 13 { 'd' }
    else if v == 14 { 'e' }
    else { 'f' }
}

/// Lowercase hexadecimal text of `bytes`, such as a digest.
pub fn to_hex(bytes: &[u8]) -> (res: String)
    ensures
        res@ == hex_lower(bytes@),
{
    let mut out: Vec<char> = Vec::new();
    let mut i: usize = 0;
    while i < bytes.len()
        invariant
            i <= bytes@.len(),
            out@ == hex_lower(bytes@.take(i as int)),
        decreases bytes@.len() - i,
    {
        let b = bytes[i];
        out.push(hex_char(b / 16));
        out.push(hex_char(b % 16));
        assert(bytes@.take(i + 1).drop_last() =~= bytes@.take(i as int));
        i = i + 1;
        assert(out@ =~= hex_lower(bytes@.take(i as int)));
    }
    assert(bytes@.take(i as int) =~= bytes@);
    string_of(out.as_slice())
}

// ------------------------------------------------------------ checksums

/// A SHA-256 computation in progress (a `sha2::Sha256` hasher), fed a
/// file's bytes chunk by chunk.
///
/// Trusted: the hasher's state is hidden; what it has been fed is given by
/// [`sha256_absorbed`], which the trusted functions below keep up to date.
#[verifier::external_body]
pub struct Sha256State {
    h: sha2::Sha256,
}

/// The bytes a hasher has been fed, in order.
pub uninterp spec fn sha256_absorbed(s: Sha256State) -> Seq<u8>;

/// The SHA-256 digest of `bytes` (FIPS 180-4), 32 bytes.
pub uninterp spec fn sha256_of(bytes: Seq<u8>) -> Seq<u8>;

/// `sha2::Sha256::new()`: a hasher that has been fed nothing.
#[verifier::external_body]
fn sha256_start() -> (s: Sha256State)
    ensures
        sha256_absorbed(s) == Seq::<u8>::empty(),
{
    Sha256State { h: <sha2::Sha256 as sha2::Digest>::new() }
}

/// `sha2::Digest::update`: feeds `data` after what the hasher has had.
#[verifier::external_body]
fn sha256_absorb(s: &mut Sha256State, data: &[u8])
    ensures
        sha256_absorbed(*final(s)) == sha256_absorbed(*old(s)) + data@,
{
    sha2::Digest::update(&mut s.h, data)
}

/// `sha2::Digest::finalize`: the 32-byte digest of all that was fed.
#[verifier::external_body]
fn sha256_digest(s: Sha256State) -> (d: Vec<u8>)
    ensures
        d@ == sha256_of(sha256_absorbed(s)),
        d@.len() == 32,
{
    sha2::Digest::finalize(s.h).to_vec()
}

impl View for Sha256State {
    type V = Seq<u8>;

    open spec fn view(&self) -> Seq<u8> {
        sha256_absorbed(*self)
    }
}

impl Sha256State {
    /// A checksum of nothing yet.
    pub fn new() -> (s: Sha256State)
        ensures
            s@ == Seq::<u8>::empty(),
    {
        sha256_start()
    }

    /// Takes in the next chunk of a file.
    pub fn update(&mut self, chunk: &[u8])
        ensures
            final(self)@ == old(self)@ + chunk@,
    {
        sha256_absorb(self, chunk)
    }

    /// The SHA-256 of everything taken in, as 64 lowercase hex digits: the
    /// form the hub lists checksums in, which [`verdict`] compares.
    pub fn finish_hex(self) -> (res: String)
        ensures
            res@ == hex_lower(sha256_of(self@)),
    {
        let d = sha256_digest(self);
        to_hex(d.as_slice())
    }
}

// ----------------------------------------------------------- downloaders

/// Downloads a model repository from the Hugging Face hub.
#[derive(Debug)]
pub struct Downloader {
    pub model_id: String,
    pub revision: String,
    pub dest_dir: String,
    pub proxy: Option<String>,
    pub offset: usize,
    pub count: usize,
    /// `(current, total)`: this worker's share of a split download.
    pub role: Option<(usize, usize)>,
    /// Only this file is checked, when set.
    pub target: Option<String>,
}

fn opt_owned(o: Option<&str>) -> (res: Option<String>)
    ensures
        match o {
            Some(s) => res matches Some(r) && r@ == s@,
            None => res is None,
        },
{
    match o {
        Some(s) => Some(s.to_owned()),
        None => None,
    }
}

impl Downloader {
    pub fn new(model_id: &str, revision: &str, dest_dir: &str, proxy: Option<&str>) -> (d: Downloader)
        ensures
            d.model_id@ == model_id@,
            d.revision@ == revision@,
            d.dest_dir@ == dest_dir@,
            match proxy {
                Some(p) => d.proxy matches Some(q) && q@ == p@,
                None => d.proxy is None,
            },
            d.offset == 0,
            d.count == 0,
            d.role is None,
            d.target is None,
    {
        Downloader {
            model_id: model_id.to_owned(),
            revision: revision.to_owned(),
            dest_dir: dest_dir.to_owned(),
            proxy: opt_owned(proxy),
            offset: 0,
            count: 0,
            role: None,
            target: None,
        }
    }

    /// Address of the repository's file list:
    /// `https://huggingface.co/api/models/{model}/tree/{revision}`.
    pub fn list_url(&self) -> (u: String)
        ensures
            u@ == "https://huggingface.co/api/models/"@ + self.model_id@ + "/tree/"@ + self.revision@,
    {
        let mut u = "https://huggingface.co/api/models/".to_owned();
        u.append(self.model_id.as_str());
        u.append("/tree/");
        u.append(self.revision.as_str());
        u
    }

    /// Address of one file:
    /// `https://huggingface.co/{model}/resolve/{revision}/{file}`.
    pub fn file_url(&self, filename: &str) -> (u: String)
        ensures
            u@ == "https://huggingface.co/"@ + self.model_id@ + "/resolve/"@ + self.revision@ + "/"@ + filename@,
    {
        let mut u = "https://huggingface.co/".to_owned();
        u.append(self.model_id.as_str());
        u.append("/resolve/");
        u.append(self.revision.as_str());
        u.append("/");
        u.append(filename);
        u
    }
}

/// Downloads a model from a hub served by this tool.
#[derive(Debug)]
pub struct HubDownloader {
    pub base_url: String,
    pub model_id: String,
    pub dest_dir: String,
    pub proxy: Option<String>,
    pub offset: usize,
    pub count: usize,
    pub role: Option<(usize, usize)>,
    pub target: Option<String>,
}

impl HubDownloader {
    pub fn new(base_url: &str, model_id: &str, dest_dir: &str, proxy: Option<&str>) -> (d: HubDownloader)
        ensures
            d.base_url@ == trim_trailing_slashes(base_url@),
            d.model_id@ == model_id@,
            d.dest_dir@ == dest_dir@,
            match proxy {
                Some(p) => d.proxy matches Some(q) && q@ == p@,
                None => d.proxy is None,
            },
            d.offset == 0,
            d.count == 0,
            d.role is None,
            d.target is None,
    {
        HubDownloader {
            base_url: strip_trailing_slashes(base_url),
            model_id: model_id.to_owned(),
            dest_dir: dest_dir.to_owned(),
            proxy: opt_owned(proxy),
            offset: 0,
            count: 0,
            role: None,
            target: None,
        }
    }

    /// Address of the model's file list: `{base}/models/{model}`.
    pub fn list_url(&self) -> (u: String)
        ensures
            u@ == self.base_url@ + "/models/"@ + self.model_id@,
    {
        let mut u = concat(self.base_url.as_str(), "/models/");
        u.append(self.model_id.as_str());
        u
    }

    /// Address of one file: `{base}/models/{model}/{file}`.
    pub fn file_url(&self, filename: &str) -> (u: String)
        ensures
            u@ == self.base_url@ + "/models/"@ + self.model_id@ + "/"@ + filename@,
    {
        let mut u = concat(self.base_url.as_str(), "/models/");
        u.append(self.model_id.as_str());
        u.append("/");
        u.append(filename);
        u
    }
}

/// Seconds to wait before the next download attempt: twice the last wait,
/// at most five minutes.
pub fn next_retry_secs(secs: u64) -> (n: u64)
    requires
        secs <= u64::MAX / 2,
    ensures
        n == (if secs * 2 <= 300 { secs * 2 } else { 300 }),
{
    let d = secs * 2;
    if d <= 300 { d } else { 300 }
}

/// Waits between attempts, starting from one second, never exceed five
/// minutes and never shrink below the start.
pub proof fn law_retry_bounded(secs: u64)
    requires
        1 <= secs <= 300,
    ensures
        1 <= (if secs * 2 <= 300 { secs * 2 } else { 300 }) <= 300,
        (if secs * 2 <= 300 { secs * 2 } else { 300 }) >= secs,
{
}

/// Why a role such as `"2/4"` was refused.
#[derive(Debug, PartialEq, Eq)]
pub enum RoleError {
    /// Not of the form `N/M`.
    Format,
    /// The part before `/` is not a number.
    Number(String),
    /// The part after `/` is not a number.
    Total(String),
    /// `N` is zero or larger than `M`.
    OutOfRange(usize, usize),
}

/// The parts of `s` separated by `/`.
pub open spec fn slash_parts(s: Seq<char>) -> Seq<Seq<char>>
    decreases s.len(),
{
    if s.len() == 0 {
        seq![Seq::empty()]
    } else {
        let rest = slash_parts(s.drop_last());
        if s.last() == '/' {
            rest.push(Seq::empty())
        } else {
            rest.update(rest.len() - 1, rest.last().push(s.last()))
        }
    }
}

proof fn lemma_slash_parts_nonempty(s: Seq<char>)
    ensures
        slash_parts(s).len() >= 1,
    decreases s.len(),
{
    if s.len() > 0 {
        lemma_slash_parts_nonempty(s.drop_last());
    }
}

/// What `"N/M"` stands for: `(N, M)` when it is two numbers with
/// `1 <= N <= M`.
pub open spec fn role_spec(s: Seq<char>) -> Result<(usize, usize), ()> {
    let p = slash_parts(s);
    if p.len() != 2 {
        Err(())
    } else {
        match (parse_u64_spec(p[0]), parse_u64_spec(p[1])) {
            (Some(c), Some(t)) => if c <= usize::MAX && t <= usize::MAX && 1 <= c <= t {
                Ok((c as usize, t as usize))
            } else {
                Err(())
            },
            _ => Err(()),
        }
    }
}

/// Reads a worker role `"N/M"`: worker `N` of `M`.
pub fn parse_role(role: &str) -> (res: Result<(usize, usize), RoleError>)
    ensures
        match res {
            Ok(r) => role_spec(role@) == Ok::<(usize, usize), ()>(r),
            Err(RoleError::Format) => slash_parts(role@).len() != 2,
            Err(RoleError::Number(p)) => slash_parts(role@).len() == 2 && p@ == slash_parts(role@)[0]
                && (parse_u64_spec(p@) is None || parse_u64_spec(p@).unwrap() > usize::MAX),
            Err(RoleError::Total(p)) => slash_parts(role@).len() == 2 && p@ == slash_parts(role@)[1]
                && parse_u64_spec(slash_parts(role@)[0]) is Some
                && (parse_u64_spec(p@) is None || parse_u64_spec(p@).unwrap() > usize::MAX),
            Err(RoleError::OutOfRange(c, t)) => role_spec(role@) is Err && slash_parts(role@).len() == 2
                && parse_u64_spec(slash_parts(role@)[0]) == Some(c as u64)
                && parse_u64_spec(slash_parts(role@)[1]) == Some(t as u64),
        },
        res is Ok <==> role_spec(role@) is Ok,
{
    let cs = chars_of(role);
    let mut parts: Vec<Vec<char>> = Vec::new();
    parts.push(Vec::new());
    let mut i: usize = 0;
    while i < cs.len()
        invariant
            i <= cs@.len(),
            parts@.len() >= 1,
            parts@.map_values(|v: Vec<char>| v@) == slash_parts(cs@.take(i as int)),
        decreases cs@.len() - i,
    {
        let ghost prev = parts@.map_values(|v: Vec<char>| v@);
        assert(cs@.take(i + 1).drop_last() =~= cs@.take(i as int));
        if cs[i] == '/' {
            parts.push(Vec::new());
            assert(parts@.map_values(|v: Vec<char>| v@) =~= prev.push(Seq::empty()));
        } else {
            let last = parts.len() - 1;
            let mut piece = parts[last].clone();
            piece.push(cs[i]);
            parts.set(last, piece);
            assert(parts@.map_values(|v: Vec<char>| v@) =~= prev.update(prev.len() - 1, prev.last().push(cs@[i as int])));
        }
        i = i + 1;
    }
    assert(cs@.take(i as int) =~= cs@);
    if parts.len() != 2 {
        return Err(RoleError::Format);
    }
    let current = match parse_u64(parts[0].as_slice()) {
        Some(v) => {
            if v > usize::MAX as u64 {
                return Err(RoleError::Number(string_of(parts[0].as_slice())));
            }
            v as usize
        },
        None => {
            return Err(RoleError::Number(string_of(parts[0].as_slice())));
        },
    };
    let total = match parse_u64(parts[1].as_slice()) {
        Some(v) => {
            if v > usize::MAX as u64 {
                return Err(RoleError::Total(string_of(parts[1].as_slice())));
            }
            v as usize
        },
        None => {
            return Err(RoleError::Total(string_of(parts[1].as_slice())));
        },
    };
    if current == 0 || current > total {
        return Err(RoleError::OutOfRange(current, total));
    }
    Ok((current, total))
}

/// Where a model goes when no directory is given: `./models/` and the model
/// id with `/` replaced by `_`.
pub open spec fn default_model_dir(model_id: Seq<char>) -> Seq<char> {
    seq!['.', '/', 'm', 'o', 'd', 'e', 'l', 's', '/']
        + Seq::new(model_id.len(), |i: int| if model_id[i] == '/' { '_' } else { model_id[i] })
}

pub fn model_dir(model_id: &str) -> (res: String)
    ensures
        res@ == default_model_dir(model_id@),
{
    let cs = chars_of(model_id);
    let mut out: Vec<char> = Vec::new();
    out.push('.');
    out.push('/');
    out.push('m');
    out.push('o');
    out.push('d');
    out.push('e');
    out.push('l');
    out.push('s');
    out.push('/');
    let ghost head = out@;
    let mut i: usize = 0;
    while i < cs.len()
        invariant
            i <= cs@.len(),
            out@ == head + Seq::new(i as nat, |k: int| if cs@[k] == '/' { '_' } else { cs@[k] }),
        decreases cs@.len() - i,
    {
        out.push(if cs[i] == '/' { '_' } else { cs[i] });
        i = i + 1;
        assert(out@ =~= head + Seq::new(i as nat, |k: int| if cs@[k] == '/' { '_' } else { cs@[k] }));
    }
    assert(out@ =~= default_model_dir(model_id@));
    string_of(out.as_slice())
}
// ------------------------------------------------------------ resuming

/// What becomes of a file on disk once its checksum has been looked at.
#[derive(Debug, Clone, Copy, PartialEq, Eq, Structural)]
pub enum Verdict {
    /// The checksum matches the expected one.
    Verified,
    /// Nothing to compare: no checksum is known, or computing it failed.
    Unverified,
    /// The checksum differs: the file is thrown away and fetched again.
    Mismatch,
}

/// The verdict on a file whose expected SHA-256 is `expected` and whose
/// computed one is `computed` (`None` when computing it failed).
pub open spec fn verdict_spec(expected: Option<Seq<char>>, computed: Option<Seq<char>>) -> Verdict {
    match (expected, computed) {
        (Some(e), Some(a)) => if a == e { Verdict::Verified } else { Verdict::Mismatch },
        _ => Verdict::Unverified,
    }
}

pub fn verdict(expected: Option<&str>, computed: Option<&str>) -> (v: Verdict)
    ensures
        v == verdict_spec(
            match expected { Some(e) => Some(e@), None => None },
            match computed { Some(a) => Some(a@), None => None },
        ),
{
    match (expected, computed) {
        (Some(e), Some(a)) => {
            if a.to_owned() == e.to_owned() {
                Verdict::Verified
            } else {
                Verdict::Mismatch
            }
        },
        _ => Verdict::Unverified,
    }
}

/// A partial download of `part_len` bytes, of a file the server says holds
/// `total_size` bytes (zero when it does not say), is complete when it has
/// them all; otherwise downloading resumes at its end.
pub fn part_complete(part_len: u64, total_size: u64) -> (b: bool)
    ensures
        b == (total_size > 0 && part_len >= total_size),
{
    total_size > 0 && part_len >= total_size
}


// ------------------------------------------------------------- retrying

/// How one attempt at fetching a file ended.
#[derive(Debug, Clone, Copy, PartialEq, Eq, Structural)]
pub enum AttemptOutcome {
    /// The transfer finished; its checksum got this verdict.
    Completed(Verdict),
    /// The transfer broke off; the partial file then held `part_len` bytes.
    Failed { part_len: u64 },
}

/// What the fetching loop does next.
#[derive(Debug, Clone, Copy, PartialEq, Eq, Structural)]
pub enum NextAction {
    /// Keep the file and stop.
    Finish,
    /// Sleep `sleep_secs` seconds, delete the partial file first when
    /// `discard_part` holds, and try again from the state's offset.
    Retry { sleep_secs: u64, discard_part: bool },
}

/// Where the next attempt resumes and how long the next failure waits.
#[derive(Debug, Clone, Copy, PartialEq, Eq, Structural)]
pub struct RetryState {
    pub offset: u64,
    pub wait_secs: u64,
}

/// The wait after one that lasted `secs`: doubled, at most five minutes.
pub open spec fn next_wait_spec(secs: int) -> int {
    if secs * 2 <= 300 { secs * 2 } else { 300 }
}

impl RetryState {
    /// The state before the first attempt, which resumes at `offset`.
    pub fn start(offset: u64) -> (s: RetryState)
        ensures
            s.offset == offset,
            s.wait_secs == 1,
    {
        RetryState { offset, wait_secs: 1 }
    }

    /// Takes in how an attempt ended and says what to do. A finished
    /// transfer whose checksum does not match is thrown away and fetched
    /// again from the start; any other finished transfer is kept. A broken
    /// transfer resumes where the partial file ends. Each retry sleeps the
    /// current wait, which then doubles up to five minutes.
    pub fn after(&mut self, outcome: AttemptOutcome) -> (a: NextAction)
        requires
            old(self).wait_secs <= u64::MAX / 2,
        ensures
            match outcome {
                AttemptOutcome::Completed(Verdict::Mismatch) => {
                    &&& a == (NextAction::Retry { sleep_secs: old(self).wait_secs, discard_part: true })
                    &&& final(self).offset == 0
                    &&& final(self).wait_secs == next_wait_spec(old(self).wait_secs as int)
                },
                AttemptOutcome::Completed(_) => {
                    &&& a == NextAction::Finish
                    &&& *final(self) == *old(self)
                },
                AttemptOutcome::Failed { part_len } => {
                    &&& a == (NextAction::Retry { sleep_secs: old(self).wait_secs, discard_part: false })
                    &&& final(self).offset == part_len
                    &&& final(self).wait_secs == next_wait_spec(old(self).wait_secs as int)
                },
            },
    {
        match outcome {
            AttemptOutcome::Completed(Verdict::Mismatch) => {
                let sleep = self.wait_secs;
                self.offset = 0;
                self.wait_secs = next_retry_secs(sleep);
                NextAction::Retry { sleep_secs: sleep, discard_part: true }
            },
            AttemptOutcome::Completed(_) => NextAction::Finish,
            AttemptOutcome::Failed { part_len } => {
                let sleep = self.wait_secs;
                self.offset = part_len;
                self.wait_secs = next_retry_secs(sleep);
                NextAction::Retry { sleep_secs: sleep, discard_part: false }
            },
        }
    }
}

/// The wait that follows `k` failed attempts, from a first wait of one
/// second.
pub open spec fn wait_after(k: nat) -> int
    decreases k,
{
    if k == 0 { 1 } else { next_wait_spec(wait_after((k - 1) as nat)) }
}

/// Waits between attempts grow as 1, 2, 4, ... seconds up to five minutes:
/// after `k` failures the wait is `min(2^k, 300)` seconds.
pub proof fn law_backoff_doubles_to_cap(k: nat)
    ensures
        wait_after(k) == (if vstd::arithmetic::power2::pow2(k) <= 300 { vstd::arithmetic::power2::pow2(k) as int } else { 300 }),
        1 <= wait_after(k) <= 300,
    decreases k,
{
    vstd::arithmetic::power2::lemma_pow2_pos(k);
    if k > 0 {
        law_backoff_doubles_to_cap((k - 1) as nat);
        vstd::arithmetic::power2::lemma_pow2_unfold(k);
    } else {
        vstd::arithmetic::power2::lemma2_to64();
    }
}

} // verus!

//! Serving a models directory over HTTP: which request asks for what, and
//! how a byte range is read.
use vstd::prelude::*;
use crate::text::{
    chars_of, string_of, copy_range, push_decimal, decimal, index_of_from,
    lemma_index_of_from, find_char, parse_u64, parse_u64_spec, lemma_index_past,
};

verus! {

/// What a request under `/models/` asks for.
#[derive(Debug, PartialEq, Eq)]
pub enum HubRoute {
    /// A path with no `/` names no model.
    NotFound,
    /// `{org}/{name}`: the list of the model's files.
    ListFiles,
    /// `{org}/{name}/{file}`: one file of the model.
    ServeFile { model_id: String, file: String },
}

/// The route of `p`: a model id is the text up to the second `/`, a file
/// path whatever follows it.
pub open spec fn route_spec(p: Seq<char>) -> (int, Seq<char>, Seq<char>) {
    let i = index_of_from(p, '/', 0);
    let j = index_of_from(p, '/', i + 1);
    if i >= p.len() {
        (0, Seq::empty(), Seq::empty())
    } else if j >= p.len() {
        (1, Seq::empty(), Seq::empty())
    } else {
        (2, p.subrange(0, i) + seq!['/'] + p.subrange(i + 1, j), p.subrange(j + 1, p.len() as int))
    }
}

pub open spec fn route_view(r: HubRoute) -> (int, Seq<char>, Seq<char>) {
    match r {
        HubRoute::NotFound => (0, Seq::empty(), Seq::empty()),
        HubRoute::ListFiles => (1, Seq::empty(), Seq::empty()),
        HubRoute::ServeFile { model_id, file } => (2, model_id@, file@),
    }
}

/// What the path after `/models/` asks for.
pub fn route_model_path(model_path: &str) -> (r: HubRoute)
    ensures
        route_view(r) == route_spec(model_path@),
{
    let p = chars_of(model_path);
    let n = p.len();
    let i = find_char(p.as_slice(), '/', 0);
    proof {
        lemma_index_of_from(p@, '/', 0);
    }
    if i >= n {
        return HubRoute::NotFound;
    }
    let j = find_char(p.as_slice(), '/', i + 1);
    proof {
        lemma_index_of_from(p@, '/', i + 1);
    }
    if j >= n {
        return HubRoute::ListFiles;
    }
    let mut id = copy_range(p.as_slice(), 0, i);
    id.push('/');
    let tail = copy_range(p.as_slice(), i + 1, j);
    crate::text::extend_chars(&mut id, tail.as_slice());
    let file = copy_range(p.as_slice(), j + 1, n);
    let r = HubRoute::ServeFile { model_id: string_of(id.as_slice()), file: string_of(file.as_slice()) };
    assert(id@ =~= p@.subrange(0, i as int) + seq!['/'] + p@.subrange(i + 1, j as int));
    r
}

/// Directories whose names start with `.` are not offered.
pub fn is_listed_name(name: &str) -> (b: bool)
    ensures
        b == !(name@.len() > 0 && name@[0] == '.'),
{
    let cs = chars_of(name);
    !(cs.len() > 0 && cs[0] == '.')
}

// ------------------------------------------------------------------ ranges

/// `s` starts with `pre`.
pub open spec fn has_prefix(s: Seq<char>, pre: Seq<char>) -> bool {
    pre.len() <= s.len() && s.subrange(0, pre.len() as int) == pre
}

/// A `Range` header of the form `bytes=START-END` or `bytes=START-`: the
/// start, and the end when one is given and readable. Anything else asks
/// for no range.
pub open spec fn range_spec(h: Seq<char>) -> Option<(u64, Option<u64>)> {
    if !has_prefix(h, "bytes="@) {
        None
    } else {
        let r = h.subrange("bytes="@.len() as int, h.len() as int);
        let d = index_of_from(r, '-', 0);
        let d2 = index_of_from(r, '-', d + 1);
        match parse_u64_spec(r.subrange(0, d)) {
            None => None,
            Some(start) => {
                if d >= r.len() {
                    Some((start, None))
                } else {
                    let second = r.subrange(d + 1, d2);
                    Some((start, if second.len() == 0 { None } else { parse_u64_spec(second) }))
                }
            },
        }
    }
}

/// Reads a `Range` header.
pub fn parse_range(header: &str) -> (res: Option<(u64, Option<u64>)>)
    ensures
        res == range_spec(header@),
{
    let h = chars_of(header);
    let pre = chars_of("bytes=");
    if pre.len() > h.len() {
        return None;
    }
    let mut k: usize = 0;
    while k < pre.len()
        invariant
            pre@ == "bytes="@,
            h@ == header@,
            pre@.len() <= h@.len(),
            k <= pre@.len(),
            forall|x: int| 0 <= x < k ==> h@[x] == pre@[x],
        decreases pre@.len() - k,
    {
        if h[k] != pre[k] {
            assert(h@.subrange(0, pre@.len() as int)[k as int] != pre@[k as int]);
            return None;
        }
        k = k + 1;
    }
    assert(h@.subrange(0, pre@.len() as int) =~= pre@);
    let r = copy_range(h.as_slice(), pre.len(), h.len());
    let n = r.len();
    let d = find_char(r.as_slice(), '-', 0);
    proof {
        lemma_index_of_from(r@, '-', 0);
    }
    let first = copy_range(r.as_slice(), 0, d);
    let start = match parse_u64(first.as_slice()) {
        None => {
            return None;
        },
        Some(v) => v,
    };
    if d >= n {
        return Some((start, None));
    }
    let d2 = find_char(r.as_slice(), '-', d + 1);
    proof {
        lemma_index_of_from(r@, '-', d + 1);
    }
    let second = copy_range(r.as_slice(), d + 1, d2);
    if second.len() == 0 {
        Some((start, None))
    } else {
        Some((start, parse_u64(second.as_slice())))
    }
}

/// The bytes served for a range of a file of `file_size` bytes: the end is
/// the one asked for, or the last byte, whichever comes first.
pub open spec fn range_end(end: Option<u64>, file_size: u64) -> int {
    match end {
        Some(e) => if e < file_size - 1 { e as int } else { file_size - 1 },
        None => file_size - 1,
    }
}

/// A range that can be served: the file is not empty and the start is no
/// later than the end.
pub open spec fn range_servable(start: u64, end: Option<u64>, file_size: u64) -> bool {
    file_size > 0 && start <= range_end(end, file_size)
}

/// The last byte served and the number of bytes served.
pub fn resolve_range(start: u64, end: Option<u64>, file_size: u64) -> (r: (u64, u64))
    requires
        range_servable(start, end, file_size),
    ensures
        r.0 == range_end(end, file_size),
        r.1 == r.0 - start + 1,
{
    let last = file_size - 1;
    let e = match end {
        Some(e) => if e < last { e } else { last },
        None => last,
    };
    (e, e - start + 1)
}

/// Whether [`resolve_range`] may be asked about these values.
pub fn servable(start: u64, end: Option<u64>, file_size: u64) -> (b: bool)
    ensures
        b == range_servable(start, end, file_size),
{
    if file_size == 0 {
        return false;
    }
    let last = file_size - 1;
    let e = match end {
        Some(e) => if e < last { e } else { last },
        None => last,
    };
    start <= e
}

/// The `Content-Range` header value `bytes START-END/SIZE`.
pub fn content_range(start: u64, end: u64, file_size: u64) -> (res: String)
    ensures
        res@ == seq!['b', 'y', 't', 'e', 's', ' '] + decimal(start as nat) + seq!['-'] + decimal(end as nat)
            + seq!['/'] + decimal(file_size as nat),
{
    let mut out: Vec<char> = Vec::new();
    out.push('b');
    out.push('y');
    out.push('t');
    out.push('e');
    out.push('s');
    out.push(' ');
    push_decimal(&mut out, start);
    out.push('-');
    push_decimal(&mut out, end);
    out.push('/');
    push_decimal(&mut out, file_size);
    assert(out@ =~= seq!['b', 'y', 't', 'e', 's', ' '] + decimal(start as nat) + seq!['-'] + decimal(end as nat)
        + seq!['/'] + decimal(file_size as nat));
    string_of(out.as_slice())
}

// ------------------------------------------------------------------ laws

pub open spec fn no_slash(s: Seq<char>) -> bool {
    forall|j: int| 0 <= j < s.len() ==> s[j] != '/'
}

/// `GET /models/{org}/{name}` lists the files of model `org/name`.
pub proof fn law_route_lists_model(org: Seq<char>, name: Seq<char>)
    requires
        no_slash(org),
        no_slash(name),
    ensures
        route_spec(org + seq!['/'] + name).0 == 1,
{
    let p = org + seq!['/'] + name;
    assert forall|j: int| 0 <= j < org.len() implies p[j] != '/' by {
        assert(p[j] == org[j]);
    }
    lemma_index_past(p, '/', 0, org.len() as int);
    lemma_index_of_from(p, '/', org.len() + 1int);
    let j = index_of_from(p, '/', org.len() + 1int);
    if j < p.len() {
        assert(p[j] == name[j - org.len() - 1]);
    }
}

/// `GET /models/{org}/{name}/{file}` serves `file` of model `org/name`,
/// whatever slashes the file path holds.
pub proof fn law_route_serves_file(org: Seq<char>, name: Seq<char>, file: Seq<char>)
    requires
        no_slash(org),
        no_slash(name),
    ensures
        route_spec(org + seq!['/'] + name + seq!['/'] + file) == (2int, org + seq!['/'] + name, file),
{
    let p = org + seq!['/'] + name + seq!['/'] + file;
    let i = org.len() as int;
    let j = i + 1 + name.len();
    assert forall|x: int| 0 <= x < i implies p[x] != '/' by {
        assert(p[x] == org[x]);
    }
    lemma_index_past(p, '/', 0, i);
    assert forall|x: int| i + 1 <= x < j implies p[x] != '/' by {
        assert(p[x] == name[x - i - 1]);
    }
    assert(p[j] == '/');
    lemma_index_past(p, '/', i + 1, name.len() as int);
    assert(p.subrange(0, i) + seq!['/'] + p.subrange(i + 1, j) =~= org + seq!['/'] + name);
    assert(p.subrange(j + 1, p.len() as int) =~= file);
}

/// The bytes served for a range all lie in the file, starting where the
/// range starts, and at least one is served.
pub proof fn law_range_within_file(start: u64, end: Option<u64>, file_size: u64)
    requires
        range_servable(start, end, file_size),
    ensures
        start + (range_end(end, file_size) - start + 1) <= file_size,
        range_end(end, file_size) - start + 1 >= 1,
{
}


/// A range is served up to the end it names when that end lies inside the
/// file, and up to the last byte when it names none or one past the file;
/// it is served from its start, `end - start + 1` bytes.
pub proof fn law_range_end_honoured(start: u64, end: Option<u64>, file_size: u64)
    requires
        range_servable(start, end, file_size),
    ensures
        end matches Some(e) ==> (e < file_size - 1 ==> range_end(end, file_size) == e),
        end matches Some(e) ==> (e >= file_size - 1 ==> range_end(end, file_size) == file_size - 1),
        end is None ==> range_end(end, file_size) == file_size - 1,
        start <= range_end(end, file_size) < file_size,
        end matches Some(e) ==> range_end(end, file_size) <= e,
{
}
} // verus!

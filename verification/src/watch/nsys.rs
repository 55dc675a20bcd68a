//! `nsys stats --format=csv` summaries (a header line, then one row per
//! kernel or copy kind), and where a profiling session writes its report.
use vstd::prelude::*;
use crate::text::{
    chars_of, string_of, trim, trimmed, parse_u64, parse_u64_spec, trimmed_lines, char_views,
    nonempty_lines, concat,
};

verus! {

// ------------------------------------------------------------------ csv

/// The state after reading `s`: the fields closed so far, the field being
/// read, and whether a quote is open. A `"` toggles quoting and is not
/// kept; a `,` outside quotes closes the field, trimmed.
pub open spec fn csv_state(s: Seq<char>) -> (Seq<Seq<char>>, Seq<char>, bool)
    decreases s.len(),
{
    if s.len() == 0 {
        (Seq::empty(), Seq::empty(), false)
    } else {
        let st = csv_state(s.drop_last());
        let c = s.last();
        if c == '"' {
            (st.0, st.1, !st.2)
        } else if c == ',' && !st.2 {
            (st.0.push(trim(st.1)), Seq::empty(), st.2)
        } else {
            (st.0, st.1.push(c), st.2)
        }
    }
}

/// The fields of one CSV line: those closed by commas, then the rest.
pub open spec fn csv_fields(s: Seq<char>) -> Seq<Seq<char>> {
    csv_state(s).0.push(trim(csv_state(s).1))
}

pub open spec fn string_views(v: Seq<String>) -> Seq<Seq<char>> {
    v.map_values(|x: String| x@)
}

/// The fields of `line`, quotes removed and each field trimmed.
pub fn parse_csv_line(line: &str) -> (res: Vec<String>)
    ensures
        string_views(res@) == csv_fields(line@),
{
    let cs = chars_of(line);
    let mut fields: Vec<String> = Vec::new();
    let mut current: Vec<char> = Vec::new();
    let mut in_quotes = false;
    let mut i: usize = 0;
    while i < cs.len()
        invariant
            i <= cs@.len(),
            cs@ == line@,
            (string_views(fields@), current@, in_quotes) == csv_state(cs@.take(i as int)),
        decreases cs@.len() - i,
    {
        let c = cs[i];
        assert(cs@.take(i + 1).drop_last() =~= cs@.take(i as int));
        assert(cs@.take(i + 1).last() == c);
        if c == '"' {
            in_quotes = !in_quotes;
        } else if c == ',' && !in_quotes {
            let t = trimmed(current.as_slice());
            let ghost prev = string_views(fields@);
            fields.push(string_of(t.as_slice()));
            assert(string_views(fields@) =~= prev.push(t@));
            current = Vec::new();
        } else {
            current.push(c);
        }
        i = i + 1;
    }
    assert(cs@.take(cs@.len() as int) =~= cs@);
    let t = trimmed(current.as_slice());
    let ghost prev = string_views(fields@);
    fields.push(string_of(t.as_slice()));
    assert(string_views(fields@) =~= prev.push(t@));
    fields
}

/// The rows of the (trimmed, non-empty) lines `ls` that have at least six
/// fields.
pub open spec fn rows_of(ls: Seq<Seq<char>>) -> Seq<Seq<Seq<char>>>
    decreases ls.len(),
{
    if ls.len() == 0 {
        Seq::empty()
    } else {
        let prev = rows_of(ls.drop_last());
        let f = csv_fields(ls.last());
        if f.len() >= 6 {
            prev.push(f)
        } else {
            prev
        }
    }
}

/// The data rows of an `nsys stats` CSV report: every non-empty line after
/// the first (the header) with at least six fields.
pub open spec fn nsys_rows_spec(csv: Seq<char>) -> Seq<Seq<Seq<char>>> {
    let ls = trimmed_lines(csv);
    if ls.len() == 0 {
        Seq::empty()
    } else {
        rows_of(ls.drop_first())
    }
}

pub open spec fn row_views(v: Seq<Vec<String>>) -> Seq<Seq<Seq<char>>> {
    v.map_values(|r: Vec<String>| string_views(r@))
}

/// The data rows of an `nsys stats` CSV report.
pub fn nsys_rows(csv: &str) -> (res: Vec<Vec<String>>)
    ensures
        row_views(res@) == nsys_rows_spec(csv@),
        forall|i: int| 0 <= i < res@.len() ==> (#[trigger] res@[i])@.len() >= 6,
{
    let cs = chars_of(csv);
    let lines = nonempty_lines(cs.as_slice());
    let ghost ls = char_views(lines@);
    let mut out: Vec<Vec<String>> = Vec::new();
    if lines.len() == 0 {
        assert(row_views(out@) =~= Seq::<Seq<Seq<char>>>::empty());
        return out;
    }
    let ghost body = ls.drop_first();
    let mut i: usize = 1;
    assert(body.take(0) =~= Seq::<Seq<char>>::empty());
    while i < lines.len()
        invariant
            1 <= i <= lines@.len(),
            ls == char_views(lines@),
            ls == trimmed_lines(csv@),
            body == ls.drop_first(),
            row_views(out@) == rows_of(body.take(i - 1)),
            forall|k: int| 0 <= k < out@.len() ==> (#[trigger] out@[k])@.len() >= 6,
        decreases lines@.len() - i,
    {
        assert(body.take(i as int).drop_last() =~= body.take(i - 1));
        assert(body.take(i as int).last() == lines@[i as int]@);
        let line = string_of(lines[i].as_slice());
        let fields = parse_csv_line(line.as_str());
        if fields.len() >= 6 {
            let ghost prev = row_views(out@);
            out.push(fields);
            assert(row_views(out@) =~= prev.push(string_views(fields@)));
        }
        i = i + 1;
    }
    assert(body.take(lines@.len() - 1) =~= body);
    out
}

// ------------------------------------------------------------------ kernels

/// `s` without leading and trailing `"` characters.
pub open spec fn strip_quotes(s: Seq<char>) -> Seq<char>
    decreases s.len(),
{
    if s.len() > 0 && s[0] == '"' {
        strip_quotes(s.drop_first())
    } else if s.len() > 0 && s.last() == '"' {
        strip_quotes(s.drop_last())
    } else {
        s
    }
}

/// One row of the kernel summary. Durations are in nanoseconds, as
/// written in the report.
pub struct KernelSummary {
    pub kernel_name: String,
    pub call_count: u64,
    pub avg_ns: String,
    pub min_ns: String,
    pub max_ns: String,
    pub total_ns: String,
}

/// Mathematical value of a [`KernelSummary`].
pub ghost struct KernelView {
    pub kernel_name: Seq<char>,
    pub call_count: u64,
    pub avg_ns: Seq<char>,
    pub min_ns: Seq<char>,
    pub max_ns: Seq<char>,
    pub total_ns: Seq<char>,
}

impl View for KernelSummary {
    type V = KernelView;

    open spec fn view(&self) -> KernelView {
        KernelView {
            kernel_name: self.kernel_name@,
            call_count: self.call_count,
            avg_ns: self.avg_ns@,
            min_ns: self.min_ns@,
            max_ns: self.max_ns@,
            total_ns: self.total_ns@,
        }
    }
}

/// The kernel described by a row (name, calls, average, minimum, maximum,
/// total); an unreadable call count counts as zero.
pub open spec fn kernel_of(r: Seq<Seq<char>>) -> KernelView {
    KernelView {
        kernel_name: strip_quotes(r[0]),
        call_count: match parse_u64_spec(r[1]) {
            Some(v) => v,
            None => 0,
        },
        avg_ns: r[2],
        min_ns: r[3],
        max_ns: r[4],
        total_ns: r[5],
    }
}

fn strip_quotes_of(s: &String) -> (res: String)
    ensures
        res@ == strip_quotes(s@),
{
    let cs = chars_of(s.as_str());
    let mut a: usize = 0;
    let mut b: usize = cs.len();
    assert(cs@.subrange(0, cs@.len() as int) =~= cs@);
    while a < b && (cs[a] == '"' || cs[b - 1] == '"')
        invariant
            a <= b <= cs@.len(),
            cs@ == s@,
            strip_quotes(s@) == strip_quotes(cs@.subrange(a as int, b as int)),
        decreases b - a,
    {
        let ghost t = cs@.subrange(a as int, b as int);
        if cs[a] == '"' {
            assert(t.drop_first() =~= cs@.subrange(a + 1, b as int));
            a = a + 1;
        } else {
            assert(t.last() == cs@[b - 1]);
            assert(t.drop_last() =~= cs@.subrange(a as int, b - 1));
            b = b - 1;
        }
    }
    let out = crate::text::copy_range(cs.as_slice(), a, b);
    string_of(out.as_slice())
}

pub open spec fn kernel_views(v: Seq<KernelSummary>) -> Seq<KernelView> {
    v.map_values(|k: KernelSummary| k@)
}

/// The kernels listed in a `cuda_gpu_kern_sum` CSV report, in order.
pub fn parse_nsys_kern_sum(csv: &str) -> (res: Vec<KernelSummary>)
    ensures
        kernel_views(res@) == nsys_rows_spec(csv@).map_values(|r: Seq<Seq<char>>| kernel_of(r)),
{
    let rows = nsys_rows(csv);
    let ghost rv = row_views(rows@);
    let mut out: Vec<KernelSummary> = Vec::new();
    let mut i: usize = 0;
    while i < rows.len()
        invariant
            i <= rows@.len(),
            rv == row_views(rows@),
            forall|k: int| 0 <= k < rows@.len() ==> (#[trigger] rows@[k])@.len() >= 6,
            kernel_views(out@) == rv.take(i as int).map_values(|r: Seq<Seq<char>>| kernel_of(r)),
        decreases rows@.len() - i,
    {
        let r = &rows[i];
        let ghost f = string_views(r@);
        assert(rv[i as int] == f);
        let k = KernelSummary {
            kernel_name: strip_quotes_of(&r[0]),
            call_count: {
                let c = chars_of(r[1].as_str());
                match parse_u64(c.as_slice()) {
                    Some(v) => v,
                    None => 0,
                }
            },
            avg_ns: r[2].clone(),
            min_ns: r[3].clone(),
            max_ns: r[4].clone(),
            total_ns: r[5].clone(),
        };
        let ghost prev = kernel_views(out@);
        out.push(k);
        assert(kernel_views(out@) =~= prev.push(k@));
        assert(rv.take(i + 1).map_values(|r: Seq<Seq<char>>| kernel_of(r))
            =~= rv.take(i as int).map_values(|r: Seq<Seq<char>>| kernel_of(r)).push(kernel_of(f)));
        i = i + 1;
    }
    assert(rv.take(rows@.len() as int) =~= rv);
    out
}

// ------------------------------------------------------------------ sessions

/// Where profiling sessions write their reports.
pub struct NsysCollector {
    pub output_dir: String,
}

/// `dir` joined with `name` as a path: `name` alone for an empty `dir`,
/// else with one `/` between them unless `dir` already ends with one.
pub open spec fn path_join(dir: Seq<char>, name: Seq<char>) -> Seq<char> {
    if dir.len() == 0 {
        name
    } else if dir.last() == '/' {
        dir + name
    } else {
        dir + seq!['/'] + name
    }
}

impl NsysCollector {
    pub fn new(output_dir: &str) -> (c: NsysCollector)
        ensures
            c.output_dir@ == output_dir@,
    {
        NsysCollector { output_dir: output_dir.to_owned() }
    }

    /// The report name handed to `nsys profile --output` (no extension).
    pub fn report_stem(&self) -> (res: String)
        ensures
            res@ == path_join(self.output_dir@, "iperf-watch"@),
    {
        let dir = self.output_dir.as_str();
        let cs = chars_of(dir);
        if cs.len() == 0 {
            return "iperf-watch".to_owned();
        }
        if cs[cs.len() - 1] == '/' {
            concat(dir, "iperf-watch")
        } else {
            let d = concat(dir, "/");
            proof {
                reveal_strlit("/");
            }
            concat(d.as_str(), "iperf-watch")
        }
    }

    /// The file that `nsys profile` writes: the stem with `.nsys-rep`.
    pub fn report_path(&self) -> (res: String)
        ensures
            res@ == path_join(self.output_dir@, "iperf-watch"@) + ".nsys-rep"@,
    {
        let stem = self.report_stem();
        concat(stem.as_str(), ".nsys-rep")
    }
}

// ------------------------------------------------------------------ laws

/// Fields written one after another, separated by commas.
pub open spec fn comma_joined(fs: Seq<Seq<char>>) -> Seq<char>
    decreases fs.len(),
{
    if fs.len() <= 1 {
        if fs.len() == 1 { fs[0] } else { Seq::empty() }
    } else {
        comma_joined(fs.drop_last()) + seq![','] + fs.last()
    }
}

/// A field that reads back as written: trimmed, with no quote and no comma.
pub open spec fn plain_field(f: Seq<char>) -> bool {
    &&& trim(f) == f
    &&& forall|j: int| 0 <= j < f.len() ==> f[j] != '"' && f[j] != ','
}

proof fn lemma_csv_append_plain(s: Seq<char>, t: Seq<char>)
    requires
        forall|j: int| 0 <= j < t.len() ==> t[j] != '"' && t[j] != ',',
    ensures
        csv_state(s + t) == (csv_state(s).0, csv_state(s).1 + t, csv_state(s).2),
    decreases t.len(),
{
    if t.len() == 0 {
        assert(s + t =~= s);
        assert(csv_state(s).1 + t =~= csv_state(s).1);
    } else {
        let u = t.drop_last();
        lemma_csv_append_plain(s, u);
        assert((s + t).drop_last() =~= s + u);
        assert((s + t).last() == t.last());
        assert(csv_state(s + u).1.push(t.last()) =~= csv_state(s).1 + t);
    }
}

proof fn lemma_csv_joined(fs: Seq<Seq<char>>)
    requires
        fs.len() >= 1,
        forall|j: int| 0 <= j < fs.len() ==> plain_field(#[trigger] fs[j]),
    ensures
        csv_state(comma_joined(fs)) == (fs.drop_last(), fs.last(), false),
    decreases fs.len(),
{
    if fs.len() == 1 {
        assert(plain_field(fs[0]));
        lemma_csv_append_plain(Seq::empty(), fs[0]);
        assert(Seq::<char>::empty() + fs[0] =~= fs[0]);
        assert(Seq::<char>::empty() + fs[0] =~= fs.last());
        assert(fs.drop_last() =~= Seq::<Seq<char>>::empty());
    } else {
        let d = fs.drop_last();
        assert forall|j: int| 0 <= j < d.len() implies plain_field(#[trigger] d[j]) by {
            assert(d[j] == fs[j]);
        }
        lemma_csv_joined(d);
        let head = comma_joined(d) + seq![','];
        assert(head.drop_last() =~= comma_joined(d));
        assert(plain_field(d.last())) by {
            assert(d.last() == fs[fs.len() - 2]);
        }
        assert(csv_state(head) == (d.drop_last().push(d.last()), Seq::<char>::empty(), false));
        assert(d.drop_last().push(d.last()) =~= d);
        assert(plain_field(fs.last())) by {
            assert(fs.last() == fs[fs.len() - 1]);
        }
        lemma_csv_append_plain(head, fs.last());
        assert(Seq::<char>::empty() + fs.last() =~= fs.last());
    }
}

/// Trimmed fields with no quote and no comma, written separated by commas,
/// read back as they were written.
pub proof fn law_csv_fields_read_back(fs: Seq<Seq<char>>)
    requires
        fs.len() >= 1,
        forall|j: int| 0 <= j < fs.len() ==> plain_field(#[trigger] fs[j]),
    ensures
        csv_fields(comma_joined(fs)) == fs,
{
    lemma_csv_joined(fs);
    assert(plain_field(fs.last())) by {
        assert(fs.last() == fs[fs.len() - 1]);
    }
    assert(fs.drop_last().push(fs.last()) =~= fs);
}


/// Each kernel of a report is read from its own row, column by column:
/// name (quotes dropped), call count (zero when unreadable), then the
/// average, minimum, maximum and total durations from the third to the
/// sixth columns.
pub proof fn law_kernel_columns(csv: Seq<char>)
    ensures ({
        let rs = nsys_rows_spec(csv);
        let ks = rs.map_values(|r: Seq<Seq<char>>| kernel_of(r));
        &&& ks.len() == rs.len()
        &&& forall|i: int| 0 <= i < rs.len() ==> {
            let k = #[trigger] ks[i];
            let r = rs[i];
            &&& k.kernel_name == strip_quotes(r[0])
            &&& k.call_count == (match parse_u64_spec(r[1]) { Some(c) => c, None => 0 })
            &&& k.avg_ns == r[2]
            &&& k.min_ns == r[3]
            &&& k.max_ns == r[4]
            &&& k.total_ns == r[5]
        }
    }),
{
}

/// A row written as six plain fields `name,count,avg,min,max,total`
/// describes a kernel whose average, minimum, maximum and total are those
/// fields, in that order.
pub proof fn law_kernel_row_reads_back(fs: Seq<Seq<char>>)
    requires
        fs.len() == 6,
        forall|j: int| 0 <= j < fs.len() ==> plain_field(#[trigger] fs[j]),
    ensures ({
        let k = kernel_of(csv_fields(comma_joined(fs)));
        &&& k.avg_ns == fs[2]
        &&& k.min_ns == fs[3]
        &&& k.max_ns == fs[4]
        &&& k.total_ns == fs[5]
    }),
{
    law_csv_fields_read_back(fs);
}
} // verus!

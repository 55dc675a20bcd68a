//! `nvidia-smi --query-gpu=... --format=csv,noheader,nounits` output: one
//! line per GPU, fields separated by `", "`.
use vstd::prelude::*;
use crate::text::{
    chars_of, string_of, copy_range, trim, trimmed, parse_u32, parse_u64, parse_u32_spec,
    parse_u64_spec, trimmed_lines, char_views, nonempty_lines, extend_chars,
};
use crate::config::opt_view;

verus! {

/// The fields asked of `nvidia-smi`, in the order in which they come back.
pub const NVIDIA_SMI_QUERY: &'static str = "index,name,utilization.gpu,utilization.memory,memory.used,memory.total,memory.free,power.draw,power.limit,temperature.gpu,fan.speed.percent,clocks.sm,clocks.memory,pstate,throttle_reasons";

/// Number of fields in [`NVIDIA_SMI_QUERY`].
pub const FIELD_COUNT: usize = 15;

/// Index of the first `", "` at or after `i` (or `s.len()`).
pub open spec fn sep_index_from(s: Seq<char>, i: int) -> int
    decreases s.len() - i,
{
    if i < 0 || i + 1 >= s.len() {
        s.len() as int
    } else if s[i] == ',' && s[i + 1] == ' ' {
        i
    } else {
        sep_index_from(s, i + 1)
    }
}

pub proof fn lemma_sep_index(s: Seq<char>, i: int)
    requires
        0 <= i <= s.len(),
    ensures
        i <= sep_index_from(s, i) <= s.len(),
        sep_index_from(s, i) < s.len() ==> sep_index_from(s, i) + 1 < s.len()
            && s[sep_index_from(s, i)] == ',' && s[sep_index_from(s, i) + 1] == ' ',
    decreases s.len() - i,
{
    if i + 1 < s.len() && !(s[i] == ',' && s[i + 1] == ' ') {
        lemma_sep_index(s, i + 1);
    }
}

/// The pieces of `s[i..]` between occurrences of `", "`
/// (`str::split(", ")`).
pub open spec fn pieces_from(s: Seq<char>, i: int) -> Seq<Seq<char>>
    decreases s.len() - i,
{
    if i < 0 || i > s.len() {
        Seq::empty()
    } else {
        let j = sep_index_from(s, i);
        proof {
            lemma_sep_index(s, i);
        }
        if j >= s.len() {
            seq![s.subrange(i, s.len() as int)]
        } else {
            seq![s.subrange(i, j)] + pieces_from(s, j + 2)
        }
    }
}

/// The pieces joined again with `", "` between them.
pub open spec fn join_sep(ps: Seq<Seq<char>>) -> Seq<char>
    decreases ps.len(),
{
    if ps.len() == 0 {
        Seq::empty()
    } else if ps.len() == 1 {
        ps[0]
    } else {
        join_sep(ps.drop_last()) + seq![',', ' '] + ps.last()
    }
}

pub open spec fn trim_all(ps: Seq<Seq<char>>) -> Seq<Seq<char>> {
    ps.map_values(|p: Seq<char>| trim(p))
}

/// The fields of one line, trimmed. Past the fifteenth piece the pieces
/// belong to the last field (throttle reasons may hold `", "` themselves)
/// and are joined again.
pub open spec fn gpu_fields(line: Seq<char>) -> Seq<Seq<char>> {
    let ps = pieces_from(line, 0);
    if ps.len() <= FIELD_COUNT {
        trim_all(ps)
    } else {
        trim_all(ps.take(FIELD_COUNT - 1)).push(trim(join_sep(ps.skip(FIELD_COUNT - 1))))
    }
}

/// The pieces of `s` between occurrences of `", "`, from index `from` on.
fn split_pieces(s: &[char]) -> (res: Vec<Vec<char>>)
    ensures
        char_views(res@) == pieces_from(s@, 0),
{
    let n = s.len();
    let mut out: Vec<Vec<char>> = Vec::new();
    let mut i: usize = 0;
    loop
        invariant
            n == s@.len(),
            i <= n,
            char_views(out@) + pieces_from(s@, i as int) == pieces_from(s@, 0),
        decreases n - i,
    {
        let mut j = i;
        while n - j > 1 && !(s[j] == ',' && s[j + 1] == ' ')
            invariant
                n == s@.len(),
                i <= j <= n,
                sep_index_from(s@, i as int) == sep_index_from(s@, j as int),
            decreases n - j,
        {
            j = j + 1;
        }
        let j = if n - j > 1 { j } else { n };
        proof {
            lemma_sep_index(s@, i as int);
        }
        let piece = copy_range(s, i, j);
        let ghost prev = char_views(out@);
        out.push(piece);
        assert(char_views(out@) =~= prev.push(piece@));
        if j >= n {
            assert(char_views(out@) + Seq::<Seq<char>>::empty() =~= prev + pieces_from(s@, i as int));
            assert(pieces_from(s@, n as int + 2) =~= Seq::<Seq<char>>::empty());
            return out;
        }
        assert(char_views(out@) + pieces_from(s@, j + 2) =~= prev + pieces_from(s@, i as int));
        i = j + 2;
    }
}

/// `ps` joined with `", "` between the pieces.
fn join_pieces(ps: &[Vec<char>], from: usize) -> (res: Vec<char>)
    requires
        from <= ps@.len(),
    ensures
        res@ == join_sep(char_views(ps@).skip(from as int)),
{
    let ghost all = char_views(ps@);
    let mut out: Vec<char> = Vec::new();
    let mut i = from;
    assert(all.skip(from as int).take(0) =~= Seq::<Seq<char>>::empty());
    while i < ps.len()
        invariant
            from <= i <= ps@.len(),
            all == char_views(ps@),
            out@ == join_sep(all.skip(from as int).take(i - from)),
        decreases ps@.len() - i,
    {
        let ghost part = all.skip(from as int).take(i + 1 - from);
        assert(part.drop_last() =~= all.skip(from as int).take(i - from));
        assert(part.last() == ps@[i as int]@);
        if i > from {
            out.push(',');
            out.push(' ');
            extend_chars(&mut out, ps[i].as_slice());
        } else {
            assert(part.len() == 1);
            extend_chars(&mut out, ps[i].as_slice());
            assert(out@ =~= ps@[i as int]@);
        }
        i = i + 1;
    }
    assert(all.skip(from as int).take(ps@.len() - from) =~= all.skip(from as int));
    out
}

fn trimmed_string(cs: &Vec<char>) -> (res: String)
    ensures
        res@ == trim(cs@),
{
    let t = trimmed(cs.as_slice());
    string_of(t.as_slice())
}

/// The fields of one `nvidia-smi` CSV line, trimmed.
pub fn split_nvidia_smi_csv(line: &str) -> (res: Vec<String>)
    ensures
        res@.map_values(|f: String| f@) == gpu_fields(line@),
{
    let cs = chars_of(line);
    let ps = split_pieces(cs.as_slice());
    let ghost pv = char_views(ps@);
    let mut out: Vec<String> = Vec::new();
    let keep = if ps.len() <= FIELD_COUNT { ps.len() } else { FIELD_COUNT - 1 };
    let mut i: usize = 0;
    while i < keep
        invariant
            keep <= ps@.len(),
            pv == char_views(ps@),
            i <= keep,
            out@.map_values(|f: String| f@) == trim_all(pv.take(i as int)),
        decreases keep - i,
    {
        let f = trimmed_string(&ps[i]);
        let ghost prev = out@.map_values(|f: String| f@);
        out.push(f);
        assert(out@.map_values(|f: String| f@) =~= prev.push(f@));
        assert(trim_all(pv.take(i + 1)) =~= trim_all(pv.take(i as int)).push(trim(pv[i as int])));
        i = i + 1;
    }
    if ps.len() > FIELD_COUNT {
        let rest = join_pieces(ps.as_slice(), FIELD_COUNT - 1);
        let t = trimmed(rest.as_slice());
        let ghost prev = out@.map_values(|f: String| f@);
        out.push(string_of(t.as_slice()));
        assert(out@.map_values(|f: String| f@) =~= prev.push(t@));
    } else {
        assert(pv.take(ps@.len() as int) =~= pv);
    }
    out
}

// ------------------------------------------------------------------ records

/// What one line reports of one GPU. Power figures are kept as written
/// (decimal watts, or a marker such as `[N/A]`).
pub struct GpuMetrics {
    pub gpu_index: u32,
    pub gpu_name: String,
    pub gpu_utilization: Option<u32>,
    pub memory_utilization: Option<u32>,
    pub memory_used: Option<u64>,
    pub memory_total: Option<u64>,
    pub memory_free: Option<u64>,
    pub power_draw: String,
    pub power_limit: String,
    pub temperature_gpu: Option<u32>,
    pub fan_speed: Option<u32>,
    pub clock_sm: Option<u32>,
    pub clock_memory: Option<u32>,
    pub pstate: Option<String>,
    pub throttle_reasons: Option<String>,
}

/// Mathematical value of a [`GpuMetrics`].
pub ghost struct GpuView {
    pub gpu_index: u32,
    pub gpu_name: Seq<char>,
    pub gpu_utilization: Option<u32>,
    pub memory_utilization: Option<u32>,
    pub memory_used: Option<u64>,
    pub memory_total: Option<u64>,
    pub memory_free: Option<u64>,
    pub power_draw: Seq<char>,
    pub power_limit: Seq<char>,
    pub temperature_gpu: Option<u32>,
    pub fan_speed: Option<u32>,
    pub clock_sm: Option<u32>,
    pub clock_memory: Option<u32>,
    pub pstate: Option<Seq<char>>,
    pub throttle_reasons: Option<Seq<char>>,
}

impl View for GpuMetrics {
    type V = GpuView;

    open spec fn view(&self) -> GpuView {
        GpuView {
            gpu_index: self.gpu_index,
            gpu_name: self.gpu_name@,
            gpu_utilization: self.gpu_utilization,
            memory_utilization: self.memory_utilization,
            memory_used: self.memory_used,
            memory_total: self.memory_total,
            memory_free: self.memory_free,
            power_draw: self.power_draw@,
            power_limit: self.power_limit@,
            temperature_gpu: self.temperature_gpu,
            fan_speed: self.fan_speed,
            clock_sm: self.clock_sm,
            clock_memory: self.clock_memory,
            pstate: opt_view(self.pstate),
            throttle_reasons: opt_view(self.throttle_reasons),
        }
    }
}

pub open spec fn gpu_views(v: Seq<GpuMetrics>) -> Seq<GpuView> {
    v.map_values(|g: GpuMetrics| g@)
}

/// `field` read as a `u32` after trimming.
pub open spec fn field_u32(field: Seq<char>) -> Option<u32> {
    parse_u32_spec(trim(field))
}

/// `field` read as a `u64` after trimming.
pub open spec fn field_u64(field: Seq<char>) -> Option<u64> {
    parse_u64_spec(trim(field))
}

/// The GPU described by the fields of one line (at least fifteen). An
/// unreadable index counts as GPU 0.
pub open spec fn gpu_view_of(f: Seq<Seq<char>>) -> GpuView {
    GpuView {
        gpu_index: match field_u32(f[0]) {
            Some(v) => v,
            None => 0,
        },
        gpu_name: f[1],
        gpu_utilization: field_u32(f[2]),
        memory_utilization: field_u32(f[3]),
        memory_used: field_u64(f[4]),
        memory_total: field_u64(f[5]),
        memory_free: field_u64(f[6]),
        power_draw: f[7],
        power_limit: f[8],
        temperature_gpu: field_u32(f[9]),
        fan_speed: field_u32(f[10]),
        clock_sm: field_u32(f[11]),
        clock_memory: field_u32(f[12]),
        pstate: Some(f[13]),
        throttle_reasons: Some(join_sep(f.skip(14))),
    }
}

/// Why `nvidia-smi` output could not be read.
#[derive(Debug, PartialEq, Eq, Structural)]
pub enum GpuCsvError {
    /// A line had fewer fields than were asked for.
    FieldCount { expected: usize, got: usize },
    /// No line described a GPU.
    NoData,
}

/// The GPUs of the (trimmed, non-empty) lines `ls`, or the complaint about
/// the first line with too few fields.
pub open spec fn gpu_rows(ls: Seq<Seq<char>>) -> Result<Seq<GpuView>, GpuCsvError>
    decreases ls.len(),
{
    if ls.len() == 0 {
        Ok(Seq::empty())
    } else {
        let f = gpu_fields(ls[0]);
        if f.len() < FIELD_COUNT {
            Err(GpuCsvError::FieldCount { expected: FIELD_COUNT, got: f.len() as usize })
        } else {
            match gpu_rows(ls.drop_first()) {
                Err(e) => Err(e),
                Ok(v) => Ok(seq![gpu_view_of(f)] + v),
            }
        }
    }
}

/// What [`parse_gpu_csv`] gives for `csv`.
pub open spec fn gpu_csv_spec(csv: Seq<char>) -> Result<Seq<GpuView>, GpuCsvError> {
    match gpu_rows(trimmed_lines(csv)) {
        Err(e) => Err(e),
        Ok(v) => if v.len() == 0 {
            Err(GpuCsvError::NoData)
        } else {
            Ok(v)
        },
    }
}

fn field_u32_of(field: &String) -> (r: Option<u32>)
    ensures
        r == field_u32(field@),
{
    let cs = chars_of(field.as_str());
    let t = trimmed(cs.as_slice());
    parse_u32(t.as_slice())
}

fn field_u64_of(field: &String) -> (r: Option<u64>)
    ensures
        r == field_u64(field@),
{
    let cs = chars_of(field.as_str());
    let t = trimmed(cs.as_slice());
    parse_u64(t.as_slice())
}

/// The GPU described by `f`, the fields of one line.
fn gpu_of_fields(f: &Vec<String>) -> (g: GpuMetrics)
    requires
        f@.len() == FIELD_COUNT,
    ensures
        g@ == gpu_view_of(f@.map_values(|x: String| x@)),
{
    let ghost fv = f@.map_values(|x: String| x@);
    assert(fv.skip(14) =~= seq![fv[14]]);
    GpuMetrics {
        gpu_index: match field_u32_of(&f[0]) {
            Some(v) => v,
            None => 0,
        },
        gpu_name: f[1].clone(),
        gpu_utilization: field_u32_of(&f[2]),
        memory_utilization: field_u32_of(&f[3]),
        memory_used: field_u64_of(&f[4]),
        memory_total: field_u64_of(&f[5]),
        memory_free: field_u64_of(&f[6]),
        power_draw: f[7].clone(),
        power_limit: f[8].clone(),
        temperature_gpu: field_u32_of(&f[9]),
        fan_speed: field_u32_of(&f[10]),
        clock_sm: field_u32_of(&f[11]),
        clock_memory: field_u32_of(&f[12]),
        pstate: Some(f[13].clone()),
        throttle_reasons: Some(f[14].clone()),
    }
}

/// The GPUs described by `nvidia-smi` CSV output, one per non-empty line.
pub fn parse_gpu_csv(csv_output: &str) -> (res: Result<Vec<GpuMetrics>, GpuCsvError>)
    ensures
        match res {
            Ok(v) => gpu_csv_spec(csv_output@) == Ok::<Seq<GpuView>, GpuCsvError>(gpu_views(v@)),
            Err(e) => gpu_csv_spec(csv_output@) == Err::<Seq<GpuView>, GpuCsvError>(e),
        },
{
    let cs = chars_of(csv_output);
    let lines = nonempty_lines(cs.as_slice());
    let ghost ls = char_views(lines@);
    let mut out: Vec<GpuMetrics> = Vec::new();
    let mut i: usize = 0;
    assert(ls.skip(0) =~= ls);
    while i < lines.len()
        invariant
            i <= lines@.len(),
            ls == char_views(lines@),
            ls == trimmed_lines(csv_output@),
            gpu_rows(ls) == match gpu_rows(ls.skip(i as int)) {
                Err(e) => Err(e),
                Ok(v) => Ok::<Seq<GpuView>, GpuCsvError>(gpu_views(out@) + v),
            },
        decreases lines@.len() - i,
    {
        assert(ls.skip(i as int)[0] == lines@[i as int]@);
        assert(ls.skip(i as int).drop_first() =~= ls.skip(i + 1));
        let line = string_of(lines[i].as_slice());
        let fields = split_nvidia_smi_csv(line.as_str());
        if fields.len() < FIELD_COUNT {
            return Err(GpuCsvError::FieldCount { expected: FIELD_COUNT, got: fields.len() });
        }
        let g = gpu_of_fields(&fields);
        let ghost prev = gpu_views(out@);
        out.push(g);
        assert(gpu_views(out@) =~= prev.push(g@));
        proof {
            match gpu_rows(ls.skip(i + 1)) {
                Err(e) => {},
                Ok(v) => {
                    assert(gpu_views(out@) + v =~= prev + (seq![g@] + v));
                },
            }
        }
        i = i + 1;
    }
    assert(ls.skip(lines@.len() as int) =~= Seq::<Seq<char>>::empty());
    assert(gpu_views(out@) + Seq::<GpuView>::empty() =~= gpu_views(out@));
    if out.len() == 0 {
        return Err(GpuCsvError::NoData);
    }
    Ok(out)
}

// ------------------------------------------------------------------ laws

proof fn lemma_join_front(a: Seq<char>, rest: Seq<Seq<char>>)
    requires
        rest.len() > 0,
    ensures
        join_sep(seq![a] + rest) == a + seq![',', ' '] + join_sep(rest),
    decreases rest.len(),
{
    let all = seq![a] + rest;
    if rest.len() == 1 {
        assert(all.drop_last() =~= seq![a]);
        assert(join_sep(seq![a]) == a);
        assert(all.last() == rest[0]);
        assert(join_sep(rest) == rest[0]);
    } else {
        assert(all.drop_last() =~= seq![a] + rest.drop_last());
        lemma_join_front(a, rest.drop_last());
        assert(all.last() == rest.last());
        assert(join_sep(all) == join_sep(all.drop_last()) + seq![',', ' '] + all.last());
        assert(join_sep(rest) == join_sep(rest.drop_last()) + seq![',', ' '] + rest.last());
        assert(join_sep(all) =~= a + seq![',', ' '] + join_sep(rest));
    }
}

proof fn lemma_pieces_join(s: Seq<char>, i: int)
    requires
        0 <= i <= s.len(),
    ensures
        pieces_from(s, i).len() > 0,
        join_sep(pieces_from(s, i)) == s.subrange(i, s.len() as int),
    decreases s.len() - i,
{
    lemma_sep_index(s, i);
    let j = sep_index_from(s, i);
    if j < s.len() {
        lemma_pieces_join(s, j + 2);
        lemma_join_front(s.subrange(i, j), pieces_from(s, j + 2));
        assert(s.subrange(i, j) + seq![',', ' '] + s.subrange(j + 2, s.len() as int) =~= s.subrange(i, s.len() as int));
    }
}

/// Splitting a line at `", "` and joining the pieces again with `", "`
/// gives the line back, so no character is lost to the split.
pub proof fn law_split_then_join(line: Seq<char>)
    ensures
        join_sep(pieces_from(line, 0)) == line,
{
    lemma_pieces_join(line, 0);
    assert(line.subrange(0, line.len() as int) =~= line);
}

/// A line never yields more fields than were asked for: pieces past the
/// last field are joined into it.
pub proof fn law_field_count_bounded(line: Seq<char>)
    ensures
        gpu_fields(line).len() <= FIELD_COUNT,
        pieces_from(line, 0).len() >= FIELD_COUNT ==> gpu_fields(line).len() == FIELD_COUNT,
{
}

/// Some line of `ls` has too few fields.
pub open spec fn has_short_line(ls: Seq<Seq<char>>) -> bool {
    exists|i: int| 0 <= i < ls.len() && (#[trigger] gpu_fields(ls[i])).len() < FIELD_COUNT
}

proof fn lemma_rows(ls: Seq<Seq<char>>)
    ensures
        gpu_rows(ls) is Err <==> has_short_line(ls),
        gpu_rows(ls) matches Ok(v) ==> {
            &&& v.len() == ls.len()
            &&& forall|i: int| 0 <= i < ls.len() ==> v[i] == gpu_view_of(#[trigger] gpu_fields(ls[i]))
        },
    decreases ls.len(),
{
    if ls.len() > 0 {
        let rest = ls.drop_first();
        lemma_rows(rest);
        if has_short_line(rest) {
            let j = choose|j: int| 0 <= j < rest.len() && (#[trigger] gpu_fields(rest[j])).len() < FIELD_COUNT;
            assert(rest[j] == ls[j + 1]);
            assert(gpu_fields(ls[j + 1]).len() < FIELD_COUNT);
        }
        if has_short_line(ls) && gpu_fields(ls[0]).len() >= FIELD_COUNT {
            let j = choose|j: int| 0 <= j < ls.len() && (#[trigger] gpu_fields(ls[j])).len() < FIELD_COUNT;
            assert(ls[j] == rest[j - 1]);
            assert(gpu_fields(rest[j - 1]).len() < FIELD_COUNT);
        }
        if let Ok(v) = gpu_rows(ls) {
            assert forall|i: int| 0 <= i < ls.len() implies v[i] == gpu_view_of(#[trigger] gpu_fields(ls[i])) by {
                if i > 0 {
                    assert(ls[i] == rest[i - 1]);
                }
            }
        }
    } else {
        assert(!has_short_line(ls));
    }
}

/// Output that reads successfully describes one GPU per non-empty line,
/// each read from the fields of its line. Reading fails exactly when there
/// is no non-empty line or some line has fewer fields than a GPU needs.
pub proof fn law_one_gpu_per_line(csv: Seq<char>)
    ensures
        gpu_csv_spec(csv) is Err <==> (trimmed_lines(csv).len() == 0 || has_short_line(trimmed_lines(csv))),
        gpu_csv_spec(csv) matches Ok(v) ==> {
            &&& v.len() == trimmed_lines(csv).len()
            &&& forall|i: int| 0 <= i < v.len()
                ==> v[i] == gpu_view_of(#[trigger] gpu_fields(trimmed_lines(csv)[i]))
        },
{
    lemma_rows(trimmed_lines(csv));
}


/// The columns [`NVIDIA_SMI_QUERY`] asks for, in order.
pub open spec fn gpu_query_columns() -> Seq<Seq<char>> {
    seq!["index"@, "name"@, "utilization.gpu"@, "utilization.memory"@, "memory.used"@, "memory.total"@, "memory.free"@, "power.draw"@, "power.limit"@, "temperature.gpu"@, "fan.speed.percent"@, "clocks.sm"@, "clocks.memory"@, "pstate"@, "throttle_reasons"@]
}

/// Names separated by commas.
pub open spec fn comma_list(ns: Seq<Seq<char>>) -> Seq<char>
    decreases ns.len(),
{
    if ns.len() == 0 {
        Seq::empty()
    } else if ns.len() == 1 {
        ns[0]
    } else {
        ns[0] + seq![','] + comma_list(ns.drop_first())
    }
}

/// The query asks for exactly [`gpu_query_columns`], in that order, one
/// per field of a line.
#[verifier::spinoff_prover]
pub proof fn law_query_lists_columns()
    ensures
        comma_list(gpu_query_columns()) == NVIDIA_SMI_QUERY@,
        gpu_query_columns().len() == FIELD_COUNT,
{
    reveal_strlit("index");
    reveal_strlit("name");
    reveal_strlit("utilization.gpu");
    reveal_strlit("utilization.memory");
    reveal_strlit("memory.used");
    reveal_strlit("memory.total");
    reveal_strlit("memory.free");
    reveal_strlit("power.draw");
    reveal_strlit("power.limit");
    reveal_strlit("temperature.gpu");
    reveal_strlit("fan.speed.percent");
    reveal_strlit("clocks.sm");
    reveal_strlit("clocks.memory");
    reveal_strlit("pstate");
    reveal_strlit("throttle_reasons");
    reveal_strlit("index,name,utilization.gpu,utilization.memory,memory.used,memory.total,memory.free,power.draw,power.limit,temperature.gpu,fan.speed.percent,clocks.sm,clocks.memory,pstate,throttle_reasons");
    reveal_with_fuel(comma_list, 16);
    assert(comma_list(gpu_query_columns()) =~= NVIDIA_SMI_QUERY@);
}

/// Position of the first of `ns` at or after `i` equal to `n`
/// (`ns.len()` if none is).
pub open spec fn column_from(ns: Seq<Seq<char>>, n: Seq<char>, i: int) -> int
    decreases ns.len() - i,
{
    if i < 0 || i >= ns.len() {
        ns.len() as int
    } else if ns[i] == n {
        i
    } else {
        column_from(ns, n, i + 1)
    }
}

/// Position of the first of `ns` equal to `n` (`ns.len()` if none is).
pub open spec fn column_of(ns: Seq<Seq<char>>, n: Seq<char>) -> int {
    column_from(ns, n, 0)
}

#[verifier::spinoff_prover]
proof fn lemma_query_columns()
    ensures
        column_of(gpu_query_columns(), "index"@) == 0,
        column_of(gpu_query_columns(), "name"@) == 1,
        column_of(gpu_query_columns(), "utilization.gpu"@) == 2,
        column_of(gpu_query_columns(), "utilization.memory"@) == 3,
        column_of(gpu_query_columns(), "memory.used"@) == 4,
        column_of(gpu_query_columns(), "memory.total"@) == 5,
        column_of(gpu_query_columns(), "memory.free"@) == 6,
        column_of(gpu_query_columns(), "power.draw"@) == 7,
        column_of(gpu_query_columns(), "power.limit"@) == 8,
        column_of(gpu_query_columns(), "temperature.gpu"@) == 9,
        column_of(gpu_query_columns(), "fan.speed.percent"@) == 10,
        column_of(gpu_query_columns(), "clocks.sm"@) == 11,
        column_of(gpu_query_columns(), "clocks.memory"@) == 12,
        column_of(gpu_query_columns(), "pstate"@) == 13,
        column_of(gpu_query_columns(), "throttle_reasons"@) == 14,
{
    reveal_strlit("index");
    reveal_strlit("name");
    reveal_strlit("utilization.gpu");
    reveal_strlit("utilization.memory");
    reveal_strlit("memory.used");
    reveal_strlit("memory.total");
    reveal_strlit("memory.free");
    reveal_strlit("power.draw");
    reveal_strlit("power.limit");
    reveal_strlit("temperature.gpu");
    reveal_strlit("fan.speed.percent");
    reveal_strlit("clocks.sm");
    reveal_strlit("clocks.memory");
    reveal_strlit("pstate");
    reveal_strlit("throttle_reasons");
    assert("index"@.len() == 5);
    assert("name"@.len() == 4);
    assert("utilization.gpu"@.len() == 15);
    assert("utilization.memory"@.len() == 18);
    assert("memory.used"@.len() == 11);
    assert("memory.total"@.len() == 12);
    assert("memory.free"@.len() == 11);
    assert("power.draw"@.len() == 10);
    assert("power.limit"@.len() == 11);
    assert("temperature.gpu"@.len() == 15);
    assert("fan.speed.percent"@.len() == 17);
    assert("clocks.sm"@.len() == 9);
    assert("clocks.memory"@.len() == 13);
    assert("pstate"@.len() == 6);
    assert("throttle_reasons"@.len() == 16);
    assert("memory.used"@[7] != "memory.free"@[7]);
    assert("memory.used"@[0] != "power.limit"@[0]);
    assert("memory.free"@[0] != "power.limit"@[0]);
    assert("utilization.gpu"@[0] != "temperature.gpu"@[0]);
    reveal_with_fuel(column_from, 16);
}

/// Every GPU read from `nvidia-smi` output takes each figure from the
/// column the query names for it, on its own line: the utilizations from
/// `utilization.gpu` and `utilization.memory`, the memory figures from
/// `memory.used`, `memory.total` and `memory.free`, the power figures from
/// `power.draw` and `power.limit`, the temperature from `temperature.gpu`,
/// the fan from `fan.speed.percent`, the clocks from `clocks.sm` and
/// `clocks.memory`, then `pstate` and `throttle_reasons` (the latter with
/// any further fields). Numbers are read after trimming; an unreadable
/// index counts as GPU 0.
#[verifier::spinoff_prover]
pub proof fn law_gpu_fields_from_their_columns(csv: Seq<char>)
    ensures
        gpu_csv_spec(csv) matches Ok(v) ==> forall|i: int| 0 <= i < v.len() ==> {
            let f = gpu_fields(trimmed_lines(csv)[i]);
            let q = gpu_query_columns();
            let g = #[trigger] v[i];
            &&& g.gpu_index == (match field_u32(f[column_of(q, "index"@)]) { Some(x) => x, None => 0 })
            &&& g.gpu_name == f[column_of(q, "name"@)]
            &&& g.gpu_utilization == field_u32(f[column_of(q, "utilization.gpu"@)])
            &&& g.memory_utilization == field_u32(f[column_of(q, "utilization.memory"@)])
            &&& g.memory_used == field_u64(f[column_of(q, "memory.used"@)])
            &&& g.memory_total == field_u64(f[column_of(q, "memory.total"@)])
            &&& g.memory_free == field_u64(f[column_of(q, "memory.free"@)])
            &&& g.power_draw == f[column_of(q, "power.draw"@)]
            &&& g.power_limit == f[column_of(q, "power.limit"@)]
            &&& g.temperature_gpu == field_u32(f[column_of(q, "temperature.gpu"@)])
            &&& g.fan_speed == field_u32(f[column_of(q, "fan.speed.percent"@)])
            &&& g.clock_sm == field_u32(f[column_of(q, "clocks.sm"@)])
            &&& g.clock_memory == field_u32(f[column_of(q, "clocks.memory"@)])
            &&& g.pstate == Some(f[column_of(q, "pstate"@)])
            &&& g.throttle_reasons == Some(join_sep(f.skip(column_of(q, "throttle_reasons"@))))
        },
{
    lemma_query_columns();
    law_one_gpu_per_line(csv);
}

} // verus!

use vstd::prelude::*;
use indexmap::IndexMap;
use crate::analyzer::{seg_line_of, seg_lines_of, Analyzer};
use crate::bi::CBi;
use crate::bi_line::spec_bi_lines;
use crate::bsp::{spec_types_text, CBSPoint};
use crate::enums::BI_DIR;
use crate::kline::{CKLine, KLineView};
use crate::kline_unit::CKLineUnit;
use crate::line::CLine;
use crate::seg::{spec_seg_high, spec_seg_low, CSeg};
use crate::seg_list::segs_wf;
use crate::text::{
    bool_text, int_text, price_text, spec_bi_dir_text, spec_bi_type_text, spec_bool_text,
    spec_fx_text, spec_int_text, spec_kline_dir_text, spec_nat_text, spec_price_text,
    spec_time_cell, time_cell, usize_text,
};
use crate::zs::CZS;

verus! {

// ---------------------------------------------------------------------------
// Ordered maps of texts

#[verifier::external_type_specification]
#[verifier::external_body]
#[verifier::reject_recursive_types(K)]
#[verifier::reject_recursive_types(V)]
#[verifier::reject_recursive_types(S)]
pub struct ExIndexMap<K, V, S>(IndexMap<K, V, S>);

/// What a row holds: its (column, text) cells in the map's order.
pub uninterp spec fn row_cells(m: IndexMap<String, String>) -> Seq<(Seq<char>, Seq<char>)>;

/// What a set of tables holds: each table's name and rows, in the map's
/// order.
pub uninterp spec fn frame_tables(m: IndexMap<String, Vec<IndexMap<String, String>>>) -> Seq<
    (Seq<char>, Seq<Seq<(Seq<char>, Seq<char>)>>),
>;

/// Inserting into an ordered map: a key already there keeps its place and
/// takes the new value; a new key goes last.
pub open spec fn spec_insert<V>(s: Seq<(Seq<char>, V)>, k: Seq<char>, v: V) -> Seq<(Seq<char>, V)> {
    if exists|i: int| 0 <= i < s.len() && (#[trigger] s[i]).0 == k {
        let i = choose|i: int| 0 <= i < s.len() && (#[trigger] s[i]).0 == k;
        s.update(i, (k, v))
    } else {
        s.push((k, v))
    }
}

/// An ordered map filled from empty by inserting the pairs in order.
pub open spec fn spec_insert_all<V>(kvs: Seq<(Seq<char>, V)>) -> Seq<(Seq<char>, V)>
    decreases kvs.len(),
{
    if kvs.len() == 0 {
        Seq::empty()
    } else {
        spec_insert(spec_insert_all(kvs.drop_last()), kvs.last().0, kvs.last().1)
    }
}

pub open spec fn pairs_view(v: Seq<(String, String)>) -> Seq<(Seq<char>, Seq<char>)> {
    v.map_values(|p: (String, String)| (p.0@, p.1@))
}

pub open spec fn rows_view(v: Seq<IndexMap<String, String>>) -> Seq<Seq<(Seq<char>, Seq<char>)>> {
    v.map_values(|r: IndexMap<String, String>| row_cells(r))
}

pub open spec fn tables_view(v: Seq<(String, Vec<IndexMap<String, String>>)>) -> Seq<
    (Seq<char>, Seq<Seq<(Seq<char>, Seq<char>)>>),
> {
    v.map_values(|t: (String, Vec<IndexMap<String, String>>)| (t.0@, rows_view(t.1@)))
}

/// `IndexMap`'s `FromIterator` (`collect`) over (column, text) pairs. The
/// indexmap documentation says it inserts the pairs in order: a new key goes
/// last, a key met again keeps its place and takes the later value. Claimed
/// as `spec_insert_all` says.
#[verifier::external_body]
fn row_from_pairs(pairs: Vec<(String, String)>) -> (r: IndexMap<String, String>)
    ensures
        row_cells(r) == spec_insert_all(pairs_view(pairs@)),
{
    pairs.into_iter().collect()
}

/// `IndexMap`'s `FromIterator` (`collect`) over (name, rows) tables, as for
/// `row_from_pairs`: the same outside function at the type of a set of
/// tables.
#[verifier::external_body]
fn frames_from_tables(tables: Vec<(String, Vec<IndexMap<String, String>>)>) -> (r: IndexMap<
    String,
    Vec<IndexMap<String, String>>,
>)
    ensures
        frame_tables(r) == spec_insert_all(tables_view(tables@)),
{
    tables.into_iter().collect()
}

fn cell(k: &str, v: String) -> (r: (String, String))
    ensures
        r.0@ == k@,
        r.1@ == v@,
{
    (k.to_owned(), v)
}

// ---------------------------------------------------------------------------
// Cells

/// The time of bar `k`, or nothing when there is no such bar.
pub open spec fn spec_unit_time(units: Seq<CKLineUnit>, k: int) -> Seq<char> {
    if 0 <= k < units.len() {
        spec_time_cell(units[k].time)
    } else {
        Seq::empty()
    }
}

pub open spec fn spec_opt_text(o: Option<usize>) -> Seq<char> {
    match o {
        Some(n) => spec_nat_text(n as nat),
        None => Seq::empty(),
    }
}

fn unit_time(units: &Vec<CKLineUnit>, k: usize) -> (r: String)
    ensures
        r@ == spec_unit_time(units@, k as int),
{
    if k < units.len() {
        time_cell(units[k].time)
    } else {
        String::new()
    }
}

fn opt_text(o: Option<usize>) -> (r: String)
    ensures
        r@ == spec_opt_text(o),
{
    match o {
        Some(n) => usize_text(n),
        None => String::new(),
    }
}

/// The first segment holding line `i`, looking from segment `k` on.
pub open spec fn spec_parent_from(segs: Seq<CSeg>, i: int, k: int) -> Option<usize>
    decreases segs.len() - k,
{
    if k < 0 || k >= segs.len() {
        None
    } else if segs[k].start_bi <= i <= segs[k].end_bi {
        Some(k as usize)
    } else {
        spec_parent_from(segs, i, k + 1)
    }
}

/// The segment a line lies in: the first one holding it.
pub open spec fn spec_parent(segs: Seq<CSeg>, i: int) -> Option<usize> {
    spec_parent_from(segs, i, 0)
}

pub open spec fn spec_parent_dir_text(segs: Seq<CSeg>, p: Option<usize>) -> Seq<char> {
    match p {
        Some(k) => spec_bi_dir_text(segs[k as int].dir),
        None => Seq::empty(),
    }
}

pub(crate) fn parent_of(segs: &Vec<CSeg>, i: usize) -> (r: Option<usize>)
    ensures
        r == spec_parent(segs@, i as int),
        r matches Some(k) ==> k < segs@.len(),
{
    let mut k: usize = 0;
    while k < segs.len()
        invariant
            k <= segs@.len(),
            spec_parent_from(segs@, i as int, k as int) == spec_parent(segs@, i as int),
        decreases segs@.len() - k,
    {
        if segs[k].start_bi <= i && i <= segs[k].end_bi {
            return Some(k);
        }
        k = k + 1;
    }
    None
}

fn parent_dir_text(segs: &Vec<CSeg>, p: Option<usize>) -> (r: String)
    requires
        p matches Some(k) ==> k < segs@.len(),
    ensures
        r@ == spec_parent_dir_text(segs@, p),
{
    match p {
        Some(k) => segs[k].dir.text(),
        None => String::new(),
    }
}

// ---------------------------------------------------------------------------
// Rows

pub open spec fn spec_kline_cells(k: KLineView) -> Seq<(Seq<char>, Seq<char>)> {
    seq![
        ("begin_time"@, spec_time_cell(k.time_begin)),
        ("end_time"@, spec_time_cell(k.time_end)),
        ("idx"@, spec_nat_text(k.idx as nat)),
        ("dir"@, spec_kline_dir_text(k.dir)),
        ("high"@, spec_price_text(k.high as int)),
        ("low"@, spec_price_text(k.low as int)),
        ("fx"@, spec_fx_text(k.fx)),
    ]
}

fn kline_row(k: &CKLine) -> (r: IndexMap<String, String>)
    ensures
        row_cells(r) == spec_insert_all(spec_kline_cells(k@)),
{
    let mut v: Vec<(String, String)> = Vec::new();
    v.push(cell("begin_time", time_cell(k.time_begin)));
    v.push(cell("end_time", time_cell(k.time_end)));
    v.push(cell("idx", usize_text(k.idx)));
    v.push(cell("dir", k.dir.text()));
    v.push(cell("high", price_text(k.high)));
    v.push(cell("low", price_text(k.low)));
    v.push(cell("fx", k.fx.text()));
    assert(pairs_view(v@) =~= spec_kline_cells(k@));
    row_from_pairs(v)
}

pub open spec fn spec_bi_cells(b: CBi, l: CLine, units: Seq<CKLineUnit>, segs: Seq<CSeg>) -> Seq<
    (Seq<char>, Seq<char>),
> {
    let p = spec_parent(segs, b.idx as int);
    seq![
        ("begin_time"@, spec_unit_time(units, l.begin_klu as int)),
        ("end_time"@, spec_unit_time(units, l.end_klu as int)),
        ("idx"@, spec_nat_text(b.idx as nat)),
        ("dir"@, spec_bi_dir_text(b.dir)),
        ("high"@, spec_price_text(l.high as int)),
        ("low"@, spec_price_text(l.low as int)),
        ("type"@, spec_bi_type_text(b.bi_type)),
        ("is_sure"@, spec_bool_text(b.is_sure)),
        ("seg_idx"@, spec_opt_text(b.seg_idx)),
        ("begin_klc"@, spec_nat_text(b.begin_klc as nat)),
        ("end_klc"@, spec_nat_text(b.end_klc as nat)),
        ("begin_val"@, spec_price_text(l.begin_val as int)),
        ("end_val"@, spec_price_text(l.end_val as int)),
        ("klu_cnt"@, spec_int_text(l.end_klu - l.begin_klu + 1)),
        ("klc_cnt"@, spec_int_text(b.end_klc - b.begin_klc + 1)),
        ("parent_seg_idx"@, spec_opt_text(p)),
        ("parent_seg_dir"@, spec_parent_dir_text(segs, p)),
    ]
}

fn bi_row(b: &CBi, l: &CLine, units: &Vec<CKLineUnit>, segs: &Vec<CSeg>) -> (r: IndexMap<String, String>)
    ensures
        row_cells(r) == spec_insert_all(spec_bi_cells(*b, *l, units@, segs@)),
{
    let p = parent_of(segs, b.idx);
    let mut v: Vec<(String, String)> = Vec::new();
    v.push(cell("begin_time", unit_time(units, l.begin_klu)));
    v.push(cell("end_time", unit_time(units, l.end_klu)));
    v.push(cell("idx", usize_text(b.idx)));
    v.push(cell("dir", b.dir.text()));
    v.push(cell("high", price_text(l.high)));
    v.push(cell("low", price_text(l.low)));
    v.push(cell("type", b.bi_type.text()));
    v.push(cell("is_sure", bool_text(b.is_sure)));
    v.push(cell("seg_idx", opt_text(b.seg_idx)));
    v.push(cell("begin_klc", usize_text(b.begin_klc)));
    v.push(cell("end_klc", usize_text(b.end_klc)));
    v.push(cell("begin_val", price_text(l.begin_val)));
    v.push(cell("end_val", price_text(l.end_val)));
    v.push(cell("klu_cnt", int_text(l.end_klu as i128 - l.begin_klu as i128 + 1)));
    v.push(cell("klc_cnt", int_text(b.end_klc as i128 - b.begin_klc as i128 + 1)));
    v.push(cell("parent_seg_idx", opt_text(p)));
    v.push(cell("parent_seg_dir", parent_dir_text(segs, p)));
    assert(pairs_view(v@) =~= spec_bi_cells(*b, *l, units@, segs@));
    row_from_pairs(v)
}

/// The time a segment starts at, or nothing when its first line is missing.
pub open spec fn spec_seg_begin_time(lines: Seq<CLine>, units: Seq<CKLineUnit>, s: CSeg) -> Seq<char> {
    if s.start_bi < lines.len() {
        spec_unit_time(units, lines[s.start_bi as int].begin_klu as int)
    } else {
        Seq::empty()
    }
}

/// The time a segment ends at, or nothing when its last line is missing.
pub open spec fn spec_seg_end_time(lines: Seq<CLine>, units: Seq<CKLineUnit>, s: CSeg) -> Seq<char> {
    if s.end_bi < lines.len() {
        spec_unit_time(units, lines[s.end_bi as int].end_klu as int)
    } else {
        Seq::empty()
    }
}

/// A segment's high (`is_high`) or low, or nothing when a line is missing.
pub open spec fn spec_seg_peak(lines: Seq<CLine>, s: CSeg, is_high: bool) -> Seq<char> {
    if s.start_bi < lines.len() && s.end_bi < lines.len() {
        let v = if is_high {
            spec_seg_high(lines, s.start_bi as int, s.end_bi as int, s.dir)
        } else {
            spec_seg_low(lines, s.start_bi as int, s.end_bi as int, s.dir)
        };
        spec_price_text(v as int)
    } else {
        Seq::empty()
    }
}

/// The cells a segment's row shares at both levels; `upper` names the lines
/// it spans segments rather than strokes.
pub open spec fn spec_seg_base_cells(s: CSeg, lines: Seq<CLine>, units: Seq<CKLineUnit>, upper: bool) -> Seq<
    (Seq<char>, Seq<char>),
> {
    seq![
        ("begin_time"@, spec_seg_begin_time(lines, units, s)),
        ("end_time"@, spec_seg_end_time(lines, units, s)),
        ("idx"@, spec_nat_text(s.idx as nat)),
        ("dir"@, spec_bi_dir_text(s.dir)),
        ("high"@, spec_seg_peak(lines, s, true)),
        ("low"@, spec_seg_peak(lines, s, false)),
        ("is_sure"@, spec_bool_text(s.is_sure)),
        (if upper { "start_seg_idx"@ } else { "start_bi_idx"@ }, spec_nat_text(s.start_bi as nat)),
        (if upper { "end_seg_idx"@ } else { "end_bi_idx"@ }, spec_nat_text(s.end_bi as nat)),
        ("zs_count"@, spec_nat_text(s.zs_lst@.len())),
        ("bi_count"@, spec_int_text(s.end_bi - s.start_bi + 1)),
        ("reason"@, s.reason@),
    ]
}

/// A segment's row over strokes: the shared cells, then the segment one
/// level up that holds it.
pub open spec fn spec_seg_cells(s: CSeg, lines: Seq<CLine>, units: Seq<CKLineUnit>, parents: Seq<CSeg>) -> Seq<
    (Seq<char>, Seq<char>),
> {
    let p = spec_parent(parents, s.idx as int);
    spec_seg_base_cells(s, lines, units, false) + seq![
        ("parent_seg_idx"@, spec_opt_text(p)),
        ("parent_seg_dir"@, spec_parent_dir_text(parents, p)),
    ]
}

fn seg_base_pairs(s: &CSeg, lines: &Vec<CLine>, units: &Vec<CKLineUnit>, upper: bool) -> (r: Vec<(String, String)>)
    ensures
        pairs_view(r@) == spec_seg_base_cells(*s, lines@, units@, upper),
{
    let n = lines.len();
    let begin_time = if s.start_bi < n {
        unit_time(units, lines[s.start_bi].begin_klu)
    } else {
        String::new()
    };
    let end_time = if s.end_bi < n {
        unit_time(units, lines[s.end_bi].end_klu)
    } else {
        String::new()
    };
    let (high, low) = if s.start_bi < n && s.end_bi < n {
        (price_text(s.high(lines)), price_text(s.low(lines)))
    } else {
        (String::new(), String::new())
    };
    let mut v: Vec<(String, String)> = Vec::new();
    v.push(cell("begin_time", begin_time));
    v.push(cell("end_time", end_time));
    v.push(cell("idx", usize_text(s.idx)));
    v.push(cell("dir", s.dir.text()));
    v.push(cell("high", high));
    v.push(cell("low", low));
    v.push(cell("is_sure", bool_text(s.is_sure)));
    if upper {
        v.push(cell("start_seg_idx", usize_text(s.start_bi)));
        v.push(cell("end_seg_idx", usize_text(s.end_bi)));
    } else {
        v.push(cell("start_bi_idx", usize_text(s.start_bi)));
        v.push(cell("end_bi_idx", usize_text(s.end_bi)));
    }
    v.push(cell("zs_count", usize_text(s.zs_lst.len())));
    v.push(cell("bi_count", int_text(s.end_bi as i128 - s.start_bi as i128 + 1)));
    v.push(cell("reason", s.reason.clone()));
    assert(pairs_view(v@) =~= spec_seg_base_cells(*s, lines@, units@, upper));
    v
}

fn seg_row(s: &CSeg, lines: &Vec<CLine>, units: &Vec<CKLineUnit>, parents: &Vec<CSeg>) -> (r: IndexMap<String, String>)
    ensures
        row_cells(r) == spec_insert_all(spec_seg_cells(*s, lines@, units@, parents@)),
{
    let mut v = seg_base_pairs(s, lines, units, false);
    let ghost base = v@;
    let p = parent_of(parents, s.idx);
    v.push(cell("parent_seg_idx", opt_text(p)));
    v.push(cell("parent_seg_dir", parent_dir_text(parents, p)));
    assert(pairs_view(v@) =~= spec_seg_cells(*s, lines@, units@, parents@)) by {
        assert(pairs_view(v@) =~= pairs_view(base) + pairs_view(v@.subrange(base.len() as int, v@.len() as int)));
    }
    row_from_pairs(v)
}

fn segseg_row(s: &CSeg, lines: &Vec<CLine>, units: &Vec<CKLineUnit>) -> (r: IndexMap<String, String>)
    ensures
        row_cells(r) == spec_insert_all(spec_seg_base_cells(*s, lines@, units@, true)),
{
    row_from_pairs(seg_base_pairs(s, lines, units, true))
}

/// The time of the start (`at_begin`) or end of a pivot's first or last
/// line, or nothing when it is missing.
pub open spec fn spec_zs_time(lines: Seq<CLine>, units: Seq<CKLineUnit>, b: Option<usize>, at_begin: bool) -> Seq<char> {
    match b {
        Some(i) => if i < lines.len() {
            spec_unit_time(units, if at_begin { lines[i as int].begin_klu as int } else { lines[i as int].end_klu as int })
        } else {
            Seq::empty()
        },
        None => Seq::empty(),
    }
}

pub open spec fn spec_zs_cells(z: CZS, lines: Seq<CLine>, units: Seq<CKLineUnit>, upper: bool) -> Seq<
    (Seq<char>, Seq<char>),
> {
    seq![
        ("begin_time"@, spec_zs_time(lines, units, z.begin_bi, true)),
        ("end_time"@, spec_zs_time(lines, units, z.end_bi, false)),
        ("high"@, spec_price_text(z.high as int)),
        ("low"@, spec_price_text(z.low as int)),
        ("peak_high"@, spec_price_text(z.peak_high as int)),
        ("peak_low"@, spec_price_text(z.peak_low as int)),
        ("is_sure"@, spec_bool_text(z.is_sure)),
        (if upper { "begin_seg_idx"@ } else { "begin_bi_idx"@ }, spec_opt_text(z.begin_bi)),
        (if upper { "end_seg_idx"@ } else { "end_bi_idx"@ }, spec_opt_text(z.end_bi)),
        ("bi_in"@, spec_opt_text(z.bi_in)),
        ("bi_out"@, spec_opt_text(z.bi_out)),
        ("sub_zs_count"@, spec_nat_text(z.sub_zs_lst@.len())),
    ]
}

fn zs_time(lines: &Vec<CLine>, units: &Vec<CKLineUnit>, b: Option<usize>, at_begin: bool) -> (r: String)
    ensures
        r@ == spec_zs_time(lines@, units@, b, at_begin),
{
    match b {
        Some(i) => if i < lines.len() {
            unit_time(units, if at_begin { lines[i].begin_klu } else { lines[i].end_klu })
        } else {
            String::new()
        },
        None => String::new(),
    }
}

fn zs_row(z: &CZS, lines: &Vec<CLine>, units: &Vec<CKLineUnit>, upper: bool) -> (r: IndexMap<String, String>)
    ensures
        row_cells(r) == spec_insert_all(spec_zs_cells(*z, lines@, units@, upper)),
{
    let mut v: Vec<(String, String)> = Vec::new();
    v.push(cell("begin_time", zs_time(lines, units, z.begin_bi, true)));
    v.push(cell("end_time", zs_time(lines, units, z.end_bi, false)));
    v.push(cell("high", price_text(z.high)));
    v.push(cell("low", price_text(z.low)));
    v.push(cell("peak_high", price_text(z.peak_high)));
    v.push(cell("peak_low", price_text(z.peak_low)));
    v.push(cell("is_sure", bool_text(z.is_sure)));
    if upper {
        v.push(cell("begin_seg_idx", opt_text(z.begin_bi)));
        v.push(cell("end_seg_idx", opt_text(z.end_bi)));
    } else {
        v.push(cell("begin_bi_idx", opt_text(z.begin_bi)));
        v.push(cell("end_bi_idx", opt_text(z.end_bi)));
    }
    v.push(cell("bi_in", opt_text(z.bi_in)));
    v.push(cell("bi_out", opt_text(z.bi_out)));
    v.push(cell("sub_zs_count", usize_text(z.sub_zs_lst.len())));
    assert(pairs_view(v@) =~= spec_zs_cells(*z, lines@, units@, upper));
    row_from_pairs(v)
}

// ---------------------------------------------------------------------------
// Tables

pub open spec fn spec_kline_rows(ks: Seq<KLineView>) -> Seq<Seq<(Seq<char>, Seq<char>)>> {
    Seq::new(ks.len(), |i: int| spec_insert_all(spec_kline_cells(ks[i])))
}

pub open spec fn spec_bi_rows(bis: Seq<CBi>, lines: Seq<CLine>, units: Seq<CKLineUnit>, segs: Seq<CSeg>) -> Seq<
    Seq<(Seq<char>, Seq<char>)>,
> {
    Seq::new(bis.len(), |i: int| spec_insert_all(spec_bi_cells(bis[i], lines[i], units, segs)))
}

pub open spec fn spec_seg_rows(segs: Seq<CSeg>, lines: Seq<CLine>, units: Seq<CKLineUnit>, parents: Seq<CSeg>) -> Seq<
    Seq<(Seq<char>, Seq<char>)>,
> {
    Seq::new(segs.len(), |i: int| spec_insert_all(spec_seg_cells(segs[i], lines, units, parents)))
}

pub open spec fn spec_segseg_rows(segs: Seq<CSeg>, lines: Seq<CLine>, units: Seq<CKLineUnit>) -> Seq<
    Seq<(Seq<char>, Seq<char>)>,
> {
    Seq::new(segs.len(), |i: int| spec_insert_all(spec_seg_base_cells(segs[i], lines, units, true)))
}

pub open spec fn spec_zs_rows(zs: Seq<CZS>, lines: Seq<CLine>, units: Seq<CKLineUnit>, upper: bool) -> Seq<
    Seq<(Seq<char>, Seq<char>)>,
> {
    Seq::new(zs.len(), |i: int| spec_insert_all(spec_zs_cells(zs[i], lines, units, upper)))
}

/// The segments as lines one level up, when they fit the lines below;
/// none otherwise.
pub open spec fn spec_seg_lines(lines: Seq<CLine>, segs: Seq<CSeg>) -> Seq<CLine> {
    if segs_wf(segs, lines) {
        Seq::new(segs.len(), |k: int| seg_line_of(lines, segs[k]))
    } else {
        Seq::empty()
    }
}

fn kline_table(ks: &Vec<CKLine>) -> (r: Vec<IndexMap<String, String>>)
    ensures
        rows_view(r@) == spec_kline_rows(ks@.map_values(|k: CKLine| k@)),
{
    let ghost kv = ks@.map_values(|k: CKLine| k@);
    let mut out: Vec<IndexMap<String, String>> = Vec::new();
    let mut i: usize = 0;
    while i < ks.len()
        invariant
            kv == ks@.map_values(|k: CKLine| k@),
            i <= ks@.len(),
            out@.len() == i,
            forall|j: int| 0 <= j < i ==> row_cells(#[trigger] out@[j]) == spec_insert_all(spec_kline_cells(kv[j])),
        decreases ks@.len() - i,
    {
        out.push(kline_row(&ks[i]));
        i = i + 1;
    }
    assert(rows_view(out@) =~= spec_kline_rows(kv));
    out
}

fn bi_table(bis: &Vec<CBi>, lines: &Vec<CLine>, units: &Vec<CKLineUnit>, segs: &Vec<CSeg>) -> (r: Vec<IndexMap<String, String>>)
    requires
        lines@.len() == bis@.len(),
    ensures
        rows_view(r@) == spec_bi_rows(bis@, lines@, units@, segs@),
{
    let mut out: Vec<IndexMap<String, String>> = Vec::new();
    let mut i: usize = 0;
    while i < bis.len()
        invariant
            lines@.len() == bis@.len(),
            i <= bis@.len(),
            out@.len() == i,
            forall|j: int| 0 <= j < i ==> row_cells(#[trigger] out@[j]) == spec_insert_all(
                spec_bi_cells(bis@[j], lines@[j], units@, segs@),
            ),
        decreases bis@.len() - i,
    {
        out.push(bi_row(&bis[i], &lines[i], units, segs));
        i = i + 1;
    }
    assert(rows_view(out@) =~= spec_bi_rows(bis@, lines@, units@, segs@));
    out
}

fn seg_table(segs: &Vec<CSeg>, lines: &Vec<CLine>, units: &Vec<CKLineUnit>, parents: &Vec<CSeg>) -> (r: Vec<IndexMap<String, String>>)
    ensures
        rows_view(r@) == spec_seg_rows(segs@, lines@, units@, parents@),
{
    let mut out: Vec<IndexMap<String, String>> = Vec::new();
    let mut i: usize = 0;
    while i < segs.len()
        invariant
            i <= segs@.len(),
            out@.len() == i,
            forall|j: int| 0 <= j < i ==> row_cells(#[trigger] out@[j]) == spec_insert_all(
                spec_seg_cells(segs@[j], lines@, units@, parents@),
            ),
        decreases segs@.len() - i,
    {
        out.push(seg_row(&segs[i], lines, units, parents));
        i = i + 1;
    }
    assert(rows_view(out@) =~= spec_seg_rows(segs@, lines@, units@, parents@));
    out
}

fn segseg_table(segs: &Vec<CSeg>, lines: &Vec<CLine>, units: &Vec<CKLineUnit>) -> (r: Vec<IndexMap<String, String>>)
    ensures
        rows_view(r@) == spec_segseg_rows(segs@, lines@, units@),
{
    let mut out: Vec<IndexMap<String, String>> = Vec::new();
    let mut i: usize = 0;
    while i < segs.len()
        invariant
            i <= segs@.len(),
            out@.len() == i,
            forall|j: int| 0 <= j < i ==> row_cells(#[trigger] out@[j]) == spec_insert_all(
                spec_seg_base_cells(segs@[j], lines@, units@, true),
            ),
        decreases segs@.len() - i,
    {
        out.push(segseg_row(&segs[i], lines, units));
        i = i + 1;
    }
    assert(rows_view(out@) =~= spec_segseg_rows(segs@, lines@, units@));
    out
}

fn zs_table(zs: &Vec<CZS>, lines: &Vec<CLine>, units: &Vec<CKLineUnit>, upper: bool) -> (r: Vec<IndexMap<String, String>>)
    ensures
        rows_view(r@) == spec_zs_rows(zs@, lines@, units@, upper),
{
    let mut out: Vec<IndexMap<String, String>> = Vec::new();
    let mut i: usize = 0;
    while i < zs.len()
        invariant
            i <= zs@.len(),
            out@.len() == i,
            forall|j: int| 0 <= j < i ==> row_cells(#[trigger] out@[j]) == spec_insert_all(
                spec_zs_cells(zs@[j], lines@, units@, upper),
            ),
        decreases zs@.len() - i,
    {
        out.push(zs_row(&zs[i], lines, units, upper));
        i = i + 1;
    }
    assert(rows_view(out@) =~= spec_zs_rows(zs@, lines@, units@, upper));
    out
}

// ---------------------------------------------------------------------------
// Buy/sell points

/// The time of the start (`at_begin`) or end of line `i`, or nothing when
/// there is no such line.
pub open spec fn spec_line_time(lines: Seq<CLine>, units: Seq<CKLineUnit>, i: usize, at_begin: bool) -> Seq<char> {
    spec_zs_time(lines, units, Some(i), at_begin)
}

/// The time of the end of the line of a point's first-class point, or
/// `None` when it has none.
pub open spec fn spec_relate_text(lines: Seq<CLine>, units: Seq<CKLineUnit>, r: Option<usize>) -> Seq<char> {
    match r {
        Some(b) => spec_line_time(lines, units, b, false),
        None => "None"@,
    }
}

pub open spec fn spec_bsp_cells(p: CBSPoint, lines: Seq<CLine>, units: Seq<CKLineUnit>, idx_key: Seq<char>) -> Seq<
    (Seq<char>, Seq<char>),
> {
    seq![
        ("begin_time"@, spec_unit_time(units, p.klu as int)),
        ("bsp_type"@, spec_types_text(p.bsp_type@)),
        (idx_key, spec_nat_text(p.bi as nat)),
        ("bi_begin_time"@, spec_line_time(lines, units, p.bi, true)),
        ("bi_end_time"@, spec_line_time(lines, units, p.bi, false)),
        ("relate_bsp1_time"@, spec_relate_text(lines, units, p.relate_bsp1)),
    ]
}

/// The rows of a level's points, in order; `idx_key` names the line column.
pub open spec fn spec_bsp_rows(ps: Seq<CBSPoint>, lines: Seq<CLine>, units: Seq<CKLineUnit>, idx_key: Seq<char>) -> Seq<
    Seq<(Seq<char>, Seq<char>)>,
> {
    Seq::new(ps.len(), |i: int| spec_insert_all(spec_bsp_cells(ps[i], lines, units, idx_key)))
}

pub open spec fn spec_history_cells(p: CBSPoint, lines: Seq<CLine>, units: Seq<CKLineUnit>, idx_key: Seq<char>) -> Seq<
    (Seq<char>, Seq<char>),
> {
    seq![
        ("begin_time"@, spec_unit_time(units, p.klu as int)),
        ("bsp_type"@, spec_types_text(p.bsp_type@)),
        ("is_buy"@, spec_bool_word(p.is_buy)),
        ("relate_bsp1"@, spec_relate_text(lines, units, p.relate_bsp1)),
        (idx_key, spec_nat_text(p.bi as nat)),
        ("bi_begin_time"@, spec_line_time(lines, units, p.bi, true)),
        ("bi_end_time"@, spec_line_time(lines, units, p.bi, false)),
    ]
}

/// A flag as std's `to_string` writes it: `true` or `false`.
pub open spec fn spec_bool_word(b: bool) -> Seq<char> {
    if b { "true"@ } else { "false"@ }
}

fn bool_word(b: bool) -> (r: String)
    ensures
        r@ == spec_bool_word(b),
{
    if b {
        "true".to_owned()
    } else {
        "false".to_owned()
    }
}

fn relate_text(lines: &Vec<CLine>, units: &Vec<CKLineUnit>, r: Option<usize>) -> (t: String)
    ensures
        t@ == spec_relate_text(lines@, units@, r),
{
    match r {
        Some(b) => zs_time(lines, units, Some(b), false),
        None => {
            proof {
                reveal_strlit("None");
            }
            "None".to_owned()
        },
    }
}

/// The row of one point; `idx_key` names the line column.
pub fn bsp_row(p: &CBSPoint, lines: &Vec<CLine>, units: &Vec<CKLineUnit>, idx_key: &str) -> (r: IndexMap<String, String>)
    ensures
        row_cells(r) == spec_insert_all(spec_bsp_cells(*p, lines@, units@, idx_key@)),
{
    let mut v: Vec<(String, String)> = Vec::new();
    v.push(cell("begin_time", unit_time(units, p.klu)));
    v.push(cell("bsp_type", p.type2str()));
    v.push(cell(idx_key, usize_text(p.bi)));
    v.push(cell("bi_begin_time", zs_time(lines, units, Some(p.bi), true)));
    v.push(cell("bi_end_time", zs_time(lines, units, Some(p.bi), false)));
    v.push(cell("relate_bsp1_time", relate_text(lines, units, p.relate_bsp1)));
    assert(pairs_view(v@) =~= spec_bsp_cells(*p, lines@, units@, idx_key@));
    row_from_pairs(v)
}

/// The rows of a level's points, in order.
pub fn bsp_rows(points: &Vec<CBSPoint>, lines: &Vec<CLine>, units: &Vec<CKLineUnit>, idx_key: &str) -> (r: Vec<
    IndexMap<String, String>,
>)
    ensures
        rows_view(r@) == spec_bsp_rows(points@, lines@, units@, idx_key@),
{
    let mut out: Vec<IndexMap<String, String>> = Vec::new();
    let mut i: usize = 0;
    while i < points.len()
        invariant
            i <= points@.len(),
            out@.len() == i,
            forall|j: int| 0 <= j < i ==> row_cells(#[trigger] out@[j]) == spec_insert_all(
                spec_bsp_cells(points@[j], lines@, units@, idx_key@),
            ),
        decreases points@.len() - i,
    {
        out.push(bsp_row(&points[i], lines, units, idx_key));
        i = i + 1;
    }
    assert(rows_view(out@) =~= spec_bsp_rows(points@, lines@, units@, idx_key@));
    out
}

/// The row recording a level's latest point.
pub fn history_row(p: &CBSPoint, lines: &Vec<CLine>, units: &Vec<CKLineUnit>, idx_key: &str) -> (r: IndexMap<
    String,
    String,
>)
    ensures
        row_cells(r) == spec_insert_all(spec_history_cells(*p, lines@, units@, idx_key@)),
{
    let mut v: Vec<(String, String)> = Vec::new();
    v.push(cell("begin_time", unit_time(units, p.klu)));
    v.push(cell("bsp_type", p.type2str()));
    v.push(cell("is_buy", bool_word(p.is_buy)));
    v.push(cell("relate_bsp1", relate_text(lines, units, p.relate_bsp1)));
    v.push(cell(idx_key, usize_text(p.bi)));
    v.push(cell("bi_begin_time", zs_time(lines, units, Some(p.bi), true)));
    v.push(cell("bi_end_time", zs_time(lines, units, Some(p.bi), false)));
    assert(pairs_view(v@) =~= spec_history_cells(*p, lines@, units@, idx_key@));
    row_from_pairs(v)
}

/// Records a level's latest point, if it has any, at the end of its
/// history.
pub fn record_last_bsp(
    history: &mut Vec<IndexMap<String, String>>,
    points: &Vec<CBSPoint>,
    lines: &Vec<CLine>,
    units: &Vec<CKLineUnit>,
    idx_key: &str,
)
    ensures
        points@.len() == 0 ==> rows_view(final(history)@) == rows_view(old(history)@),
        points@.len() > 0 ==> rows_view(final(history)@) == rows_view(old(history)@).push(
            spec_insert_all(spec_history_cells(points@.last(), lines@, units@, idx_key@)),
        ),
{
    let ghost h0 = history@;
    let n = points.len();
    if n > 0 {
        let row = history_row(&points[n - 1], lines, units, idx_key);
        history.push(row);
        assert(rows_view(history@) =~= rows_view(h0).push(
            spec_insert_all(spec_history_cells(points@.last(), lines@, units@, idx_key@)),
        ));
    }
}

impl Analyzer {
    /// The tables of the analysis, in order: combined K-lines, strokes,
    /// segments, pivots, buy/sell points, segments and pivots one level up,
    /// their buy/sell points, and the two histories of buy/sell points, the
    /// four buy/sell tables given as rows.
    pub open spec fn spec_frames(
        &self,
        bsp: Seq<Seq<(Seq<char>, Seq<char>)>>,
        seg_bsp: Seq<Seq<(Seq<char>, Seq<char>)>>,
        bsp_history: Seq<Seq<(Seq<char>, Seq<char>)>>,
        seg_bsp_history: Seq<Seq<(Seq<char>, Seq<char>)>>,
    ) -> Seq<(Seq<char>, Seq<Seq<(Seq<char>, Seq<char>)>>)> {
        let lines = self.bi_lines();
        let units = self.candle_list.units@;
        let seg_lines = spec_seg_lines(lines, self.seg_list.lst@);
        seq![
            ("kline_list"@, spec_kline_rows(self.candle_list.klcs())),
            ("bi_list"@, spec_bi_rows(self.bi_list.bi_list@, lines, units, self.seg_list.lst@)),
            ("seg_list"@, spec_seg_rows(self.seg_list.lst@, lines, units, self.segseg_list.lst@)),
            ("zs_list"@, spec_zs_rows(self.zs_list.zs_lst@, lines, units, false)),
            ("bs_point_lst"@, bsp),
            ("seg_seg_list"@, spec_segseg_rows(self.segseg_list.lst@, seg_lines, units)),
            ("seg_zs_list"@, spec_zs_rows(self.segzs_list.zs_lst@, seg_lines, units, true)),
            ("seg_bs_point_lst"@, seg_bsp),
            ("bs_point_history"@, bsp_history),
            ("seg_bs_point_history"@, seg_bsp_history),
        ]
    }

    /// The analysis as named tables of text rows, as `spec_frames` lists
    /// them, with the rows of the points of both levels; the two histories
    /// of points are the rows recorded so far.
    pub fn to_dataframes(
        &self,
        bs_points: &Vec<CBSPoint>,
        seg_bs_points: &Vec<CBSPoint>,
        bs_point_history: Vec<IndexMap<String, String>>,
        seg_bs_point_history: Vec<IndexMap<String, String>>,
    ) -> (r: IndexMap<String, Vec<IndexMap<String, String>>>)
        requires
            self.wf(),
        ensures
            frame_tables(r) == spec_insert_all(
                self.spec_frames(
                    spec_bsp_rows(bs_points@, self.bi_lines(), self.candle_list.units@, "bi_idx"@),
                    spec_bsp_rows(
                        seg_bs_points@,
                        spec_seg_lines(self.bi_lines(), self.seg_list.lst@),
                        self.candle_list.units@,
                        "seg_idx"@,
                    ),
                    rows_view(bs_point_history@),
                    rows_view(seg_bs_point_history@),
                ),
            ),
    {
        let lines = self.bi_list.to_lines(&self.candle_list);
        let units = &self.candle_list.units;
        let seg_lines = if self.seg_list.fits_lines(&lines) {
            seg_lines_of(&self.seg_list, &lines)
        } else {
            Vec::new()
        };
        proof {
            assert(seg_lines@ =~= spec_seg_lines(lines@, self.seg_list.lst@));
            assert(self.candle_list.lst@.map_values(|k: CKLine| k@) == self.candle_list.klcs());
        }
        let bsp = bsp_rows(bs_points, &lines, units, "bi_idx");
        let seg_bsp = bsp_rows(seg_bs_points, &seg_lines, units, "seg_idx");
        let ghost b0 = rows_view(bsp@);
        let ghost b1 = rows_view(seg_bsp@);
        let ghost b2 = rows_view(bs_point_history@);
        let ghost b3 = rows_view(seg_bs_point_history@);
        let mut v: Vec<(String, Vec<IndexMap<String, String>>)> = Vec::new();
        v.push(("kline_list".to_owned(), kline_table(&self.candle_list.lst)));
        v.push(("bi_list".to_owned(), bi_table(&self.bi_list.bi_list, &lines, units, &self.seg_list.lst)));
        v.push(("seg_list".to_owned(), seg_table(&self.seg_list.lst, &lines, units, &self.segseg_list.lst)));
        v.push(("zs_list".to_owned(), zs_table(&self.zs_list.zs_lst, &lines, units, false)));
        v.push(("bs_point_lst".to_owned(), bsp));
        v.push(("seg_seg_list".to_owned(), segseg_table(&self.segseg_list.lst, &seg_lines, units)));
        v.push(("seg_zs_list".to_owned(), zs_table(&self.segzs_list.zs_lst, &seg_lines, units, true)));
        v.push(("seg_bs_point_lst".to_owned(), seg_bsp));
        v.push(("bs_point_history".to_owned(), bs_point_history));
        v.push(("seg_bs_point_history".to_owned(), seg_bs_point_history));
        assert(tables_view(v@) =~= self.spec_frames(b0, b1, b2, b3));
        frames_from_tables(v)
    }
}

} // verus!

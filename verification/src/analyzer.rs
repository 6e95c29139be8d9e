use vstd::prelude::*;
use crate::bi::BiView;
use crate::bi_line::spec_bi_lines;
use crate::bi_list::{
    bi_at_ok, bis_wf, lemma_bis_wf_stable, lemma_refs_mono, refs_before, spec_deleted_bis, spec_sure_outcome,
    spec_virtual_outcome, CBiList,
};
use crate::cbi_config::CBiConfig;
use crate::enums::{SEG_TYPE, ZsAlgo};
use crate::exception::CChanException;
use crate::kline_list::{spec_klcs_after, CKLineList};
use crate::kline_unit::CKLineUnit;
use crate::line::{lines_wf, CLine};
use crate::seg::CSeg;
use crate::seg_config::CSegConfig;
use crate::seg_list::{
    check_lines_wf, lemma_events_shaped, lemma_shaped_frame, same_shape, seg_ok, segs_wf, shaped, spec_do_init,
    spec_seg_update, CSegListChan,
};
use crate::zs_config::CZsConfig;
use crate::zs_list::{spec_cal_bi_zs, spec_last_sure_pos, spec_zs_in_seg, segs_refreshed, update_zs_in_seg, zvs, CZSList};
use crate::zs::ZsView;

verus! {

/// The whole analysis of one period: bars, combined K-lines, strokes, their
/// segments and pivots, and segments and pivots one level up, built on the
/// segments.
pub struct Analyzer {
    pub kl_type: i32,
    pub candle_list: CKLineList,
    pub bi_list: CBiList,
    pub seg_list: CSegListChan,
    pub zs_list: CZSList,
    pub segseg_list: CSegListChan,
    pub segzs_list: CZSList,
}

/// Which segment line `j` belongs to: the one covering it, the one to come
/// after the last, or the first when there is none.
pub open spec fn spec_seg_of(segs: Seq<CSeg>, j: int) -> int {
    if segs.len() == 0 {
        0
    } else if j > segs.last().end_bi {
        segs.len() as int
    } else {
        choose|i: int| 0 <= i < segs.len() && (#[trigger] segs[i]).start_bi <= j <= segs[i].end_bi
    }
}

/// What the next level up reads of a segment.
pub open spec fn seg_line_of(lines: Seq<CLine>, s: CSeg) -> CLine {
    crate::seg::spec_seg_line(lines, s.idx, s.start_bi as int, s.end_bi as int, s.dir, s.is_sure, s.seg_idx)
}

/// Two stroke lists differ at most in the segment each stroke belongs to.
pub open spec fn same_but_seg_idx(a: Seq<BiView>, b: Seq<BiView>) -> bool {
    &&& a.len() == b.len()
    &&& forall|i: int| 0 <= i < a.len() ==> #[trigger] b[i] == (BiView { seg_idx: b[i].seg_idx, ..a[i] })
}

/// Two lists of lines that differ at most in the segments their lines are
/// marked with.
pub open spec fn same_but_seg_mark(a: Seq<CLine>, b: Seq<CLine>) -> bool {
    &&& a.len() == b.len()
    &&& forall|i: int| 0 <= i < a.len() ==> #[trigger] b[i] == (CLine { seg_idx: b[i].seg_idx, ..a[i] })
}

/// The segments of strokes `lines` found again from segment list `sl`: the
/// list kept if it fits the strokes, and what the update gives.
pub open spec fn spec_segs_found(sl: CSegListChan, lines: Seq<CLine>) -> (Seq<CSeg>, (Seq<crate::seg_list::SegEvent>, Option<crate::exception::ErrCode>)) {
    let start = if segs_wf(sl.lst@, lines) { sl.lst@ } else { Seq::<CSeg>::empty() };
    (spec_do_init(start, lines), spec_seg_update(start, lines, sl.config.left_method))
}

/// The segments `segs` of strokes `lines` as lines of the next level up.
pub open spec fn up_lines_of(lines: Seq<CLine>, segs: Seq<CSeg>) -> Seq<CLine> {
    Seq::new(segs.len(), |k: int| seg_line_of(lines, segs[k]))
}

/// The strokes once bar candles `kl` replace those of analyzer `a`, and
/// whether they changed: when a K-line was added, the sure strokes updated
/// with the one before the last K-line, then a provisional stroke to the
/// last; otherwise the provisional stroke undone and made again to the last
/// K-line.
pub open spec fn spec_strokes_after(a: Analyzer, kl: CKLineList) -> (Seq<BiView>, bool) {
    let ks = kl.klcs();
    let units = kl.units@;
    let cfg = a.bi_list.config;
    let n0 = a.candle_list.klcs().len();
    let n = ks.len();
    let bis0 = a.bi_list.bis();
    if n0 > 0 && n == n0 + 1 {
        let s = spec_sure_outcome(ks, units, cfg, bis0, a.bi_list.free_klc_lst@, n - 2);
        let v = spec_virtual_outcome(ks, units, cfg, s.0, n - 1);
        (v.0, s.2 || v.1)
    } else {
        spec_virtual_outcome(ks, units, cfg, spec_deleted_bis(ks, bis0), n - 1)
    }
}

/// Analyzer `a` with bar candles `kl` and strokes `b`.
pub open spec fn spec_with_strokes(a: Analyzer, kl: CKLineList, b: CBiList) -> Analyzer {
    Analyzer { candle_list: kl, bi_list: b, ..a }
}

/// The error a result carries, if any.
pub open spec fn spec_err_of<T>(r: Result<T, CChanException>) -> Option<CChanException> {
    match r {
        Ok(_) => None,
        Err(e) => Some(e),
    }
}

/// Analyzer `a1` is `a0` with the segments of its strokes found again, the
/// update not failing, and each stroke marked with its segment.
pub open spec fn spec_segs_refound(a0: Analyzer, a1: Analyzer) -> bool {
    let lines0 = a0.bi_lines();
    let found = spec_segs_found(a0.seg_list, lines0);
    &&& found.1.1 is None
    &&& shaped(found.0, a1.seg_list.lst@, lines0, a0.seg_list.lv, found.1.0)
    &&& a1.wf()
    &&& lines_wf(a1.bi_lines())
    &&& segs_wf(a1.seg_list.lst@, a1.bi_lines())
    &&& a1.candle_list == a0.candle_list
    &&& a1.bi_list.config == a0.bi_list.config
    &&& same_but_seg_idx(a0.bi_list.bis(), a1.bi_list.bis())
    &&& a1.zs_list == a0.zs_list
    &&& a1.segseg_list == a0.segseg_list
    &&& a1.segzs_list == a0.segzs_list
    &&& a1.seg_list.lv == a0.seg_list.lv
    &&& a1.seg_list.config == a0.seg_list.config
}

/// Analyzer `a2` is `a1` with the pivots of its strokes found again and
/// recorded in its segments.
pub open spec fn spec_pivots_refound(a1: Analyzer, a2: Analyzer) -> bool {
    &&& spec_zs_refound(a1.zs_list, a2.zs_list, a1.seg_list.lst@, a2.seg_list.lst@, a1.bi_lines())
    &&& a2.wf()
    &&& segs_wf(a2.seg_list.lst@, a2.bi_lines())
    &&& a2.candle_list == a1.candle_list
    &&& a2.bi_list == a1.bi_list
    &&& a2.segseg_list == a1.segseg_list
    &&& a2.segzs_list == a1.segzs_list
    &&& a2.seg_list.lv == a1.seg_list.lv
    &&& a2.seg_list.config == a1.seg_list.config
    &&& a2.zs_list.config == a1.zs_list.config
}

/// Analyzer `a3` is `a2` once the segments and pivots one level up are
/// found again over its segments, with error `err` if that failed; nothing
/// changes when the segments do not alternate as lines must.
pub open spec fn spec_upper_refound(a2: Analyzer, a3: Analyzer, err: Option<CChanException>) -> bool {
    let lines = a2.bi_lines();
    let up = up_lines_of(lines, a2.seg_list.lst@);
    let res = spec_segseg_update(a2, lines);
    &&& !lines_wf(up) ==> err is None && a3 == a2
    &&& lines_wf(up) ==> (err is Some <==> res.1 is Some)
    &&& err matches Some(e) ==> res.1 == Some(e.errcode)
    &&& err is Some ==> a3.seg_list == a2.seg_list && a3.segzs_list == a2.segzs_list
    &&& lines_wf(up) && err is None ==> exists|mid: Seq<CSeg>| #[trigger] spec_segseg_refound(a2, a3, lines, mid)
}

/// Analyzer `a` is `a0` with segments and pivots found again at both
/// levels, with error `err` if that failed: the segment update of the
/// strokes fails with its error; otherwise the segments, then the pivots,
/// then the level up are found again.
#[verifier::opaque]
pub open spec fn spec_seg_and_zs(a0: Analyzer, a: Analyzer, err: Option<CChanException>) -> bool {
    let found = spec_segs_found(a0.seg_list, a0.bi_lines());
    &&& found.1.1 is Some ==> (err matches Some(e) && found.1.1 == Some(e.errcode))
    &&& found.1.1 is None ==> exists|a1: Analyzer, a2: Analyzer|
        #![trigger spec_segs_refound(a0, a1), spec_pivots_refound(a1, a2)]
        spec_segs_refound(a0, a1) && spec_pivots_refound(a1, a2) && spec_upper_refound(a2, a, err)
}

/// The segments one level up that analyzer `a` starts from over strokes
/// `lines`: its list, kept if it fits the segments as lines.
pub open spec fn spec_segseg_start(a: Analyzer, lines: Seq<CLine>) -> Seq<CSeg> {
    let up = up_lines_of(lines, a.seg_list.lst@);
    let sl = a.segseg_list;
    if segs_wf(sl.lst@, up) { sl.lst@ } else { Seq::<CSeg>::empty() }
}

/// What the update of the segments one level up gives from analyzer `a`.
pub open spec fn spec_segseg_update(a: Analyzer, lines: Seq<CLine>) -> (Seq<crate::seg_list::SegEvent>, Option<crate::exception::ErrCode>) {
    spec_seg_update(spec_segseg_start(a, lines), up_lines_of(lines, a.seg_list.lst@), a.segseg_list.config.left_method)
}

/// Analyzer `b` is `a` once the segments one level up are `mid`, shaped as
/// the update over the segments of `a` says, each segment of `a` is marked
/// with the upper segment it lies in, and the upper pivots are found again
/// over `mid`.
pub open spec fn spec_segseg_refound(a: Analyzer, b: Analyzer, lines: Seq<CLine>, mid: Seq<CSeg>) -> bool {
    let segs0 = a.seg_list.lst@;
    let segs1 = b.seg_list.lst@;
    let up = up_lines_of(lines, segs0);
    &&& shaped(spec_do_init(spec_segseg_start(a, lines), up), mid, up, a.segseg_list.lv, spec_segseg_update(a, lines).0)
    &&& segs1.len() == segs0.len()
    &&& forall|j: int|
        0 <= j < segs1.len() ==> #[trigger] segs1[j] == (CSeg { seg_idx: Some(spec_seg_of(mid, j) as usize), ..segs0[j] })
    &&& spec_zs_refound(a.segzs_list, b.segzs_list, mid, b.segseg_list.lst@, up_lines_of(lines, segs1))
}

/// Pivot list `z1` and segments `segs1` are what finding the pivots of
/// `lines` again gives from pivot list `z0` (kept if it fits the lines) and
/// segments `segs0`: the pivots found, each reached by the walk down the
/// unsettled segments given its lines, and those segments their pivots.
pub open spec fn spec_zs_refound(z0: CZSList, z1: CZSList, segs0: Seq<CSeg>, segs1: Seq<CSeg>, lines: Seq<CLine>) -> bool {
    let kept = z0.wf(lines.len() as int);
    let start = if kept { (zvs(z0.zs_lst@), z0.free_item_lst@) } else { (Seq::empty(), Seq::empty()) };
    let pos = if kept { z0.last_sure_pos } else { None };
    let found = spec_cal_bi_zs(start, pos, segs0, z0.config, lines);
    &&& zvs(z1.zs_lst@) == spec_zs_in_seg(found.0, lines, segs0)
    &&& z1.free_item_lst@ == found.1
    &&& z1.last_sure_pos == spec_last_sure_pos(segs0, segs0.len() as int)
    &&& segs_refreshed(segs1, segs0, found.0, lines)
}

proof fn lemma_lines_mark(ks: Seq<crate::kline::KLineView>, units: Seq<CKLineUnit>, a: Seq<BiView>, b: Seq<BiView>)
    requires
        same_but_seg_idx(a, b),
    ensures
        same_but_seg_mark(spec_bi_lines(ks, units, a), spec_bi_lines(ks, units, b)),
{
    let la = spec_bi_lines(ks, units, a);
    let lb = spec_bi_lines(ks, units, b);
    assert forall|i: int| 0 <= i < la.len() implies #[trigger] lb[i] == (CLine { seg_idx: lb[i].seg_idx, ..la[i] }) by {
        assert(b[i] == (BiView { seg_idx: b[i].seg_idx, ..a[i] }));
    }
}

proof fn lemma_seg_idx_irrelevant(ks: Seq<crate::kline::KLineView>, a: Seq<BiView>, b: Seq<BiView>, free: Seq<usize>, c: int)
    requires
        same_but_seg_idx(a, b),
        bis_wf(ks, a, free),
        refs_before(a, free, c),
    ensures
        bis_wf(ks, b, free),
        refs_before(b, free, c),
{
    assert forall|i: int| 0 <= i < b.len() implies #[trigger] bi_at_ok(ks, b, i) by {
        assert(bi_at_ok(ks, a, i));
        assert(b[i] == (BiView { seg_idx: b[i].seg_idx, ..a[i] }));
        if i < b.len() - 1 {
            assert(b[i + 1] == (BiView { seg_idx: b[i + 1].seg_idx, ..a[i + 1] }));
        }
    }
    assert forall|i: int| 0 <= i < b.len() implies (#[trigger] b[i]).begin_klc < c by {
        assert(a[i].begin_klc < c);
    }
    assert forall|i: int| 0 <= i < b.len() && b[i].is_sure implies (#[trigger] b[i]).end_klc < c by {
        assert(a[i].end_klc < c);
    }
    assert forall|i: int, k: int| 0 <= i < b.len() && 0 <= k < b[i].sure_end.len() implies #[trigger] b[i].sure_end[k] < c by {
        assert(b[i].sure_end == a[i].sure_end);
        assert(a[i].sure_end[k] < c);
    }
}

/// Segments that follow each other from the first line cover every line up
/// to the last one's end, each line by exactly the one it lies in.
proof fn lemma_seg_of(segs: Seq<CSeg>, lines: Seq<CLine>, i: int, j: int)
    requires
        segs_wf(segs, lines),
        0 <= i < segs.len(),
        segs[i].start_bi <= j <= segs[i].end_bi,
    ensures
        spec_seg_of(segs, j) == i,
{
    assert(seg_ok(segs, lines, i));
    assert(seg_ok(segs, lines, segs.len() - 1));
    lemma_ends_increase(segs, lines, i, segs.len() - 1);
    let k = choose|k: int| 0 <= k < segs.len() && (#[trigger] segs[k]).start_bi <= j <= segs[k].end_bi;
    if k < i {
        lemma_ends_increase(segs, lines, k, i - 1);
        assert(seg_ok(segs, lines, i));
    } else if k > i {
        lemma_ends_increase(segs, lines, i, k - 1);
        assert(seg_ok(segs, lines, k));
    }
}

/// A segment ends no later than any later one.
proof fn lemma_ends_increase(segs: Seq<CSeg>, lines: Seq<CLine>, i: int, k: int)
    requires
        segs_wf(segs, lines),
        0 <= i <= k < segs.len(),
    ensures
        segs[i].end_bi <= segs[k].end_bi,
    decreases k - i,
{
    if k > i {
        lemma_ends_increase(segs, lines, i, k - 1);
        assert(seg_ok(segs, lines, k));
        assert(seg_ok(segs, lines, k - 1));
    }
}

/// Gives every stroke the index of the segment it belongs to.
fn update_bi_seg_idx(bi_list: &mut CBiList, seg_list: &CSegListChan, kl: &CKLineList, Ghost(lines): Ghost<Seq<CLine>>)
    requires
        old(bi_list).wf(kl),
        segs_wf(seg_list.lst@, lines),
        lines.len() == old(bi_list).bis().len(),
    ensures
        same_but_seg_idx(old(bi_list).bis(), final(bi_list).bis()),
        forall|j: int| 0 <= j < final(bi_list).bis().len() ==> (#[trigger] final(bi_list).bis()[j]).seg_idx == Some(
            spec_seg_of(seg_list.lst@, j) as usize),
        final(bi_list).free_klc_lst@ == old(bi_list).free_klc_lst@,
        final(bi_list).last_end == old(bi_list).last_end,
        final(bi_list).config == old(bi_list).config,
{
    let segs = &seg_list.lst;
    let n = bi_list.bi_list.len();
    let m = segs.len();
    proof {
        assert forall|i: int| 0 <= i < bi_list.bis().len() implies #[trigger] bi_list.bis()[i] == (BiView {
            seg_idx: bi_list.bis()[i].seg_idx,
            ..old(bi_list).bis()[i]
        }) by {}
    }
    // Walk the segments and the strokes together.
    let mut k: usize = 0;
    let mut s: usize = 0;
    proof {
        if m > 0 {
            assert(seg_ok(segs@, lines, 0));
        }
    }
    while k < n
        invariant
            n == bi_list.bi_list@.len(),
            m == segs@.len(),
            k <= n,
            s <= m,
            lines.len() == n,
            segs_wf(segs@, lines),
            s < m ==> k <= segs@[s as int].end_bi,
            s < m && s > 0 ==> segs@[s as int].start_bi <= k,
            s < m && s == 0 ==> segs@[0].start_bi == 0,
            s == m && m > 0 ==> k > segs@[m - 1].end_bi,
            same_but_seg_idx(old(bi_list).bis(), bi_list.bis()),
            forall|q: int| 0 <= q < k ==> (#[trigger] bi_list.bis()[q]).seg_idx == Some(spec_seg_of(segs@, q) as usize),
            bi_list.free_klc_lst@ == old(bi_list).free_klc_lst@,
            bi_list.last_end == old(bi_list).last_end,
            bi_list.config == old(bi_list).config,
        decreases n - k,
    {
        let idx = if s < m { s } else { m };
        proof {
            if s < m {
                assert(seg_ok(segs@, lines, s as int));
                lemma_seg_of(segs@, lines, s as int, k as int);
            } else if m > 0 {
                assert(spec_seg_of(segs@, k as int) == m);
            }
        }
        let ghost b0 = bi_list.bis();
        bi_list.bi_list[k].set_seg_idx(idx);
        proof {
            let b1 = bi_list.bis();
            assert forall|q: int| 0 <= q < b1.len() implies #[trigger] b1[q] == (BiView {
                seg_idx: b1[q].seg_idx,
                ..old(bi_list).bis()[q]
            }) by {
                assert(b0[q] == (BiView { seg_idx: b0[q].seg_idx, ..old(bi_list).bis()[q] }));
            }
            assert forall|q: int| 0 <= q < k + 1 implies (#[trigger] b1[q]).seg_idx == Some(spec_seg_of(segs@, q) as usize) by {
                if q < k {
                    assert(b1[q] == b0[q]);
                }
            }
        }
        if s < m && k == segs[s].end_bi {
            proof {
                assert(seg_ok(segs@, lines, s as int));
                if s + 1 < m {
                    assert(seg_ok(segs@, lines, s + 1));
                }
            }
            s = s + 1;
        }
        k = k + 1;
    }
}

/// Gives every segment the index of the segment one level up it belongs to.
fn update_seg_seg_idx(seg_list: &mut CSegListChan, segseg_list: &CSegListChan, Ghost(lines): Ghost<Seq<CLine>>, Ghost(seg_lines): Ghost<Seq<CLine>>)
    requires
        segs_wf(old(seg_list).lst@, lines),
        segs_wf(segseg_list.lst@, seg_lines),
        seg_lines.len() == old(seg_list).lst@.len(),
    ensures
        segs_wf(final(seg_list).lst@, lines),
        final(seg_list).lst@.len() == old(seg_list).lst@.len(),
        forall|j: int| 0 <= j < final(seg_list).lst@.len() ==> {
            let a = #[trigger] final(seg_list).lst@[j];
            let b = old(seg_list).lst@[j];
            &&& a.seg_idx == Some(spec_seg_of(segseg_list.lst@, j) as usize)
            &&& a == (CSeg { seg_idx: a.seg_idx, ..b })
            &&& a.start_bi == b.start_bi && a.end_bi == b.end_bi && a.is_sure == b.is_sure && a.dir == b.dir
            &&& a.idx == b.idx && a.eigen_fx == b.eigen_fx
        },
        final(seg_list).lv == old(seg_list).lv,
        final(seg_list).config == old(seg_list).config,
{
    let segs = &segseg_list.lst;
    let n = seg_list.lst.len();
    let m = segs.len();
    let mut k: usize = 0;
    let mut s: usize = 0;
    proof {
        if m > 0 {
            assert(seg_ok(segs@, seg_lines, 0));
        }
    }
    while k < n
        invariant
            n == seg_list.lst@.len(),
            n == old(seg_list).lst@.len(),
            m == segs@.len(),
            k <= n,
            s <= m,
            seg_lines.len() == n,
            segs_wf(segs@, seg_lines),
            segs_wf(seg_list.lst@, lines),
            s < m ==> k <= segs@[s as int].end_bi,
            s < m && s > 0 ==> segs@[s as int].start_bi <= k,
            s < m && s == 0 ==> segs@[0].start_bi == 0,
            s == m && m > 0 ==> k > segs@[m - 1].end_bi,
            forall|j: int| 0 <= j < n ==> {
                let a = #[trigger] seg_list.lst@[j];
                let b = old(seg_list).lst@[j];
                &&& a == (CSeg { seg_idx: a.seg_idx, ..b })
                &&& a.start_bi == b.start_bi && a.end_bi == b.end_bi && a.is_sure == b.is_sure && a.dir == b.dir
                &&& a.idx == b.idx && a.eigen_fx == b.eigen_fx
            },
            forall|q: int| 0 <= q < k ==> (#[trigger] seg_list.lst@[q]).seg_idx == Some(spec_seg_of(segs@, q) as usize),
            seg_list.lv == old(seg_list).lv,
            seg_list.config == old(seg_list).config,
        decreases n - k,
    {
        let idx = if s < m { s } else { m };
        proof {
            if s < m {
                assert(seg_ok(segs@, seg_lines, s as int));
                lemma_seg_of(segs@, seg_lines, s as int, k as int);
            } else if m > 0 {
                assert(spec_seg_of(segs@, k as int) == m);
            }
        }
        let ghost l0 = seg_list.lst@;
        seg_list.lst[k].set_seg_idx(idx);
        proof {
            let l1 = seg_list.lst@;
            assert forall|q: int| 0 <= q < n implies ({
                let a = #[trigger] l1[q];
                let b = old(seg_list).lst@[q];
                &&& a == (CSeg { seg_idx: a.seg_idx, ..b })
                &&& a.start_bi == b.start_bi && a.end_bi == b.end_bi && a.is_sure == b.is_sure && a.dir == b.dir
                &&& a.idx == b.idx && a.eigen_fx == b.eigen_fx
            }) by {
                if q != k {
                    assert(l1[q] == l0[q]);
                }
            }
            assert forall|q: int| 0 <= q < k + 1 implies (#[trigger] l1[q]).seg_idx == Some(spec_seg_of(segs@, q) as usize) by {
                if q < k {
                    assert(l1[q] == l0[q]);
                }
            }
            assert forall|q: int| 0 <= q < n implies #[trigger] seg_ok(l1, lines, q) by {
                assert(seg_ok(l0, lines, q));
                let _ = l1[q];
                if q > 0 {
                    let _ = l1[q - 1];
                }
            }
            assert forall|q: int| 0 <= q < n implies #[trigger] crate::seg_list::seg_fx_ok(l1, q) by {
                assert(crate::seg_list::seg_fx_ok(l0, q));
                let _ = l1[q];
            }
        }
        if s < m && k == segs[s].end_bi {
            proof {
                assert(seg_ok(segs@, seg_lines, s as int));
                if s + 1 < m {
                    assert(seg_ok(segs@, seg_lines, s + 1));
                }
            }
            s = s + 1;
        }
        k = k + 1;
    }
}

impl Analyzer {
    /// The invariant: every layer is well formed over the one below, and the
    /// sure strokes refer only to K-lines whose fractal is settled; the
    /// pivot settings are ones the pivot search accepts.
    pub open spec fn wf(&self) -> bool {
        &&& self.bi_list.wf(&self.candle_list)
        &&& refs_before(
            self.bi_list.bis(),
            self.bi_list.free_klc_lst@,
            if self.candle_list.klcs().len() == 0 { 0 } else { self.candle_list.klcs().len() - 1 },
        )
        &&& !(self.zs_list.config.zs_algo == ZsAlgo::OverSeg && self.zs_list.config.one_bi_zs)
        &&& !(self.segzs_list.config.zs_algo == ZsAlgo::OverSeg && self.segzs_list.config.one_bi_zs)
    }

    /// The lines of the strokes as they stand.
    pub open spec fn bi_lines(&self) -> Seq<CLine> {
        spec_bi_lines(self.candle_list.klcs(), self.candle_list.units@, self.bi_list.bis())
    }

    pub fn new(kl_type: i32, bi_conf: CBiConfig, seg_conf: CSegConfig, zs_conf: CZsConfig) -> (r: Self)
        requires
            !(zs_conf.zs_algo == ZsAlgo::OverSeg && zs_conf.one_bi_zs),
        ensures
            r.wf(),
            r.kl_type == kl_type,
            r.candle_list.units@.len() == 0,
            r.bi_list.config == bi_conf,
            r.seg_list.lst@.len() == 0 && r.seg_list.lv == SEG_TYPE::BI,
            r.segseg_list.lst@.len() == 0 && r.segseg_list.lv == SEG_TYPE::SEG,
            r.seg_list.config.left_method == seg_conf.left_method,
            r.segseg_list.config.left_method == seg_conf.left_method,
            r.zs_list.config == zs_conf && r.segzs_list.config == zs_conf,
            r.zs_list.zs_lst@.len() == 0 && r.segzs_list.zs_lst@.len() == 0,
    {
        let seg_conf2 = seg_conf.copy();
        Analyzer {
            kl_type,
            candle_list: CKLineList::new(),
            bi_list: CBiList::new(bi_conf),
            seg_list: CSegListChan::new(seg_conf, SEG_TYPE::BI),
            zs_list: CZSList::new(zs_conf),
            segseg_list: CSegListChan::new(seg_conf2, SEG_TYPE::SEG),
            segzs_list: CZSList::new(zs_conf),
        }
    }

    /// Feeds the next bar: combines it into the K-lines, then updates the
    /// strokes; when they changed, segments and pivots are found again.
    /// Returns whether the strokes changed, or the error of a sure segment
    /// that could not be made.
    #[verifier::spinoff_prover]
    #[verifier::rlimit(100)]
    pub fn add_k(&mut self, klu: CKLineUnit) -> (r: Result<bool, CChanException>)
        requires
            old(self).wf(),
            klu.valid(),
            old(self).candle_list.units@.len() < usize::MAX - 1,
        ensures
            final(self).wf(),
            final(self).candle_list.units@ == old(self).candle_list.units@.push(
                CKLineUnit { idx: old(self).candle_list.units@.len() as usize, ..klu },
            ),
            final(self).candle_list.klcs() == spec_klcs_after(
                old(self).candle_list.klcs(),
                CKLineUnit { idx: old(self).candle_list.units@.len() as usize, ..klu },
            ).0,
            final(self).bi_list.config == old(self).bi_list.config,
            r matches Ok(true) ==> segs_wf(final(self).seg_list.lst@, final(self).bi_lines()),
            r matches Ok(true) ==> (final(self).bi_lines().len() >= 3 ==> final(self).seg_list.lst@.len() >= 1),
            r matches Ok(true) ==> final(self).zs_list.wf(final(self).bi_lines().len() as int),
            r matches Ok(false) ==> final(self).seg_list == old(self).seg_list && final(self).zs_list == old(self).zs_list
                && final(self).segseg_list == old(self).segseg_list && final(self).segzs_list == old(self).segzs_list,
            r matches Ok(true) ==> exists|lines0: Seq<CLine>| #[trigger] same_but_seg_mark(lines0, final(self).bi_lines()) && ({
                let found = spec_segs_found(old(self).seg_list, lines0);
                &&& found.1.1 is None
                &&& shaped(found.0, final(self).seg_list.lst@, lines0, old(self).seg_list.lv, found.1.0)
            }),
            ({
                let st = spec_strokes_after(*old(self), final(self).candle_list);
                &&& same_but_seg_idx(st.0, final(self).bi_list.bis())
                &&& r matches Ok(c) ==> c == st.1
                &&& !st.1 ==> r == Ok::<bool, CChanException>(false)
                &&& st.1 ==> exists|b: CBiList|
                    #[trigger] spec_seg_and_zs(
                        spec_with_strokes(*old(self), final(self).candle_list, b),
                        *final(self),
                        spec_err_of(r),
                    ) && b.bis() == st.0 && b.config == old(self).bi_list.config
            }),
    {
        let ghost ks0 = self.candle_list.klcs();
        let ghost n0 = ks0.len();
        let ghost c0: int = if n0 == 0 { 0 } else { n0 - 1 };
        let new_klc = self.candle_list.update_candle(klu);
        let ghost ks1 = self.candle_list.klcs();
        proof {
            assert forall|i: int| 0 <= i < c0 implies #[trigger] ks1[i] == ks0[i] by {}
            lemma_bis_wf_stable(ks0, ks1, self.bi_list.bis(), self.bi_list.free_klc_lst@, c0);
        }
        let n = self.candle_list.len();
        let ghost st = spec_strokes_after(*old(self), self.candle_list);
        proof {
            assert(new_klc == (n0 > 0 && n == n0 + 1));
        }
        let changed = if new_klc {
            proof {
                assert(n == n0 + 1);
            }
            self.bi_list.update_bi(n - 2, n - 1, true, &self.candle_list)
        } else {
            proof {
                assert(n >= 1);
                lemma_refs_mono(self.bi_list.bis(), self.bi_list.free_klc_lst@, c0, n - 1);
            }
            self.bi_list.try_add_virtual_bi(n - 1, true, &self.candle_list)
        };
        proof {
            assert(self.bi_list.bis() == st.0 && changed == st.1);
        }
        if changed {
            let ghost lines0 = self.bi_lines();
            let ghost bis_mid = self.bi_list.bis();
            let ghost b = self.bi_list;
            let ghost a0 = *self;
            let r = self.cal_seg_and_zs();
            proof {
                assert(spec_with_strokes(*old(self), self.candle_list, b) == a0);
                assert(spec_seg_and_zs(
                    spec_with_strokes(*old(self), self.candle_list, b),
                    *self,
                    spec_err_of(r),
                ));
            }
            match r {
                Ok(()) => {},
                Err(e) => {
                    return Err(e);
                },
            }
            proof {
                lemma_lines_mark(self.candle_list.klcs(), self.candle_list.units@, bis_mid, self.bi_list.bis());
                assert(same_but_seg_mark(lines0, self.bi_lines()));
            }
        } else {
            proof {
                assert forall|i: int| 0 <= i < st.0.len() implies #[trigger] self.bi_list.bis()[i] == (BiView {
                    seg_idx: self.bi_list.bis()[i].seg_idx,
                    ..st.0[i]
                }) by {}
            }
        }
        Ok(changed)
    }

    /// Finds segments and pivots again over the current strokes, then one
    /// level up over the segments when they alternate in direction.
    pub fn cal_seg_and_zs(&mut self) -> (r: Result<(), CChanException>)
        requires
            old(self).wf(),
        ensures
            final(self).wf(),
            final(self).candle_list == old(self).candle_list,
            final(self).bi_list.config == old(self).bi_list.config,
            r is Ok ==> segs_wf(final(self).seg_list.lst@, final(self).bi_lines()),
            r is Ok && final(self).bi_lines().len() >= 3 ==> final(self).seg_list.lst@.len() >= 1,
            r is Ok ==> final(self).zs_list.wf(final(self).bi_lines().len() as int),
            same_but_seg_idx(old(self).bi_list.bis(), final(self).bi_list.bis()),
            ({
                let lines0 = old(self).bi_lines();
                let sl = old(self).seg_list;
                let start = if segs_wf(sl.lst@, lines0) { sl.lst@ } else { Seq::<CSeg>::empty() };
                let res = spec_seg_update(start, lines0, sl.config.left_method);
                &&& res.1 is Some ==> (r matches Err(e) && res.1 == Some(e.errcode))
                &&& r is Ok ==> res.1 is None
                &&& shaped(spec_do_init(start, lines0), final(self).seg_list.lst@, lines0, sl.lv, res.0)
            }),
            spec_seg_and_zs(*old(self), *final(self), spec_err_of(r)),
    {
        let ghost lines0 = self.bi_lines();
        let ghost sl = self.seg_list;
        let ghost start = if segs_wf(sl.lst@, lines0) { sl.lst@ } else { Seq::<CSeg>::empty() };
        let ghost res = spec_seg_update(start, lines0, sl.config.left_method);
        let lines = match self.cal_seg() {
            Ok(l) => l,
            Err(e) => {
                proof {
                    reveal(spec_seg_and_zs);
                }
                return Err(e);
            },
        };
        let ghost a1 = *self;
        let ghost a = self.seg_list.lst@;
        proof {
            assert(spec_segs_refound(*old(self), a1));
        }
        self.cal_zs(&lines);
        let ghost a2 = *self;
        let ghost b = self.seg_list.lst@;
        proof {
            assert forall|k: int| 0 <= k < b.len() implies #[trigger] same_shape(b[k], a[k]) by {}
            lemma_shaped_frame(spec_do_init(start, lines0), a, b, lines0, sl.lv, res.0);
            assert(spec_pivots_refound(a1, a2));
        }
        let r = self.cal_segseg(&lines);
        proof {
            lemma_shaped_frame(spec_do_init(start, lines0), b, self.seg_list.lst@, lines0, sl.lv, res.0);
            assert(spec_upper_refound(a2, *self, spec_err_of(r)));
            reveal(spec_seg_and_zs);
        }
        r
    }

    /// Segments of the strokes, and each stroke's segment; gives the lines
    /// of the strokes as they then stand.
    #[verifier::rlimit(40)]
    fn cal_seg(&mut self) -> (r: Result<Vec<CLine>, CChanException>)
        requires
            old(self).wf(),
        ensures
            final(self).wf(),
            final(self).candle_list == old(self).candle_list,
            final(self).bi_list.config == old(self).bi_list.config,
            final(self).zs_list == old(self).zs_list,
            final(self).segzs_list == old(self).segzs_list,
            final(self).segseg_list == old(self).segseg_list,
            same_but_seg_idx(old(self).bi_list.bis(), final(self).bi_list.bis()),
            r matches Ok(l) ==> l@ == final(self).bi_lines() && lines_wf(l@) && segs_wf(final(self).seg_list.lst@, l@),
            r matches Ok(l) ==> (l@.len() >= 3 ==> final(self).seg_list.lst@.len() >= 1),
            ({
                let lines0 = old(self).bi_lines();
                let sl = old(self).seg_list;
                let start = if segs_wf(sl.lst@, lines0) { sl.lst@ } else { Seq::<CSeg>::empty() };
                let res = spec_seg_update(start, lines0, sl.config.left_method);
                &&& r is Err <==> res.1 is Some
                &&& r matches Err(e) ==> res.1 == Some(e.errcode)
                &&& shaped(spec_do_init(start, lines0), final(self).seg_list.lst@, lines0, sl.lv, res.0)
            }),
            final(self).seg_list.lv == old(self).seg_list.lv,
            final(self).seg_list.config == old(self).seg_list.config,
    {
        let ghost c: int = if self.candle_list.klcs().len() == 0 { 0 } else { self.candle_list.klcs().len() - 1 };
        let lines = self.bi_list.to_lines(&self.candle_list);
        if !self.seg_list.fits_lines(&lines) {
            self.seg_list.lst = Vec::new();
        }
        let ghost start = self.seg_list.lst@;
        match self.seg_list.update(&lines) {
            Ok(()) => {},
            Err(e) => {
                proof {
                    lemma_events_shaped(
                        spec_do_init(start, lines@),
                        self.seg_list.lst@,
                        lines@,
                        self.seg_list.lv,
                        spec_seg_update(start, lines@, self.seg_list.config.left_method).0,
                    );
                    assert forall|i: int| 0 <= i < self.bi_list.bis().len() implies #[trigger] self.bi_list.bis()[i] == (BiView {
                        seg_idx: self.bi_list.bis()[i].seg_idx,
                        ..self.bi_list.bis()[i]
                    }) by {}
                }
                return Err(e);
            },
        }
        proof {
            lemma_events_shaped(
                spec_do_init(start, lines@),
                self.seg_list.lst@,
                lines@,
                self.seg_list.lv,
                spec_seg_update(start, lines@, self.seg_list.config.left_method).0,
            );
        }
        let ghost bis0 = self.bi_list.bis();
        update_bi_seg_idx(&mut self.bi_list, &self.seg_list, &self.candle_list, Ghost(lines@));
        proof {
            lemma_seg_idx_irrelevant(self.candle_list.klcs(), bis0, self.bi_list.bis(), self.bi_list.free_klc_lst@, c);
        }
        let lines2 = self.bi_list.to_lines(&self.candle_list);
        proof {
            let b1 = self.bi_list.bis();
            assert forall|k: int| 0 <= k < self.seg_list.lst@.len() implies #[trigger] seg_ok(self.seg_list.lst@, lines2@, k) by {
                assert(seg_ok(self.seg_list.lst@, lines@, k));
                let s = self.seg_list.lst@[k];
                assert(b1[s.start_bi as int] == (BiView { seg_idx: b1[s.start_bi as int].seg_idx, ..bis0[s.start_bi as int] }));
                assert(b1[s.end_bi as int] == (BiView { seg_idx: b1[s.end_bi as int].seg_idx, ..bis0[s.end_bi as int] }));
            }
        }
        Ok(lines2)
    }

    /// Pivots of the strokes, and each segment's pivots.
    fn cal_zs(&mut self, lines: &Vec<CLine>)
        requires
            old(self).wf(),
            lines_wf(lines@),
            segs_wf(old(self).seg_list.lst@, lines@),
        ensures
            final(self).wf(),
            final(self).candle_list == old(self).candle_list,
            final(self).bi_list == old(self).bi_list,
            final(self).segseg_list == old(self).segseg_list,
            final(self).segzs_list == old(self).segzs_list,
            segs_wf(final(self).seg_list.lst@, lines@),
            final(self).zs_list.wf(lines@.len() as int),
            final(self).seg_list.lst@.len() == old(self).seg_list.lst@.len(),
            forall|i: int| 0 <= i < final(self).seg_list.lst@.len() ==> {
                let a = #[trigger] final(self).seg_list.lst@[i];
                let b = old(self).seg_list.lst@[i];
                a.start_bi == b.start_bi && a.end_bi == b.end_bi && a.is_sure == b.is_sure && a.dir == b.dir
                    && a.idx == b.idx && a.eigen_fx == b.eigen_fx
            },
            spec_zs_refound(
                old(self).zs_list,
                final(self).zs_list,
                old(self).seg_list.lst@,
                final(self).seg_list.lst@,
                lines@,
            ),
            final(self).seg_list.lv == old(self).seg_list.lv,
            final(self).seg_list.config == old(self).seg_list.config,
            final(self).zs_list.config == old(self).zs_list.config,
    {
        if !self.zs_list.fits(lines.len()) {
            self.zs_list = CZSList::new(self.zs_list.config);
            proof {
                assert(zvs(self.zs_list.zs_lst@) =~= Seq::<ZsView>::empty());
                assert(self.zs_list.free_item_lst@ =~= Seq::<usize>::empty());
            }
        }
        self.zs_list.cal_bi_zs(lines, &self.seg_list);
        update_zs_in_seg(lines, &mut self.seg_list, &mut self.zs_list);
    }

    /// Segments and pivots one level up, built on the segments, when the
    /// segments alternate in direction.
    fn cal_segseg(&mut self, lines: &Vec<CLine>) -> (r: Result<(), CChanException>)
        requires
            old(self).wf(),
            lines_wf(lines@),
            segs_wf(old(self).seg_list.lst@, lines@),
        ensures
            final(self).wf(),
            final(self).candle_list == old(self).candle_list,
            final(self).bi_list == old(self).bi_list,
            segs_wf(final(self).seg_list.lst@, lines@),
            final(self).seg_list.lst@.len() == old(self).seg_list.lst@.len(),
            final(self).zs_list == old(self).zs_list,
            forall|k: int| 0 <= k < final(self).seg_list.lst@.len() ==> #[trigger] same_shape(final(self).seg_list.lst@[k], old(self).seg_list.lst@[k]),
            final(self).seg_list.lv == old(self).seg_list.lv,
            final(self).seg_list.config == old(self).seg_list.config,
            ({
                let up = up_lines_of(lines@, old(self).seg_list.lst@);
                let res = spec_segseg_update(*old(self), lines@);
                &&& !lines_wf(up) ==> r is Ok && *final(self) == *old(self)
                &&& lines_wf(up) ==> (r is Err <==> res.1 is Some)
                &&& r matches Err(e) ==> res.1 == Some(e.errcode)
                &&& r is Err ==> final(self).seg_list == old(self).seg_list && final(self).segzs_list == old(self).segzs_list
                &&& lines_wf(up) && r is Ok ==> exists|mid: Seq<CSeg>| #[trigger] spec_segseg_refound(*old(self), *final(self), lines@, mid)
            }),
    {
        let seg_lines = seg_lines_of(&self.seg_list, lines);
        let ghost up = up_lines_of(lines@, self.seg_list.lst@);
        proof {
            assert(seg_lines@ =~= up);
        }
        if !check_lines_wf(&seg_lines) {
            return Ok(());
        }
        if !self.segseg_list.fits_lines(&seg_lines) {
            self.segseg_list.lst = Vec::new();
        }
        let ghost start = self.segseg_list.lst@;
        proof {
            let sl = old(self).segseg_list;
            assert(start =~= (if segs_wf(sl.lst@, up) { sl.lst@ } else { Seq::<CSeg>::empty() }));
        }
        match self.segseg_list.update(&seg_lines) {
            Ok(()) => {},
            Err(e) => {
                return Err(e);
            },
        }
        let ghost mid = self.segseg_list.lst@;
        proof {
            lemma_events_shaped(
                spec_do_init(start, up),
                mid,
                up,
                self.segseg_list.lv,
                spec_seg_update(start, up, self.segseg_list.config.left_method).0,
            );
        }
        let ghost segs_a = self.seg_list.lst@;
        update_seg_seg_idx(&mut self.seg_list, &self.segseg_list, Ghost(lines@), Ghost(seg_lines@));
        proof {
            assert forall|j: int| 0 <= j < self.seg_list.lst@.len() implies #[trigger] self.seg_list.lst@[j] == (CSeg {
                seg_idx: Some(spec_seg_of(mid, j) as usize),
                ..segs_a[j]
            }) by {
                let a = self.seg_list.lst@[j];
                assert(a == (CSeg { seg_idx: a.seg_idx, ..segs_a[j] }));
            }
        }
        let ghost segs1 = self.seg_list.lst@;
        let seg_lines2 = seg_lines_of(&self.seg_list, lines);
        proof {
            lemma_seg_lines_same(lines@, segs_a, self.seg_list.lst@, seg_lines@, seg_lines2@, self.segseg_list.lst@);
            assert(seg_lines2@ =~= up_lines_of(lines@, self.seg_list.lst@));
        }
        self.cal_segzs(&seg_lines2);
        proof {
            assert(spec_segseg_refound(*old(self), *self, lines@, mid));
        }
        Ok(())
    }

    /// Pivots one level up.
    fn cal_segzs(&mut self, seg_lines: &Vec<CLine>)
        requires
            old(self).wf(),
            lines_wf(seg_lines@),
            segs_wf(old(self).segseg_list.lst@, seg_lines@),
        ensures
            final(self).wf(),
            final(self).candle_list == old(self).candle_list,
            final(self).bi_list == old(self).bi_list,
            final(self).seg_list == old(self).seg_list,
            final(self).zs_list == old(self).zs_list,
            final(self).segseg_list.lv == old(self).segseg_list.lv,
            final(self).segseg_list.config == old(self).segseg_list.config,
            final(self).segzs_list.config == old(self).segzs_list.config,
            spec_zs_refound(
                old(self).segzs_list,
                final(self).segzs_list,
                old(self).segseg_list.lst@,
                final(self).segseg_list.lst@,
                seg_lines@,
            ),
    {
        if !self.segzs_list.fits(seg_lines.len()) {
            self.segzs_list = CZSList::new(self.segzs_list.config);
            proof {
                assert(zvs(self.segzs_list.zs_lst@) =~= Seq::<ZsView>::empty());
                assert(self.segzs_list.free_item_lst@ =~= Seq::<usize>::empty());
            }
        }
        self.segzs_list.cal_bi_zs(seg_lines, &self.segseg_list);
        update_zs_in_seg(seg_lines, &mut self.segseg_list, &mut self.segzs_list);
    }
}

/// The segments as lines of the next level up.
pub(crate) fn seg_lines_of(seg_list: &CSegListChan, lines: &Vec<CLine>) -> (r: Vec<CLine>)
    requires
        segs_wf(seg_list.lst@, lines@),
    ensures
        r@.len() == seg_list.lst@.len(),
        forall|k: int| 0 <= k < r@.len() ==> #[trigger] r@[k] == seg_line_of(lines@, seg_list.lst@[k]),
{
    let mut out: Vec<CLine> = Vec::new();
    let mut i: usize = 0;
    while i < seg_list.lst.len()
        invariant
            segs_wf(seg_list.lst@, lines@),
            i <= seg_list.lst@.len(),
            out@.len() == i,
            forall|k: int| 0 <= k < i ==> #[trigger] out@[k] == seg_line_of(lines@, seg_list.lst@[k]),
        decreases seg_list.lst@.len() - i,
    {
        proof {
            assert(seg_ok(seg_list.lst@, lines@, i as int));
        }
        out.push(seg_list.lst[i].to_line(lines));
        i = i + 1;
    }
    out
}

/// Segment lines that differ only in their segment index of the next level
/// keep that level's segments sound and stay well formed.
proof fn lemma_seg_lines_same(
    lines: Seq<CLine>,
    segs_a: Seq<CSeg>,
    segs_b: Seq<CSeg>,
    l1: Seq<CLine>,
    l2: Seq<CLine>,
    up: Seq<CSeg>,
)
    requires
        lines_wf(l1),
        segs_wf(up, l1),
        segs_a.len() == segs_b.len(),
        l1.len() == segs_a.len(),
        l2.len() == segs_b.len(),
        forall|k: int| 0 <= k < l1.len() ==> #[trigger] l1[k] == seg_line_of(lines, segs_a[k]),
        forall|k: int| 0 <= k < l2.len() ==> #[trigger] l2[k] == seg_line_of(lines, segs_b[k]),
        forall|j: int| 0 <= j < segs_b.len() ==> {
            let a = #[trigger] segs_b[j];
            let b = segs_a[j];
            a.start_bi == b.start_bi && a.end_bi == b.end_bi && a.is_sure == b.is_sure && a.dir == b.dir
                && a.idx == b.idx && a.eigen_fx == b.eigen_fx
        },
    ensures
        lines_wf(l2),
        segs_wf(up, l2),
{
    assert forall|k: int| 0 <= k < l2.len() implies #[trigger] l2[k] == (CLine { seg_idx: l2[k].seg_idx, ..l1[k] }) by {
        assert(l1[k] == seg_line_of(lines, segs_a[k]));
        let _ = segs_b[k];
    }
    assert forall|k: int| 0 <= k < l2.len() implies (#[trigger] l2[k]).idx == k by {
        assert(l2[k] == (CLine { seg_idx: l2[k].seg_idx, ..l1[k] }));
    }
    assert forall|k: int| 0 <= k < l2.len() - 1 implies #[trigger] l2[k + 1].dir != l2[k].dir by {
        assert(l2[k] == (CLine { seg_idx: l2[k].seg_idx, ..l1[k] }));
        assert(l2[k + 1] == (CLine { seg_idx: l2[k + 1].seg_idx, ..l1[k + 1] }));
        assert(l1[k + 1].dir != l1[k].dir);
    }
    assert forall|k: int| 0 <= k < up.len() implies #[trigger] seg_ok(up, l2, k) by {
        assert(seg_ok(up, l1, k));
        let sg = up[k];
        assert(l2[sg.start_bi as int] == (CLine { seg_idx: l2[sg.start_bi as int].seg_idx, ..l1[sg.start_bi as int] }));
        assert(l2[sg.end_bi as int] == (CLine { seg_idx: l2[sg.end_bi as int].seg_idx, ..l1[sg.end_bi as int] }));
    }
}

} // verus!

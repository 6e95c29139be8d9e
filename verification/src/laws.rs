use vstd::prelude::*;
use crate::bi::{spec_bi_check, spec_dir_of_fx, BiView};
use crate::bi_list::{bi_at_ok, bis_wf, spec_end_fx, sure_bi_ok};
use crate::enums::{BI_DIR, FX_TYPE, KLINE_DIR};
use crate::func_util::{spec_has_overlap, spec_revert_bi_dir};
use crate::kline::{spec_fx3, KLineView};
use crate::kline_list::{dir_ok, fx_ok, klcs_wf, link_ok};
use crate::kline_unit::{max4, min4, CKLineUnit};
use crate::line::{lines_wf, CLine};
use crate::seg::spec_seg_values_ok;
use crate::seg_list::{next_start, seg_ok, segs_wf};
use crate::kline_list::spec_klcs_after;
use crate::bi_list::{spec_can_make_bi, spec_can_update_peak};
use crate::cbi_config::CBiConfig;
use crate::eigen_fx::{spec_fx_add, FxState};
use crate::zs::{ZsView, CZS};
use crate::zs_list::{spec_zs_add_free, spec_zs_feed_range, spec_zs_update};
use crate::zs_config::CZsConfig;
use crate::seg::CSeg;
use crate::bsp::{spec_bsp3_after, spec_bsp3_scan, spec_first_multi_from, CBSPointConfig};
use crate::enums::ZsAlgo;

verus! {

/// Reverting a stroke direction twice gives it back, and never gives the
/// same direction.
pub proof fn law_revert_bi_dir_involution(d: BI_DIR)
    ensures
        spec_revert_bi_dir(spec_revert_bi_dir(d)) == d,
        spec_revert_bi_dir(d) != d,
{
}

/// Whether two price ranges overlap does not depend on their order.
pub proof fn law_has_overlap_symmetric(l1: int, h1: int, l2: int, h2: int, equal: bool)
    ensures
        spec_has_overlap(l1, h1, l2, h2, equal) == spec_has_overlap(l2, h2, l1, h1, equal),
{
}

/// Checking a bar whose prices are consistent changes nothing, with or
/// without fixing: its low and high already are the extremes.
pub proof fn law_valid_bar_unchanged_by_check(u: CKLineUnit)
    requires
        u.valid(),
    ensures
        min4(u.low as int, u.open as int, u.high as int, u.close as int) == u.low,
        max4(u.low as int, u.open as int, u.high as int, u.close as int) == u.high,
{
}

/// In a well-formed list of combined K-lines, no K-line contains its
/// neighbour: each goes strictly up or strictly down from the one before.
pub proof fn law_neighbours_never_contain(ks: Seq<KLineView>, units: Seq<CKLineUnit>, i: int)
    requires
        klcs_wf(ks, units),
        0 < i < ks.len(),
    ensures
        (ks[i].high > ks[i - 1].high && ks[i].low > ks[i - 1].low && ks[i].dir == KLINE_DIR::UP) || (ks[i].high
            < ks[i - 1].high && ks[i].low < ks[i - 1].low && ks[i].dir == KLINE_DIR::DOWN),
{
    assert(link_ok(ks, i));
    assert(dir_ok(ks[i - 1], ks[i]));
}

/// An inner combined K-line marked as a top is higher, in both extremes,
/// than both neighbours; one marked as a bottom is lower than both.
pub proof fn law_fractal_extremes(ks: Seq<KLineView>, units: Seq<CKLineUnit>, i: int)
    requires
        klcs_wf(ks, units),
        0 < i < ks.len() - 1,
    ensures
        ks[i].fx == FX_TYPE::TOP ==> ks[i - 1].high < ks[i].high && ks[i + 1].high < ks[i].high && ks[i - 1].low
            < ks[i].low && ks[i + 1].low < ks[i].low,
        ks[i].fx == FX_TYPE::BOTTOM ==> ks[i - 1].high > ks[i].high && ks[i + 1].high > ks[i].high && ks[i
            - 1].low > ks[i].low && ks[i + 1].low > ks[i].low,
{
    assert(fx_ok(ks, i));
    assert(ks[i].fx == spec_fx3(ks[i - 1], ks[i], ks[i + 1]));
}

/// Strokes follow each other: each but the last is sure, the next starts
/// where it ends, and runs the other way.
pub proof fn law_strokes_chain(ks: Seq<KLineView>, bis: Seq<BiView>, free: Seq<usize>, i: int)
    requires
        bis_wf(ks, bis, free),
        0 <= i < bis.len() - 1,
    ensures
        bis[i].is_sure,
        bis[i + 1].begin_klc == bis[i].end_klc,
        bis[i + 1].dir != bis[i].dir,
{
    assert(bi_at_ok(ks, bis, i));
    crate::bi_line::lemma_bis_alternate(ks, bis, free, i);
}

/// A sure stroke runs from a fractal to the opposite one: up from a bottom
/// to a top, with its start's low below its end's high; down from a top to
/// a bottom, with its start's high above its end's low.
pub proof fn law_sure_stroke_ends(ks: Seq<KLineView>, bis: Seq<BiView>, free: Seq<usize>, i: int)
    requires
        bis_wf(ks, bis, free),
        0 <= i < bis.len(),
        bis[i].is_sure,
    ensures
        bis[i].dir == BI_DIR::UP ==> ks[bis[i].begin_klc as int].fx == FX_TYPE::BOTTOM && ks[bis[i].end_klc as int].fx
            == FX_TYPE::TOP && ks[bis[i].begin_klc as int].low < ks[bis[i].end_klc as int].high,
        bis[i].dir == BI_DIR::DOWN ==> ks[bis[i].begin_klc as int].fx == FX_TYPE::TOP && ks[bis[i].end_klc as int].fx
            == FX_TYPE::BOTTOM && ks[bis[i].begin_klc as int].high > ks[bis[i].end_klc as int].low,
        bis[i].begin_klc < bis[i].end_klc,
{
    assert(bi_at_ok(ks, bis, i));
    assert(sure_bi_ok(ks, bis[i]));
    let b = bis[i];
    assert(spec_dir_of_fx(ks[b.begin_klc as int].fx) == Some(b.dir));
    assert(spec_bi_check(ks, b.begin_klc as int, b.end_klc as int, b.dir));
}

/// Segments cover the lines from the first one on without gap or overlap:
/// every line up to the last segment's end lies in exactly one segment.
pub proof fn law_segments_tile(lines: Seq<CLine>, s: Seq<crate::seg::CSeg>, j: int)
    requires
        segs_wf(s, lines),
        s.len() > 0,
        0 <= j < next_start(s),
    ensures
        exists|i: int| 0 <= i < s.len() && (#[trigger] s[i]).start_bi <= j <= s[i].end_bi,
        forall|i: int, k: int|
            0 <= i < s.len() && 0 <= k < s.len() && (#[trigger] s[i]).start_bi <= j <= s[i].end_bi && (#[trigger] s[k]).start_bi <= j
                <= s[k].end_bi ==> i == k,
{
    lemma_cover(s, lines, s.len() - 1, j);
    assert forall|i: int, k: int|
        0 <= i < s.len() && 0 <= k < s.len() && (#[trigger] s[i]).start_bi <= j <= s[i].end_bi && (#[trigger] s[k]).start_bi <= j
            <= s[k].end_bi implies i == k by {
        if i < k {
            lemma_end_before_start(s, lines, i, k);
        } else if k < i {
            lemma_end_before_start(s, lines, k, i);
        }
    }
}

proof fn lemma_cover(s: Seq<crate::seg::CSeg>, lines: Seq<CLine>, m: int, j: int)
    requires
        segs_wf(s, lines),
        0 <= m < s.len(),
        0 <= j <= s[m].end_bi,
    ensures
        exists|i: int| 0 <= i <= m && (#[trigger] s[i]).start_bi <= j <= s[i].end_bi,
    decreases m,
{
    assert(seg_ok(s, lines, m));
    if j < s[m].start_bi {
        lemma_cover(s, lines, m - 1, j);
    } else {
        assert(s[m].start_bi <= j <= s[m].end_bi);
    }
}

proof fn lemma_end_before_start(s: Seq<crate::seg::CSeg>, lines: Seq<CLine>, i: int, k: int)
    requires
        segs_wf(s, lines),
        0 <= i < k < s.len(),
    ensures
        s[i].end_bi < s[k].start_bi,
    decreases k - i,
{
    assert(seg_ok(s, lines, k));
    assert(seg_ok(s, lines, k - 1));
    if k - 1 > i {
        lemma_end_before_start(s, lines, i, k - 1);
    }
}

/// A sure segment spans at least three lines and ends beyond its start: a
/// sure up segment ends at or above where it began, a sure down segment at
/// or below. It was closed by a fractal of its characteristic sequence: for
/// a segment going up, a top whose middle element is higher than the first
/// and at least as high as the third; going down, the mirror.
pub proof fn law_sure_segment_sound(s: Seq<crate::seg::CSeg>, lines: Seq<CLine>, i: int)
    requires
        segs_wf(s, lines),
        0 <= i < s.len(),
        s[i].is_sure,
    ensures
        s[i].end_bi - s[i].start_bi + 1 >= 3,
        spec_seg_values_ok(lines, s[i].start_bi as int, s[i].end_bi as int, s[i].dir),
        s[i].eigen_fx matches Some(e) && e.found(),
        s[i].eigen_fx matches Some(e) && crate::eigen_fx::spec_fx_values(e.e0()->0, e.e1()->0, e.e2()->0, e.dir),
{
    assert(seg_ok(s, lines, i));
    assert(crate::seg_list::seg_fx_ok(s, i));
}

/// In a well-formed list of lines, two lines run the same way exactly when
/// an even number of steps lies between them.
pub proof fn law_line_directions_alternate(lines: Seq<CLine>, i: int, j: int)
    requires
        lines_wf(lines),
        0 <= i <= j < lines.len(),
    ensures
        (lines[i].dir == lines[j].dir) <==> (j - i) % 2 == 0,
{
    crate::seg_list::lemma_dir_parity(lines, i, j);
}

/// Every pivot's range lies within its peaks: its peak low is no higher
/// than its low and its peak high no lower than its high; it starts after
/// the first line and its lines are among the lines it was built on.
pub proof fn law_pivot_within_peaks(zl: crate::zs_list::CZSList, n: int, i: int)
    requires
        zl.wf(n),
        0 <= i < zl.zs_lst@.len(),
    ensures
        zl.zs_lst@[i].peak_low <= zl.zs_lst@[i].low,
        zl.zs_lst@[i].high <= zl.zs_lst@[i].peak_high,
        zl.zs_lst@[i].begin_bi matches Some(b) && 1 <= b < n,
        zl.zs_lst@[i].end_bi matches Some(e) && e < n,
{
    assert(crate::zs_list::zs_fits(zl.zs_lst@[i], n));
}

/// No two listed buy/sell points stand at the same bar, and each listed
/// point's first kind is one its side looks for.
pub proof fn law_bsp_points_distinct(l: crate::bsp::CBSPointList, i: int, j: int)
    requires
        l.wf(),
        0 <= i < j < l.lst@.len(),
    ensures
        l.lst@[i].klu != l.lst@[j].klu,
        l.lst@[i].bsp_type@.len() >= 1,
        l.config.side(l.lst@[i].is_buy).target_types@.contains(l.lst@[i].bsp_type@[0]),
{
    let v = crate::bsp::views(l.lst@);
    assert(v[i].klu != v[j].klu);
    assert(v[i].types.len() >= 1);
}

/// Merging a bar into the last combined K-line (the bar contains it or lies
/// within it): going down, the K-line takes the lower high and the lower low
/// of the two; going up, the higher high and the higher low. The one
/// exception is a flat bar at the K-line's current extreme (its low going
/// down, its high going up), which leaves the range as it was. So a merged
/// K-line going down reaches no higher in its low than a bar that is not
/// flat, going up no lower in its high. No new K-line starts, the earlier
/// ones stay, and the bar joins the members.
pub proof fn law_merge_extremes(ks: Seq<KLineView>, u: CKLineUnit)
    requires
        ks.len() > 0,
        (ks.last().high >= u.high && ks.last().low <= u.low) || (ks.last().high <= u.high && ks.last().low >= u.low),
    ensures
        ({
            let k = ks.last();
            let (r, started) = spec_klcs_after(ks, u);
            let flat_at_low = u.high == u.low && u.low == k.low;
            let flat_at_high = u.high == u.low && u.high == k.high;
            &&& !started
            &&& r.len() == ks.len()
            &&& forall|i: int| 0 <= i < ks.len() - 1 ==> #[trigger] r[i] == ks[i]
            &&& r.last().lst == k.lst.push(u.idx)
            &&& r.last().dir == k.dir
            &&& r.last().time_end == u.time
            &&& k.dir == KLINE_DIR::DOWN && !flat_at_low ==> r.last().low == (if u.low < k.low { u.low } else { k.low })
                && r.last().high == (if u.high < k.high { u.high } else { k.high })
            &&& k.dir == KLINE_DIR::DOWN && flat_at_low ==> r.last().low == k.low && r.last().high == k.high
            &&& k.dir == KLINE_DIR::DOWN && u.low < u.high ==> r.last().low <= u.low
            &&& k.dir == KLINE_DIR::UP && !flat_at_high ==> r.last().high == (if u.high > k.high { u.high } else { k.high })
                && r.last().low == (if u.low > k.low { u.low } else { k.low })
            &&& k.dir == KLINE_DIR::UP && flat_at_high ==> r.last().low == k.low && r.last().high == k.high
            &&& k.dir == KLINE_DIR::UP && u.low < u.high ==> r.last().high >= u.high
        }),
{
}

/// With the end of a stroke required to be its extreme, a stroke may go
/// from a bottom only to a K-line at least as high as every K-line strictly
/// between them, and from a top only to one at least as low.
pub proof fn law_stroke_end_is_peak(
    ks: Seq<KLineView>,
    units: Seq<CKLineUnit>,
    cfg: CBiConfig,
    klc: int,
    last_end: int,
    for_virtual: bool,
    k: int,
)
    requires
        cfg.bi_end_is_peak,
        spec_can_make_bi(ks, units, cfg, klc, last_end, for_virtual),
        last_end < k < klc,
    ensures
        ks[last_end].fx == FX_TYPE::BOTTOM ==> ks[k].high <= ks[klc].high,
        ks[last_end].fx == FX_TYPE::TOP ==> ks[k].low >= ks[klc].low,
{
}

/// When the last stroke may be dropped so that the one before it extends
/// to `klc`, that one's new end is its extreme: from a bottom no K-line
/// strictly between its start and `klc` is higher than `klc`, from a top none
/// is lower.
pub proof fn law_peak_update_is_extreme(ks: Seq<KLineView>, cfg: CBiConfig, bis: Seq<BiView>, klc: int, k: int)
    requires
        spec_can_update_peak(ks, cfg, bis, klc),
        bis[bis.len() - 2].begin_klc < k < klc,
    ensures
        ks[bis[bis.len() - 2].begin_klc as int].fx == FX_TYPE::BOTTOM ==> ks[k].high <= ks[klc].high,
        ks[bis[bis.len() - 2].begin_klc as int].fx == FX_TYPE::TOP ==> ks[k].low >= ks[klc].low,
{
}

/// When a line completes a fractal of the characteristic sequence the
/// segment's way, the middle element is marked as that fractal, keeps its
/// range, and carries a gap exactly when it clears the first element: going
/// up, its low above the first's high; going down, its high below the
/// first's low.
pub proof fn law_fractal_gap(s: FxState, b: CLine, dir: BI_DIR, kl_dir: KLINE_DIR)
    requires
        s.e0 is Some,
        s.e1 is Some,
        spec_fx_add(s, b, dir, kl_dir).1,
    ensures
        ({
            let e0 = s.e0->0;
            let e1 = s.e1->0;
            let m = spec_fx_add(s, b, dir, kl_dir).0.e1->0;
            &&& spec_fx_add(s, b, dir, kl_dir).0.e1 is Some
            &&& m.low == e1.low && m.high == e1.high
            &&& m.fx == (if dir == BI_DIR::UP { FX_TYPE::TOP } else { FX_TYPE::BOTTOM })
            &&& m.gap == (if dir == BI_DIR::UP { e0.high < e1.low } else { e0.low > e1.high })
        }),
{
}

/// The lines `i..hi` that run against direction `dir`, in order.
pub open spec fn spec_against(lines: Seq<CLine>, i: int, hi: int, dir: BI_DIR) -> Seq<int>
    decreases hi - i,
{
    if i >= hi || i < 0 {
        Seq::empty()
    } else if lines[i].dir != dir {
        seq![i] + spec_against(lines, i + 1, hi, dir)
    } else {
        spec_against(lines, i + 1, hi, dir)
    }
}

/// Feeding the lines `l` to the pivot search in order: while none is
/// counted the line waits as a free line, after that each updates the
/// pivots.
pub open spec fn spec_zs_feed_lines(
    st: (Seq<ZsView>, Seq<usize>),
    l: Seq<int>,
    cnt: int,
    is_sure: bool,
    cfg: CZsConfig,
    lines: Seq<CLine>,
    segs: Seq<CSeg>,
) -> (Seq<ZsView>, Seq<usize>)
    decreases l.len(),
{
    if l.len() == 0 {
        st
    } else if cnt < 1 {
        spec_zs_feed_lines(
            spec_zs_add_free(st, l[0] as usize, is_sure, ZsAlgo::Normal, cfg, lines, segs),
            l.drop_first(),
            cnt + 1,
            is_sure,
            cfg,
            lines,
            segs,
        )
    } else {
        spec_zs_feed_lines(spec_zs_update(st, l[0] as usize, is_sure, cfg, lines, segs), l.drop_first(), cnt, is_sure, cfg, lines, segs)
    }
}

/// Within a segment the pivots are built from its lines that run against
/// the segment's direction, and from those alone: feeding the segment's
/// lines `i..hi` is feeding, in order, exactly the lines among them whose
/// direction is opposite to the segment's.
pub proof fn law_pivots_from_lines_against(
    st: (Seq<ZsView>, Seq<usize>),
    i: int,
    hi: int,
    cnt: int,
    seg_dir: BI_DIR,
    is_sure: bool,
    cfg: CZsConfig,
    lines: Seq<CLine>,
    segs: Seq<CSeg>,
)
    requires
        0 <= i,
    ensures
        spec_zs_feed_range(st, i, hi, cnt, seg_dir, is_sure, cfg, lines, segs) == spec_zs_feed_lines(
            st,
            spec_against(lines, i, hi, seg_dir),
            cnt,
            is_sure,
            cfg,
            lines,
            segs,
        ),
        forall|k: int|
            0 <= k < spec_against(lines, i, hi, seg_dir).len() ==> i <= #[trigger] spec_against(lines, i, hi, seg_dir)[k]
                < hi && lines[spec_against(lines, i, hi, seg_dir)[k]].dir != seg_dir,
    decreases hi - i,
{
    if i < hi {
        law_pivots_from_lines_against(st, i + 1, hi, cnt, seg_dir, is_sure, cfg, lines, segs);
        if lines[i].dir != seg_dir {
            let rest = spec_against(lines, i + 1, hi, seg_dir);
            let l = seq![i] + rest;
            assert(l[0] == i);
            assert(l.drop_first() =~= rest);
            let st2 = if cnt < 1 {
                spec_zs_add_free(st, i as usize, is_sure, ZsAlgo::Normal, cfg, lines, segs)
            } else {
                spec_zs_update(st, i as usize, is_sure, cfg, lines, segs)
            };
            let c2 = if cnt < 1 { cnt + 1 } else { cnt };
            law_pivots_from_lines_against(st2, i + 1, hi, c2, seg_dir, is_sure, cfg, lines, segs);
            assert forall|k: int| 0 <= k < l.len() implies i <= #[trigger] l[k] < hi && lines[l[k]].dir != seg_dir by {
                if k > 0 {
                    assert(l[k] == rest[k - 1]);
                }
            }
        }
    }
}

/// The line of a third-class point after a pivot stays out of the pivot's
/// range: running down, its low is at or above the pivot's high; running
/// up, its high is at or below the pivot's low.
pub proof fn law_bsp3_after_stays_out(
    segs: Seq<CSeg>,
    ns: int,
    is_buy: bool,
    lines: Seq<CLine>,
    zs: Seq<CZS>,
    conf: CBSPointConfig,
    bsp1_bi: Option<usize>,
    next_seg_idx: int,
)
    requires
        lines.len() <= usize::MAX,
        spec_bsp3_after(segs, ns, is_buy, lines, zs, conf, bsp1_bi, next_seg_idx) is Some,
    ensures
        ({
            let b = spec_bsp3_after(segs, ns, is_buy, lines, zs, conf, bsp1_bi, next_seg_idx)->0;
            let z = zs[spec_first_multi_from(segs[ns].zs_lst@, zs, 0)->0 as int];
            let l = lines[b as int];
            &&& l.dir == BI_DIR::DOWN ==> l.low >= z.high
            &&& l.dir == BI_DIR::UP ==> l.high <= z.low
        }),
{
}

/// The line a scan for a third-class point before a pivot stops at stays
/// out of the pivot's range, as after it.
pub proof fn law_bsp3_scan_stays_out(lines: Seq<CLine>, z: CZS, end: Option<int>, next_seg_idx: int, m: int, j: int)
    requires
        lines.len() <= usize::MAX,
        spec_bsp3_scan(lines, z, end, next_seg_idx, m, j) is Some,
    ensures
        ({
            let l = lines[spec_bsp3_scan(lines, z, end, next_seg_idx, m, j)->0 as int];
            &&& l.dir == BI_DIR::DOWN ==> l.low >= z.high
            &&& l.dir == BI_DIR::UP ==> l.high <= z.low
        }),
    decreases lines.len() - j,
{
    if 0 <= j < lines.len() && crate::bsp::spec_back2zs(lines[j], z) && j + 2 < lines.len() {
        law_bsp3_scan_stays_out(lines, z, end, next_seg_idx, m, j + 2);
    }
}

} // verus!

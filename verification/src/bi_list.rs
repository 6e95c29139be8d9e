use vstd::prelude::*;
use crate::bi::{
    spec_begin_val, spec_bi_check, spec_bi_valid, spec_dir_of_fx, spec_end_klu, spec_end_val,
    BiView, CBi,
};
use crate::cbi_config::CBiConfig;
use crate::enums::{BI_DIR, BI_TYPE, FX_CHECK_METHOD, FX_TYPE, KLINE_DIR};
use crate::kline::KLineView;
use crate::kline_list::{
    check_fx_valid_pre, klc_first, klc_last, klc_ok, lemma_klc_count, spec_check_fx_valid,
    spec_has_gap_with_next, CKLineList,
};
use crate::kline_unit::CKLineUnit;
use crate::strutil::str_is;

verus! {

/// Number of K-lines k with lo <= k < hi that leave a gap to the next one.
pub open spec fn count_gaps(ks: Seq<KLineView>, units: Seq<CKLineUnit>, lo: int, hi: int) -> int
    decreases hi - lo,
{
    if hi <= lo {
        0
    } else {
        count_gaps(ks, units, lo, hi - 1) + if spec_has_gap_with_next(ks, units, hi - 1) { 1int } else { 0int }
    }
}

/// The span between two K-lines used to decide whether a stroke is long
/// enough; with `gap_as_kl`, short spans also count each gap as a K-line.
pub open spec fn spec_klc_span(
    ks: Seq<KLineView>,
    units: Seq<CKLineUnit>,
    gap_as_kl: bool,
    klc: int,
    last_end: int,
) -> int {
    let span = klc - last_end;
    if !gap_as_kl || span >= 4 {
        span
    } else {
        span + count_gaps(ks, units, last_end, klc)
    }
}

/// No K-line strictly between a fractal and a candidate stroke end goes beyond
/// that end: above it after a bottom, below it after a top.
pub open spec fn spec_end_is_peak(ks: Seq<KLineView>, last_end: int, cur_end: int) -> bool {
    if ks[last_end].fx == FX_TYPE::BOTTOM {
        forall|k: int| last_end < k < cur_end ==> #[trigger] ks[k].high <= ks[cur_end].high
    } else if ks[last_end].fx == FX_TYPE::TOP {
        forall|k: int| last_end < k < cur_end ==> #[trigger] ks[k].low >= ks[cur_end].low
    } else {
        true
    }
}

/// Whether a stroke from `last_end` to `klc` spans enough K-lines: strict
/// strokes need a span of 4; others a span of 3 and 3 bars strictly between
/// (counted over the K-lines after `last_end`, at least one, whose successor
/// exists).
pub open spec fn spec_satisfy_bi_span(
    ks: Seq<KLineView>,
    units: Seq<CKLineUnit>,
    cfg_strict: bool,
    gap_as_kl: bool,
    klc: int,
    last_end: int,
) -> bool {
    let span = spec_klc_span(ks, units, gap_as_kl, klc, last_end);
    if cfg_strict {
        span >= 4
    } else {
        let hi = if klc - 1 >= last_end + 1 { klc - 1 } else { last_end + 1 };
        &&& hi + 1 < ks.len()
        &&& span >= 3
        &&& klc_last(ks[hi]) - klc_first(ks[last_end + 1]) + 1 >= 3
    }
}

/// Whether a stroke may go from `last_end` to `klc`: long enough (unless the
/// algorithm is "fx"), with valid fractals, and ending at the extreme when
/// the configuration asks for it.
pub open spec fn spec_can_make_bi(
    ks: Seq<KLineView>,
    units: Seq<CKLineUnit>,
    cfg: CBiConfig,
    klc: int,
    last_end: int,
    for_virtual: bool,
) -> bool {
    &&& (cfg.bi_algo@ == "fx"@ || spec_satisfy_bi_span(ks, units, cfg.is_strict, cfg.gap_as_kl, klc, last_end))
    &&& spec_check_fx_valid(ks, last_end, klc, cfg.bi_fx_check, for_virtual)
    &&& (cfg.bi_end_is_peak ==> spec_end_is_peak(ks, last_end, klc))
}

/// The kind of fractal a stroke of this direction ends at.
pub open spec fn spec_end_fx(dir: BI_DIR) -> FX_TYPE {
    if dir == BI_DIR::UP { FX_TYPE::TOP } else { FX_TYPE::BOTTOM }
}

/// A sure stroke: it starts at a fractal, ends at the opposite one later on,
/// agrees with its direction and remembers no provisional end.
pub open spec fn sure_bi_ok(ks: Seq<KLineView>, b: BiView) -> bool {
    &&& spec_bi_valid(ks, b.begin_klc as int, b.end_klc as int)
    &&& spec_dir_of_fx(ks[b.begin_klc as int].fx) == Some(b.dir)
    &&& ks[b.end_klc as int].fx == spec_end_fx(b.dir)
    &&& b.begin_klc < b.end_klc
    &&& b.sure_end.len() == 0
}

/// The remembered ends of a provisional stroke, from `start` on, each form a
/// sure stroke with the one before.
pub open spec fn chain_ok(ks: Seq<KLineView>, start: int, e: Seq<usize>) -> bool {
    forall|k: int| 0 <= k < e.len() ==> #[trigger] chain_link_ok(ks, start, e, k)
}

pub open spec fn chain_prev(start: int, e: Seq<usize>, k: int) -> int {
    if k == 0 { start } else { e[k - 1] as int }
}

pub open spec fn chain_link_ok(ks: Seq<KLineView>, start: int, e: Seq<usize>, k: int) -> bool {
    let p = chain_prev(start, e, k);
    &&& spec_bi_valid(ks, p, e[k] as int)
    &&& ks[e[k] as int].fx == spec_end_fx(spec_dir_of_fx(ks[p].fx)->0)
    &&& p < e[k]
}

/// A provisional stroke: it starts at a fractal that gives its direction and
/// its remembered ends form sure strokes.
pub open spec fn virtual_bi_ok(ks: Seq<KLineView>, b: BiView) -> bool {
    &&& b.begin_klc < ks.len()
    &&& b.end_klc < ks.len()
    &&& spec_dir_of_fx(ks[b.begin_klc as int].fx) == Some(b.dir)
    &&& chain_ok(ks, b.begin_klc as int, b.sure_end)
}

pub open spec fn bi_at_ok(ks: Seq<KLineView>, bis: Seq<BiView>, i: int) -> bool {
    &&& bis[i].idx == i
    &&& i < bis.len() - 1 ==> bis[i].is_sure
    &&& bis[i].is_sure ==> sure_bi_ok(ks, bis[i])
    &&& !bis[i].is_sure ==> virtual_bi_ok(ks, bis[i])
    &&& i < bis.len() - 1 ==> bis[i + 1].begin_klc == bis[i].end_klc
}

/// The invariant of a list of strokes over its combined K-lines: all strokes
/// but possibly the last are sure, each starts where the one before ends, and
/// the K-lines kept for a first stroke are fractals.
pub open spec fn bis_wf(ks: Seq<KLineView>, bis: Seq<BiView>, free: Seq<usize>) -> bool {
    &&& forall|i: int| 0 <= i < bis.len() ==> #[trigger] bi_at_ok(ks, bis, i)
    &&& forall|i: int| 0 <= i < free.len() ==> #[trigger] free[i] < ks.len() && ks[free[i] as int].fx != FX_TYPE::UNKNOWN
}

/// Every K-line the sure part of the state refers to lies before `c`.
pub open spec fn refs_before(bis: Seq<BiView>, free: Seq<usize>, c: int) -> bool {
    &&& forall|i: int| 0 <= i < bis.len() ==> (#[trigger] bis[i]).begin_klc < c
    &&& forall|i: int| 0 <= i < bis.len() && bis[i].is_sure ==> (#[trigger] bis[i]).end_klc < c
    &&& forall|i: int, k: int| 0 <= i < bis.len() && 0 <= k < bis[i].sure_end.len() ==> #[trigger] bis[i].sure_end[k] < c
    &&& forall|i: int| 0 <= i < free.len() ==> #[trigger] free[i] < c
}

/// Finding strokes in a list of combined K-lines.
pub struct CBiList {
    pub bi_list: Vec<CBi>,
    pub last_end: Option<usize>,
    pub config: CBiConfig,
    pub free_klc_lst: Vec<usize>,
}

impl CBiList {
    pub open spec fn bis(&self) -> Seq<BiView> {
        self.bi_list@.map_values(|b: CBi| b@)
    }

    /// The invariant against a list of combined K-lines.
    pub open spec fn wf(&self, kl: &CKLineList) -> bool {
        &&& kl.wf()
        &&& bis_wf(kl.klcs(), self.bis(), self.free_klc_lst@)
    }

    /// The invariant when every stroke is sure and `last_end` is the end of
    /// the last one.
    pub open spec fn wf_sure(&self, kl: &CKLineList) -> bool {
        &&& self.wf(kl)
        &&& forall|i: int| 0 <= i < self.bis().len() ==> (#[trigger] self.bis()[i]).is_sure
        &&& self.bis().len() > 0 ==> self.last_end == Some(self.bis()[self.bis().len() - 1].end_klc)
    }

    pub fn new(bi_conf: CBiConfig) -> (r: Self)
        ensures
            r.bis().len() == 0,
            r.last_end is None,
            r.free_klc_lst@.len() == 0,
            r.config == bi_conf,
    {
        CBiList { bi_list: Vec::new(), last_end: None, config: bi_conf, free_klc_lst: Vec::new() }
    }

    pub fn len(&self) -> (r: usize)
        ensures
            r == self.bis().len(),
    {
        self.bi_list.len()
    }

    /// The span between `last_end` and `klc` (see `spec_klc_span`).
    pub fn get_klc_span(&self, klc: usize, last_end: usize, kl: &CKLineList) -> (r: usize)
        requires
            kl.wf(),
            last_end <= klc < kl.klcs().len(),
        ensures
            r == spec_klc_span(kl.klcs(), kl.units@, self.config.gap_as_kl, klc as int, last_end as int),
    {
        let mut span = klc - last_end;
        if !self.config.gap_as_kl {
            return span;
        }
        if span >= 4 {
            return span;
        }
        let mut k = last_end;
        while k < klc
            invariant
                kl.wf(),
                last_end <= k <= klc < kl.klcs().len(),
                klc - last_end < 4,
                span == klc - last_end + count_gaps(kl.klcs(), kl.units@, last_end as int, k as int),
                count_gaps(kl.klcs(), kl.units@, last_end as int, k as int) <= k - last_end,
            decreases klc - k,
        {
            if kl.has_gap_with_next(k) {
                span = span + 1;
            }
            k = k + 1;
        }
        span
    }

    /// Whether a stroke from `last_end` to `klc` spans enough K-lines.
    pub fn satisfy_bi_span(&self, klc: usize, last_end: usize, kl: &CKLineList) -> (r: bool)
        requires
            kl.wf(),
            last_end <= klc < kl.klcs().len(),
        ensures
            r == spec_satisfy_bi_span(kl.klcs(), kl.units@, self.config.is_strict, self.config.gap_as_kl, klc as int, last_end as int),
    {
        let bi_span = self.get_klc_span(klc, last_end, kl);
        if self.config.is_strict {
            return bi_span >= 4;
        }
        let ghost ks = kl.klcs();
        let n = kl.lst.len();
        if last_end + 1 >= n {
            return false;
        }
        proof {
            assert(klc_ok(ks, kl.units@, last_end + 1));
        }
        let first_unit = kl.lst[last_end + 1].lst[0];
        let mut k = last_end + 1;
        let mut uint_kl_cnt: usize = 0;
        let _ulen = kl.units.len();
        loop
            invariant_except_break
                uint_kl_cnt == (if k == last_end + 1 { 0 } else { klc_last(ks[k - 1]) - first_unit + 1 }),
            invariant
                k < klc || k == last_end + 1,
                k <= (if klc - 1 >= last_end + 1 { klc - 1 } else { last_end + 1 }),
                kl.wf(),
                ks == kl.klcs(),
                n == ks.len(),
                _ulen == kl.units@.len(),
                last_end + 1 <= k < n,
                last_end <= klc < n,
                first_unit == klc_first(ks[last_end + 1]),
                !self.config.is_strict,
            ensures
                k + 1 < n,
                k == (if klc - 1 >= last_end + 1 { klc - 1 } else { last_end + 1 }),
                uint_kl_cnt == klc_last(ks[k as int]) - first_unit + 1,
            decreases n - k,
        {
            proof {
                assert(klc_ok(ks, kl.units@, k as int));
                if k > last_end + 1 {
                    assert(crate::kline_list::link_ok(ks, k as int));
                }
            }
            uint_kl_cnt = uint_kl_cnt + kl.lst[k].lst.len();
            if k + 1 >= n {
                proof {
                    let hi = if klc - 1 >= last_end + 1 { klc - 1 } else { last_end + 1 };
                }
                return false;
            }
            if k + 1 < klc {
                k = k + 1;
            } else {
                break;
            }
        }
        bi_span >= 3 && uint_kl_cnt >= 3
    }
}


/// Whether no K-line strictly between `last_end` and `cur_end` goes beyond
/// `cur_end` (see `spec_end_is_peak`).
pub fn end_is_peak(last_end: usize, cur_end: usize, kl: &CKLineList) -> (r: bool)
    requires
        last_end < kl.klcs().len(),
        cur_end < kl.klcs().len(),
    ensures
        r == spec_end_is_peak(kl.klcs(), last_end as int, cur_end as int),
{
    let ghost ks = kl.klcs();
    let n = kl.lst.len();
    let fx = kl.lst[last_end].fx;
    if fx == FX_TYPE::BOTTOM {
        let thred = kl.lst[cur_end].high;
        let mut k = last_end + 1;
        while k < n
            invariant
                ks == kl.klcs(),
                n == ks.len(),
                last_end < k,
                cur_end < n,
                thred == ks[cur_end as int].high,
                ks[last_end as int].fx == FX_TYPE::BOTTOM,
                forall|x: int| last_end < x < k && x < cur_end ==> #[trigger] ks[x].high <= thred,
            decreases n - k,
        {
            if k >= cur_end {
                return true;
            }
            if kl.lst[k].high > thred {
                assert(ks[k as int].high > ks[cur_end as int].high);
                return false;
            }
            k = k + 1;
        }
        true
    } else if fx == FX_TYPE::TOP {
        let thred = kl.lst[cur_end].low;
        let mut k = last_end + 1;
        while k < n
            invariant
                ks == kl.klcs(),
                n == ks.len(),
                last_end < k,
                cur_end < n,
                thred == ks[cur_end as int].low,
                ks[last_end as int].fx == FX_TYPE::TOP,
                forall|x: int| last_end < x < k && x < cur_end ==> #[trigger] ks[x].low >= thred,
            decreases n - k,
        {
            if k >= cur_end {
                return true;
            }
            if kl.lst[k].low < thred {
                assert(ks[k as int].low < ks[cur_end as int].low);
                return false;
            }
            k = k + 1;
        }
        true
    } else {
        true
    }
}

/// A valid pair of fractals bounds a stroke whose ends agree with its
/// direction.
pub proof fn lemma_fx_valid_gives_check(ks: Seq<KLineView>, units: Seq<CKLineUnit>, i: int, j: int, m: FX_CHECK_METHOD, v: bool)
    requires
        crate::kline_list::klcs_wf(ks, units),
        check_fx_valid_pre(ks, i, j, m, v),
        spec_check_fx_valid(ks, i, j, m, v),
    ensures
        spec_bi_valid(ks, i, j),
{
    assert(klc_ok(ks, units, j));
    assert(klc_ok(ks, units, i));
}

impl CBiList {
    /// Whether a stroke may go from `last_end` to `klc`.
    pub fn can_make_bi(&self, klc: usize, last_end: usize, for_virtual: bool, kl: &CKLineList) -> (r: bool)
        requires
            kl.wf(),
            check_fx_valid_pre(kl.klcs(), last_end as int, klc as int, self.config.bi_fx_check, for_virtual),
        ensures
            r == spec_can_make_bi(kl.klcs(), kl.units@, self.config, klc as int, last_end as int, for_virtual),
    {
        let satisfy_span = if str_is(&self.config.bi_algo, "fx") {
            true
        } else {
            self.satisfy_bi_span(klc, last_end, kl)
        };
        if !satisfy_span {
            return false;
        }
        if !kl.check_fx_valid(last_end, klc, self.config.bi_fx_check, for_virtual) {
            return false;
        }
        if self.config.bi_end_is_peak && !end_is_peak(last_end, klc, kl) {
            return false;
        }
        true
    }
}


/// Whether the last stroke may be dropped so that the one before extends to
/// `klc` (only when sub-peaks are not allowed): `klc` goes beyond the start of
/// the last stroke, ends at the extreme since the start of the one before,
/// and the last stroke did not go beyond that start.
pub open spec fn spec_can_update_peak(ks: Seq<KLineView>, cfg: CBiConfig, bis: Seq<BiView>, klc: int) -> bool {
    let n = bis.len();
    let last = bis[n - 1];
    let sl = bis[n - 2];
    &&& !cfg.bi_allow_sub_peak
    &&& n >= 2
    &&& !(last.dir == BI_DIR::DOWN && ks[klc].high < spec_begin_val(ks, last))
    &&& !(last.dir == BI_DIR::UP && ks[klc].low > spec_begin_val(ks, last))
    &&& spec_end_is_peak(ks, sl.begin_klc as int, klc)
    &&& !(last.dir == BI_DIR::DOWN && spec_end_val(ks, last) < spec_begin_val(ks, sl))
    &&& !(last.dir == BI_DIR::UP && spec_end_val(ks, last) > spec_begin_val(ks, sl))
}

/// Whether K-line `klc` may become the new end of stroke `last`: a top (an up
/// K-line for a provisional end) at least as high for an up stroke, a bottom
/// (a down K-line) at least as low for a down stroke.
pub open spec fn spec_end_update_ok(ks: Seq<KLineView>, last: BiView, klc: int, for_virtual: bool) -> bool {
    ||| last.dir == BI_DIR::UP && (if for_virtual { ks[klc].dir == KLINE_DIR::UP } else { ks[klc].fx == FX_TYPE::TOP })
        && ks[klc].high >= spec_end_val(ks, last)
    ||| last.dir == BI_DIR::DOWN && (if for_virtual { ks[klc].dir == KLINE_DIR::DOWN } else { ks[klc].fx == FX_TYPE::BOTTOM })
        && ks[klc].low <= spec_end_val(ks, last)
}

/// The last stroke after its end moves to `klc`; a provisional move keeps
/// the old end in mind.
pub open spec fn spec_moved_end(last: BiView, klc: int, for_virtual: bool) -> BiView {
    if for_virtual {
        BiView { end_klc: klc as usize, is_sure: false, sure_end: last.sure_end.push(last.end_klc), ..last }
    } else {
        BiView { end_klc: klc as usize, ..last }
    }
}

/// A new stroke from K-line `pre` to K-line `cur`.
pub open spec fn spec_new_bi(ks: Seq<KLineView>, idx: int, pre: int, cur: int, is_sure: bool) -> BiView {
    BiView {
        idx: idx as usize,
        begin_klc: pre as usize,
        end_klc: cur as usize,
        dir: spec_dir_of_fx(ks[pre].fx)->0,
        is_sure,
        sure_end: Seq::empty(),
        seg_idx: None,
        bi_type: BI_TYPE::STRICT,
    }
}

/// A fractal never sits at either end of a well formed list of K-lines.
pub proof fn lemma_fx_inner(ks: Seq<KLineView>, units: Seq<CKLineUnit>, i: int)
    requires
        crate::kline_list::klcs_wf(ks, units),
        0 <= i < ks.len(),
        ks[i].fx != FX_TYPE::UNKNOWN,
    ensures
        1 <= i,
        i + 1 < ks.len(),
{
}

impl CBiList {
    /// Whether the last stroke may be replaced by extending the one before
    /// to `klc` (see `spec_can_update_peak`).
    pub fn can_update_peak(&self, klc: usize, kl: &CKLineList) -> (r: bool)
        requires
            self.wf(kl),
            klc < kl.klcs().len(),
            forall|i: int| 0 <= i < self.bis().len() ==> (#[trigger] self.bis()[i]).end_klc < kl.klcs().len(),
        ensures
            r == spec_can_update_peak(kl.klcs(), self.config, self.bis(), klc as int),
    {
        let n = self.bi_list.len();
        if self.config.bi_allow_sub_peak || n < 2 {
            return false;
        }
        let ghost ks = kl.klcs();
        proof {
            assert(bi_at_ok(ks, self.bis(), n - 1));
            assert(bi_at_ok(ks, self.bis(), n - 2));
            assert(self.bis()[n - 1].end_klc < ks.len());
            assert(self.bis()[n - 2].end_klc < ks.len());
        }
        let last_bi = &self.bi_list[n - 1];
        let second_last_bi = &self.bi_list[n - 2];
        if last_bi.is_down() && kl.lst[klc].high < last_bi.get_begin_val(kl) {
            return false;
        }
        if last_bi.is_up() && kl.lst[klc].low > last_bi.get_begin_val(kl) {
            return false;
        }
        if !end_is_peak(second_last_bi.begin_klc, klc, kl) {
            return false;
        }
        if last_bi.is_down() && last_bi.get_end_val(kl) < second_last_bi.get_begin_val(kl) {
            return false;
        }
        if last_bi.is_up() && last_bi.get_end_val(kl) > second_last_bi.get_begin_val(kl) {
            return false;
        }
        true
    }

    /// Moves the end of the last (sure) stroke to `klc` when `klc` goes
    /// further the same way (see `spec_end_update_ok`); provisionally with
    /// `for_virtual`.
    pub fn try_update_end(&mut self, klc: usize, for_virtual: bool, kl: &CKLineList) -> (r: bool)
        requires
            old(self).wf(kl),
            klc < kl.klcs().len(),
            old(self).bis().len() > 0 ==> old(self).bis()[old(self).bis().len() - 1].is_sure,
            old(self).bis().len() > 0 ==> old(self).bis()[old(self).bis().len() - 1].end_klc < klc,
        ensures
            final(self).wf(kl),
            final(self).config == old(self).config,
            final(self).free_klc_lst@ == old(self).free_klc_lst@,
            ({
                let bis = old(self).bis();
                let n = bis.len();
                &&& r == (n > 0 && spec_end_update_ok(kl.klcs(), bis[n - 1], klc as int, for_virtual))
                &&& r ==> final(self).bis() == bis.update(n - 1, spec_moved_end(bis[n - 1], klc as int, for_virtual))
                &&& r ==> final(self).last_end == Some(klc)
                &&& !r ==> final(self).bis() == bis && final(self).last_end == old(self).last_end
            }),
    {
        let n = self.bi_list.len();
        if n == 0 {
            return false;
        }
        let ghost ks = kl.klcs();
        let ghost bis = self.bis();
        proof {
            assert(bi_at_ok(ks, bis, n - 1));
        }
        let last = &self.bi_list[n - 1];
        let end_val = last.get_end_val(kl);
        let k = &kl.lst[klc];
        let is_top = if for_virtual { k.dir == KLINE_DIR::UP } else { k.fx == FX_TYPE::TOP };
        let is_bottom = if for_virtual { k.dir == KLINE_DIR::DOWN } else { k.fx == FX_TYPE::BOTTOM };
        if (last.is_up() && is_top && k.high >= end_val) || (last.is_down() && is_bottom && k.low <= end_val) {
            let mut b = self.bi_list.pop().unwrap();
            proof {
                assert(b@ == bis[n - 1]);
            }
            if for_virtual {
                b.update_virtual_end(klc, kl);
            } else {
                b.update_new_end(klc, kl);
            }
            self.bi_list.push(b);
            self.last_end = Some(klc);
            proof {
                let nb = spec_moved_end(bis[n - 1], klc as int, for_virtual);
                assert(self.bis() =~= bis.update(n - 1, nb));
                assert forall|i: int| 0 <= i < self.bis().len() implies #[trigger] bi_at_ok(ks, self.bis(), i) by {
                    assert(bi_at_ok(ks, bis, i));
                    if i == n - 1 && for_virtual {
                        assert(chain_link_ok(ks, nb.begin_klc as int, nb.sure_end, 0));
                    }
                }
            }
            true
        } else {
            false
        }
    }

    /// Appends a stroke from K-line `pre_klc` to `cur_klc`.
    pub fn add_new_bi(&mut self, pre_klc: usize, cur_klc: usize, is_sure: bool, kl: &CKLineList)
        requires
            old(self).wf(kl),
            spec_bi_valid(kl.klcs(), pre_klc as int, cur_klc as int),
            old(self).bis().len() < usize::MAX,
            old(self).bis().len() > 0 ==> old(self).bis()[old(self).bis().len() - 1].is_sure,
            old(self).bis().len() > 0 ==> old(self).bis()[old(self).bis().len() - 1].end_klc == pre_klc,
            is_sure ==> pre_klc < cur_klc,
            is_sure ==> kl.klcs()[cur_klc as int].fx == spec_end_fx(spec_dir_of_fx(kl.klcs()[pre_klc as int].fx)->0),
        ensures
            final(self).wf(kl),
            final(self).bis() == old(self).bis().push(
                spec_new_bi(kl.klcs(), old(self).bis().len() as int, pre_klc as int, cur_klc as int, is_sure),
            ),
            final(self).last_end == old(self).last_end,
            final(self).config == old(self).config,
            final(self).free_klc_lst@ == old(self).free_klc_lst@,
    {
        let ghost ks = kl.klcs();
        let ghost bis = self.bis();
        let new_bi = CBi::new(pre_klc, cur_klc, self.bi_list.len(), is_sure, kl);
        self.bi_list.push(new_bi);
        proof {
            let nb = spec_new_bi(ks, bis.len() as int, pre_klc as int, cur_klc as int, is_sure);
            assert(self.bis() =~= bis.push(nb));
            assert forall|i: int| 0 <= i < self.bis().len() implies #[trigger] bi_at_ok(ks, self.bis(), i) by {
                if i < bis.len() {
                    assert(bi_at_ok(ks, bis, i));
                }
            }
        }
    }

    /// The bar at which the last stroke ends, if any.
    pub fn get_last_klu_of_last_bi(&self, kl: &CKLineList) -> (r: Option<usize>)
        requires
            self.wf(kl),
            self.bis().len() > 0 ==> self.bis()[self.bis().len() - 1].end_klc < kl.klcs().len(),
        ensures
            self.bis().len() == 0 ==> r is None,
            self.bis().len() > 0 ==> r == Some(spec_end_klu(kl.klcs(), kl.units@, self.bis()[self.bis().len() - 1])),
    {
        let n = self.bi_list.len();
        if n == 0 {
            None
        } else {
            Some(self.bi_list[n - 1].get_end_klu(kl))
        }
    }
}


/// The strokes once the provisional last stroke is undone: back to its first
/// remembered end, followed by sure strokes through the other remembered
/// ends; a provisional stroke without remembered ends is dropped.
pub open spec fn spec_deleted_bis(ks: Seq<KLineView>, bis: Seq<BiView>) -> Seq<BiView> {
    let n = bis.len();
    if n == 0 || bis[n - 1].is_sure {
        bis
    } else {
        let last = bis[n - 1];
        let e = last.sure_end;
        if e.len() == 0 {
            bis.drop_last()
        } else {
            bis.update(n - 1, BiView { end_klc: e[0], is_sure: true, sure_end: Seq::empty(), ..last })
                + Seq::new((e.len() - 1) as nat, |k: int| spec_new_bi(ks, n + k, e[k] as int, e[k + 1] as int, true))
        }
    }
}

/// Each stroke starts at or after the K-line of its own index.
pub proof fn lemma_bi_begin_count(ks: Seq<KLineView>, bis: Seq<BiView>, free: Seq<usize>, i: int)
    requires
        bis_wf(ks, bis, free),
        0 <= i < bis.len(),
    ensures
        bis[i].begin_klc >= i,
    decreases i,
{
    if i > 0 {
        lemma_bi_begin_count(ks, bis, free, i - 1);
        assert(bi_at_ok(ks, bis, i - 1));
    }
}

/// The remembered ends of a provisional stroke lie strictly after its start
/// and after one another.
pub proof fn lemma_chain_grows(ks: Seq<KLineView>, start: int, e: Seq<usize>, k: int)
    requires
        chain_ok(ks, start, e),
        0 <= k < e.len(),
    ensures
        e[k] >= start + k + 1,
    decreases k,
{
    assert(chain_link_ok(ks, start, e, k));
    if k > 0 {
        lemma_chain_grows(ks, start, e, k - 1);
    }
}

impl CBiList {
    /// Undoes a provisional last stroke (see `spec_deleted_bis`), leaving
    /// only sure strokes, with `last_end` at the end of the last one.
    pub fn delete_virtual_bi(&mut self, kl: &CKLineList)
        requires
            old(self).wf(kl),
        ensures
            final(self).wf_sure(kl),
            final(self).bis() == spec_deleted_bis(kl.klcs(), old(self).bis()),
            final(self).bis().len() == 0 ==> final(self).last_end is None,
            final(self).config == old(self).config,
            final(self).free_klc_lst@ == old(self).free_klc_lst@,
    {
        let ghost ks = kl.klcs();
        let ghost bis = self.bis();
        let n = self.bi_list.len();
        if n > 0 && !self.bi_list[n - 1].is_sure {
            proof {
                assert(bi_at_ok(ks, bis, n - 1));
                lemma_bi_begin_count(ks, bis, self.free_klc_lst@, n - 1);
            }
            let sure_end_list = self.bi_list[n - 1].sure_end.clone();
            proof {
                assert(sure_end_list@ == bis[n - 1].sure_end);
            }
            if sure_end_list.len() > 0 {
                let ghost e = sure_end_list@;
                let ghost target = spec_deleted_bis(ks, bis);
                let mut b = self.bi_list.pop().unwrap();
                proof {
                    assert(b@ == bis[n - 1]);
                    assert(chain_link_ok(ks, b.begin_klc as int, e, 0));
                }
                b.restore_from_virtual_end(sure_end_list[0], kl);
                self.bi_list.push(b);
                self.last_end = Some(sure_end_list[0]);
                proof {
                    assert(self.bis() =~= target.take(n as int));
                    assert forall|i: int| 0 <= i < self.bis().len() implies #[trigger] bi_at_ok(ks, self.bis(), i) by {
                        assert(bi_at_ok(ks, bis, i));
                    }
                    assert forall|i: int| 0 <= i < self.bis().len() implies (#[trigger] self.bis()[i]).is_sure by {
                        assert(bi_at_ok(ks, bis, i));
                    }
                }
                let ghost start = bis[n - 1].begin_klc as int;
                let mut k: usize = 1;
                while k < sure_end_list.len()
                    invariant
                        1 <= k <= e.len(),
                        e == sure_end_list@,
                        e == bis[n - 1].sure_end,
                        ks == kl.klcs(),
                        start == bis[n - 1].begin_klc,
                        chain_ok(ks, start, e),
                        n > 0,
                        bis.len() == n,
                        n - 1 <= start,
                        target == spec_deleted_bis(ks, bis),
                        !bis[n - 1].is_sure,
                        self.bis() == target.take(n + k - 1),
                        self.wf(kl),
                        forall|i: int| 0 <= i < self.bis().len() ==> (#[trigger] self.bis()[i]).is_sure,
                        self.bis()[self.bis().len() - 1].end_klc == e[k - 1],
                        self.last_end == Some(e[k - 1]),
                        self.config == old(self).config,
                        self.free_klc_lst@ == old(self).free_klc_lst@,
                    decreases e.len() - k,
                {
                    proof {
                        assert(chain_link_ok(ks, start, e, k as int));
                        lemma_chain_grows(ks, start, e, k - 1);
                        let last = bis[n - 1];
                        let front = bis.update(n - 1, BiView { end_klc: e[0], is_sure: true, sure_end: Seq::empty(), ..last });
                        let back = Seq::new((e.len() - 1) as nat, |x: int| spec_new_bi(ks, n + x, e[x] as int, e[x + 1] as int, true));
                        assert(target =~= front + back);
                        assert(front.len() == n);
                        assert((front + back)[n + k - 1] == back[k - 1]);
                        assert(target[n + k - 1] == spec_new_bi(ks, n + k - 1, e[k - 1] as int, e[k as int] as int, true));
                    }
                    let pre = sure_end_list[k - 1];
                    let cur = sure_end_list[k];
                    self.add_new_bi(pre, cur, true, kl);
                    self.last_end = Some(cur);
                    k = k + 1;
                    proof {
                        assert(self.bis() =~= target.take(n + k - 1));
                    }
                }
                proof {
                    assert(target.len() == n + e.len() - 1);
                    assert(self.bis() =~= target);
                }
            } else {
                self.bi_list.pop();
                proof {
                    assert(self.bis() =~= bis.drop_last());
                    assert forall|i: int| 0 <= i < self.bis().len() implies #[trigger] bi_at_ok(ks, self.bis(), i) by {
                        assert(bi_at_ok(ks, bis, i));
                    }
                    assert forall|i: int| 0 <= i < self.bis().len() implies (#[trigger] self.bis()[i]).is_sure by {
                        assert(bi_at_ok(ks, bis, i));
                    }
                }
            }
        }
        let m = self.bi_list.len();
        self.last_end = if m > 0 {
            Some(self.bi_list[m - 1].end_klc)
        } else {
            None
        };
        proof {
            if !(n > 0 && !bis[n - 1].is_sure) {
                assert forall|i: int| 0 <= i < self.bis().len() implies (#[trigger] self.bis()[i]).is_sure by {
                    assert(bi_at_ok(ks, bis, i));
                }
            }
        }
    }
}


/// The first K-line kept for a first stroke, from position `from` on, that is
/// the opposite fractal of `klc` and may start a stroke ending at `klc`.
pub open spec fn spec_first_maker(
    ks: Seq<KLineView>,
    units: Seq<CKLineUnit>,
    cfg: CBiConfig,
    free: Seq<usize>,
    klc: int,
    from: int,
) -> Option<int>
    decreases free.len() - from,
{
    if from < 0 || from >= free.len() {
        None
    } else if ks[free[from] as int].fx != ks[klc].fx && spec_can_make_bi(ks, units, cfg, klc, free[from] as int, false) {
        Some(from)
    } else {
        spec_first_maker(ks, units, cfg, free, klc, from + 1)
    }
}

pub proof fn lemma_first_maker_range(
    ks: Seq<KLineView>,
    units: Seq<CKLineUnit>,
    cfg: CBiConfig,
    free: Seq<usize>,
    klc: int,
    from: int,
)
    ensures
        spec_first_maker(ks, units, cfg, free, klc, from) matches Some(i) ==> from <= i < free.len(),
    decreases free.len() - from,
{
    if 0 <= from < free.len() {
        lemma_first_maker_range(ks, units, cfg, free, klc, from + 1);
    }
}

/// The bar at which the last stroke ends, if any.
pub open spec fn spec_last_klu(ks: Seq<KLineView>, units: Seq<CKLineUnit>, bis: Seq<BiView>) -> Option<usize> {
    if bis.len() == 0 {
        None
    } else {
        Some(spec_end_klu(ks, units, bis[bis.len() - 1]))
    }
}

pub proof fn lemma_refs_mono(bis: Seq<BiView>, free: Seq<usize>, c: int, c2: int)
    requires
        refs_before(bis, free, c),
        c <= c2,
    ensures
        refs_before(bis, free, c2),
{
}

pub proof fn lemma_refs_deleted(ks: Seq<KLineView>, bis: Seq<BiView>, free: Seq<usize>, c: int)
    requires
        refs_before(bis, free, c),
    ensures
        refs_before(spec_deleted_bis(ks, bis), free, c),
{
    let d = spec_deleted_bis(ks, bis);
    let n = bis.len();
    if n > 0 && !bis[n - 1].is_sure && bis[n - 1].sure_end.len() > 0 {
        let e = bis[n - 1].sure_end;
        assert forall|i: int| 0 <= i < d.len() implies (#[trigger] d[i]).begin_klc < c by {
            if i < n {
                assert(bis[i].begin_klc < c);
            } else {
                assert(e[i - n] < c);
            }
        }
        assert forall|i: int| 0 <= i < d.len() && d[i].is_sure implies (#[trigger] d[i]).end_klc < c by {
            if i < n - 1 {
                assert(bis[i].end_klc < c);
            } else if i == n - 1 {
                assert(e[0] < c);
            } else {
                assert(e[i - n + 1] < c);
            }
        }
        assert forall|i: int, k: int| 0 <= i < d.len() && 0 <= k < d[i].sure_end.len() implies #[trigger] d[i].sure_end[k] < c by {
            assert(i < n - 1);
            assert(bis[i].sure_end[k] < c);
        }
    } else if n > 0 && !bis[n - 1].is_sure {
        assert forall|i: int| 0 <= i < d.len() implies (#[trigger] d[i]).begin_klc < c by {
            assert(bis[i].begin_klc < c);
        }
        assert forall|i: int| 0 <= i < d.len() && d[i].is_sure implies (#[trigger] d[i]).end_klc < c by {
            assert(bis[i].end_klc < c);
        }
        assert forall|i: int, k: int| 0 <= i < d.len() && 0 <= k < d[i].sure_end.len() implies #[trigger] d[i].sure_end[k] < c by {
            assert(bis[i].sure_end[k] < c);
        }
    }
}

impl CBiList {
    /// Looks among the K-lines kept so far for one that can start a first
    /// stroke ending at `klc` (see `spec_first_maker`); keeps `klc` otherwise.
    pub fn try_create_first_bi(&mut self, klc: usize, kl: &CKLineList) -> (r: bool)
        requires
            old(self).wf(kl),
            old(self).bis().len() == 0,
            klc < kl.klcs().len(),
            kl.klcs()[klc as int].fx != FX_TYPE::UNKNOWN,
            forall|i: int| 0 <= i < old(self).free_klc_lst@.len() ==> #[trigger] old(self).free_klc_lst@[i] < klc,
        ensures
            final(self).wf_sure(kl),
            final(self).last_end == Some(klc),
            final(self).config == old(self).config,
            ({
                let ks = kl.klcs();
                let free = old(self).free_klc_lst@;
                let m = spec_first_maker(ks, kl.units@, old(self).config, free, klc as int, 0);
                &&& m is Some ==> r && final(self).bis() == seq![spec_new_bi(ks, 0, free[m->0] as int, klc as int, true)]
                    && final(self).free_klc_lst@ == free
                &&& m is None ==> !r && final(self).bis().len() == 0 && final(self).free_klc_lst@ == free.push(klc)
            }),
    {
        let ghost ks = kl.klcs();
        let ghost free = self.free_klc_lst@;
        proof {
            lemma_fx_inner(ks, kl.units@, klc as int);
        }
        let mut i: usize = 0;
        while i < self.free_klc_lst.len()
            invariant
                self.wf(kl),
                ks == kl.klcs(),
                self.bis().len() == 0,
                self.free_klc_lst@ == free,
                free == old(self).free_klc_lst@,
                self.config == old(self).config,
                i <= free.len(),
                klc < ks.len(),
                1 <= klc,
                klc + 1 < ks.len(),
                ks[klc as int].fx != FX_TYPE::UNKNOWN,
                forall|x: int| 0 <= x < free.len() ==> #[trigger] free[x] < klc,
                spec_first_maker(ks, kl.units@, self.config, free, klc as int, 0)
                    == spec_first_maker(ks, kl.units@, self.config, free, klc as int, i as int),
            decreases free.len() - i,
        {
            let f = self.free_klc_lst[i];
            proof {
                assert(bis_wf(ks, self.bis(), free));
                assert(f < ks.len() && ks[f as int].fx != FX_TYPE::UNKNOWN);
                lemma_fx_inner(ks, kl.units@, f as int);
            }
            if kl.lst[f].fx != kl.lst[klc].fx {
                if self.can_make_bi(klc, f, false, kl) {
                    proof {
                        lemma_fx_valid_gives_check(ks, kl.units@, f as int, klc as int, self.config.bi_fx_check, false);
                    }
                    self.add_new_bi(f, klc, true, kl);
                    self.last_end = Some(klc);
                    proof {
                        assert(self.bis() =~= seq![spec_new_bi(ks, 0, free[i as int] as int, klc as int, true)]);
                        assert(spec_first_maker(ks, kl.units@, self.config, free, klc as int, i as int) == Some(i as int));
                        assert(spec_first_maker(ks, kl.units@, old(self).config, free, klc as int, 0) == Some(i as int));
                        assert(self.free_klc_lst@ == free);
                    }
                    return true;
                }
            }
            i = i + 1;
        }
        self.free_klc_lst.push(klc);
        self.last_end = Some(klc);
        proof {
            assert forall|x: int| 0 <= x < self.free_klc_lst@.len() implies #[trigger] self.free_klc_lst@[x] < ks.len()
                && ks[self.free_klc_lst@[x] as int].fx != FX_TYPE::UNKNOWN by {
                if x < free.len() {
                    assert(bis_wf(ks, old(self).bis(), free));
                    assert(free[x] < ks.len());
                }
            }
        }
        false
    }

    /// Drops the last stroke when the one before can extend to `klc`
    /// instead (see `spec_can_update_peak`); provisionally with `for_virtual`,
    /// remembering the dropped stroke's end.
    pub fn update_peak(&mut self, klc: usize, for_virtual: bool, kl: &CKLineList) -> (r: bool)
        requires
            old(self).wf_sure(kl),
            klc < kl.klcs().len(),
            old(self).bis().len() > 0 ==> old(self).bis()[old(self).bis().len() - 1].end_klc < klc,
        ensures
            final(self).wf(kl),
            final(self).config == old(self).config,
            final(self).free_klc_lst@ == old(self).free_klc_lst@,
            ({
                let ks = kl.klcs();
                let bis = old(self).bis();
                let n = bis.len();
                &&& r == (spec_can_update_peak(ks, old(self).config, bis, klc as int) && spec_end_update_ok(ks, bis[n - 2], klc as int, for_virtual))
                &&& r && !for_virtual ==> final(self).bis() == bis.drop_last().update(n - 2, spec_moved_end(bis[n - 2], klc as int, false))
                &&& r && for_virtual ==> final(self).bis() == bis.drop_last().update(
                    n - 2,
                    BiView { sure_end: seq![bis[n - 2].end_klc, bis[n - 1].end_klc], ..spec_moved_end(bis[n - 2], klc as int, true) },
                )
                &&& r ==> final(self).last_end == Some(klc)
                &&& !r ==> final(self).bis() == bis && final(self).last_end == old(self).last_end
                &&& r && !for_virtual ==> final(self).wf_sure(kl)
            }),
    {
        proof {
            let ks = kl.klcs();
            assert forall|i: int| 0 <= i < self.bis().len() implies (#[trigger] self.bis()[i]).end_klc < ks.len() by {
                assert(bi_at_ok(ks, self.bis(), i));
            }
        }
        if !self.can_update_peak(klc, kl) {
            return false;
        }
        let ghost ks = kl.klcs();
        let ghost bis = self.bis();
        let ghost old_last_end = self.last_end;
        let n = self.bi_list.len();
        let tmp_last_bi = self.bi_list.pop().unwrap();
        proof {
            assert(tmp_last_bi@ == bis[n - 1]);
            assert(self.bis() =~= bis.drop_last());
            assert(bi_at_ok(ks, bis, n - 1));
            assert(bi_at_ok(ks, bis, n - 2));
            assert forall|i: int| 0 <= i < self.bis().len() implies #[trigger] bi_at_ok(ks, self.bis(), i) by {
                assert(bi_at_ok(ks, bis, i));
            }
        }
        let ghost mid = self.bis();
        if !self.try_update_end(klc, for_virtual, kl) {
            let ghost mid2 = self.bi_list@;
            assert(mid2.map_values(|b: CBi| b@) == mid);
            self.bi_list.push(tmp_last_bi);
            proof {
                assert(self.bi_list@ == mid2.push(tmp_last_bi));
                assert forall|k: int| 0 <= k < n implies #[trigger] self.bis()[k] == bis[k] by {
                    if k < n - 1 {
                        assert(self.bi_list@[k] == mid2[k]);
                        assert(mid[k] == bis[k]);
                    }
                }
                assert(self.bis() =~= bis);
            }
            false
        } else {
            if for_virtual {
                let ghost after = self.bis();
                let mut b = self.bi_list.pop().unwrap();
                proof {
                    assert(after == mid.update(n - 2, spec_moved_end(mid[n - 2], klc as int, true)));
                    assert(b@ == after[n - 2]);
                    assert(mid[n - 2] == bis[n - 2]);
                }
                b.append_sure_end(tmp_last_bi.end_klc);
                self.bi_list.push(b);
                proof {
                    assert(sure_bi_ok(ks, bis[n - 2]));
                    assert(b@.sure_end =~= seq![bis[n - 2].end_klc, bis[n - 1].end_klc]);
                    let nb = BiView { sure_end: seq![bis[n - 2].end_klc, bis[n - 1].end_klc], ..spec_moved_end(bis[n - 2], klc as int, true) };
                    assert(b@ == nb);
                    assert(self.bis() =~= after.update(n - 2, nb));
                    assert(mid =~= bis.drop_last());
                    assert(self.bis() =~= bis.drop_last().update(n - 2, nb));
                    assert forall|i: int| 0 <= i < self.bis().len() implies #[trigger] bi_at_ok(ks, self.bis(), i) by {
                        assert(bi_at_ok(ks, bis, i));
                        if i == n - 2 {
                            assert(chain_link_ok(ks, nb.begin_klc as int, nb.sure_end, 0));
                            assert(chain_link_ok(ks, nb.begin_klc as int, nb.sure_end, 1));
                        }
                    }
                }
            } else {
                proof {
                    assert forall|i: int| 0 <= i < self.bis().len() implies (#[trigger] self.bis()[i]).is_sure by {
                        assert(bi_at_ok(ks, bis, i));
                    }
                }
            }
            true
        }
    }
}


/// Scanning K-lines k, k-1, ... down to just after `e` (the end of the last
/// stroke) for the first one that either can end a provisional new stroke
/// from `e` (`Some((k, true))`) or lets the stroke before the last extend to
/// it provisionally (`Some((k, false))`).
pub open spec fn spec_virtual_scan(
    ks: Seq<KLineView>,
    units: Seq<CKLineUnit>,
    cfg: CBiConfig,
    bis: Seq<BiView>,
    e: int,
    k: int,
) -> Option<(int, bool)>
    decreases k,
{
    if k <= e || k <= 0 {
        None
    } else if spec_can_make_bi(ks, units, cfg, k, e, true) {
        Some((k, true))
    } else if spec_can_update_peak(ks, cfg, bis, k) && spec_end_update_ok(ks, bis[bis.len() - 2], k, true) {
        Some((k, false))
    } else {
        spec_virtual_scan(ks, units, cfg, bis, e, k - 1)
    }
}

/// Whether the last stroke is extended provisionally to `klc`: it goes
/// beyond the last stroke's end the same way.
pub open spec fn spec_virtual_extends(ks: Seq<KLineView>, last: BiView, klc: int) -> bool {
    ||| last.dir == BI_DIR::UP && ks[klc].high >= ks[last.end_klc as int].high
    ||| last.dir == BI_DIR::DOWN && ks[klc].low <= ks[last.end_klc as int].low
}

/// The strokes after a provisional one is added for K-line `klc` on top of
/// sure strokes `bis`, and whether one was added.
pub open spec fn spec_virtual_outcome(
    ks: Seq<KLineView>,
    units: Seq<CKLineUnit>,
    cfg: CBiConfig,
    bis: Seq<BiView>,
    klc: int,
) -> (Seq<BiView>, bool) {
    let n = bis.len();
    let last = bis[n - 1];
    let e = last.end_klc as int;
    if n == 0 || klc == e {
        (bis, false)
    } else if spec_virtual_extends(ks, last, klc) {
        (bis.update(n - 1, spec_moved_end(last, klc, true)), true)
    } else {
        match spec_virtual_scan(ks, units, cfg, bis, e, klc) {
            Some((k, true)) => (bis.push(spec_new_bi(ks, n as int, e, k, false)), true),
            Some((k, false)) => (
                bis.drop_last().update(
                    n - 2,
                    BiView { sure_end: seq![bis[n - 2].end_klc, bis[n - 1].end_klc], ..spec_moved_end(bis[n - 2], k, true) },
                ),
                true,
            ),
            None => (bis, false),
        }
    }
}

impl CBiList {
    /// Adds a provisional stroke ending at `klc` on top of the sure strokes
    /// (see `spec_virtual_outcome`), after undoing the previous provisional
    /// one when `need_del_end` is set.
    pub fn try_add_virtual_bi(&mut self, klc: usize, need_del_end: bool, kl: &CKLineList) -> (r: bool)
        requires
            old(self).wf(kl),
            klc < kl.klcs().len(),
            !need_del_end && old(self).bis().len() > 0 && klc != old(self).bis().last().end_klc
                ==> old(self).wf_sure(kl),
        ensures
            final(self).wf(kl),
            final(self).config == old(self).config,
            final(self).free_klc_lst@ == old(self).free_klc_lst@,
            ({
                let ks = kl.klcs();
                let d = if need_del_end { spec_deleted_bis(ks, old(self).bis()) } else { old(self).bis() };
                let out = spec_virtual_outcome(ks, kl.units@, old(self).config, d, klc as int);
                final(self).bis() == out.0 && r == out.1
            }),
            ({
                let d = if need_del_end { spec_deleted_bis(kl.klcs(), old(self).bis()) } else { old(self).bis() };
                let l1 = if !need_del_end { old(self).last_end } else if d.len() == 0 { None } else { Some(d.last().end_klc) };
                &&& final(self).bis().len() >= d.len() ==> final(self).last_end == l1
                &&& final(self).bis().len() < d.len() ==> final(self).last_end == Some(final(self).bis().last().end_klc)
            }),
            forall|c: int| refs_before(old(self).bis(), old(self).free_klc_lst@, c) ==> refs_before(final(self).bis(), final(self).free_klc_lst@, c),
    {
        let ghost ks = kl.klcs();
        if need_del_end {
            self.delete_virtual_bi(kl);
            proof {
                assert forall|c: int| refs_before(old(self).bis(), old(self).free_klc_lst@, c) implies refs_before(self.bis(), self.free_klc_lst@, c) by {
                    lemma_refs_deleted(ks, old(self).bis(), old(self).free_klc_lst@, c);
                }
            }
        }
        let ghost d = self.bis();
        let ghost d_le = self.last_end;
        let ghost d_free = self.free_klc_lst@;
        assert(d == (if need_del_end { spec_deleted_bis(ks, old(self).bis()) } else { old(self).bis() }));
        let n = self.bi_list.len();
        if n == 0 {
            return false;
        }
        let e = self.bi_list[n - 1].end_klc;
        if klc == e {
            return false;
        }
        proof {
            assert(d.last() == d[n - 1]);
            assert(self.wf_sure(kl));
            assert(bi_at_ok(ks, d, n - 1));
            lemma_fx_inner(ks, kl.units@, d[n - 1].end_klc as int);
            lemma_bi_begin_count(ks, d, d_free, n - 1);
        }
        let _kn = kl.lst.len();
        let last_up = self.bi_list[n - 1].is_up();
        if (last_up && kl.lst[klc].high >= kl.lst[e].high) || (!last_up && kl.lst[klc].low <= kl.lst[e].low) {
            let mut b = self.bi_list.pop().unwrap();
            proof {
                assert(b@ == d[n - 1]);
            }
            b.update_virtual_end(klc, kl);
            self.bi_list.push(b);
            proof {
                let nb = spec_moved_end(d[n - 1], klc as int, true);
                assert(self.bis() =~= d.update(n - 1, nb));
                assert forall|i: int| 0 <= i < self.bis().len() implies #[trigger] bi_at_ok(ks, self.bis(), i) by {
                    assert(bi_at_ok(ks, d, i));
                    if i == n - 1 {
                        assert(chain_link_ok(ks, nb.begin_klc as int, nb.sure_end, 0));
                    }
                }
                assert forall|c: int| refs_before(d, d_free, c) implies refs_before(self.bis(), self.free_klc_lst@, c) by {
                    assert forall|i: int, k: int| 0 <= i < self.bis().len() && 0 <= k < self.bis()[i].sure_end.len() implies #[trigger] self.bis()[i].sure_end[k] < c by {
                        if i == n - 1 {
                            assert(d[n - 1].end_klc < c);
                        } else {
                            assert(d[i].sure_end[k] < c);
                        }
                    }
                    assert forall|i: int| 0 <= i < self.bis().len() implies (#[trigger] self.bis()[i]).begin_klc < c by {
                        assert(d[i].begin_klc < c);
                    }
                    assert forall|i: int| 0 <= i < self.bis().len() && self.bis()[i].is_sure implies (#[trigger] self.bis()[i]).end_klc < c by {
                        assert(d[i].end_klc < c);
                    }
                }
            }
            return true;
        }
        let mut k = klc;
        while k > e
            invariant
                ks == kl.klcs(),
                self.wf_sure(kl),
                self.bis() == d,
                self.last_end == d_le,
                self.free_klc_lst@ == d_free,
                d_free == old(self).free_klc_lst@,
                d == (if need_del_end { spec_deleted_bis(ks, old(self).bis()) } else { old(self).bis() }),
                self.config == old(self).config,
                d_le == Some(e),
                !need_del_end ==> d_le == old(self).last_end,
                klc != e,
                klc < ks.len(),
                !spec_virtual_extends(ks, d[n - 1], klc as int),
                n == d.len(),
                n > 0,
                e == d[n - 1].end_klc,
                1 <= e,
                e + 1 < ks.len(),
                k < ks.len(),
                d[n - 1].is_sure,
                ks[e as int].fx != FX_TYPE::UNKNOWN,
                n - 1 <= d[n - 1].begin_klc < e,
                _kn == ks.len(),
                spec_virtual_scan(ks, kl.units@, self.config, d, e as int, klc as int)
                    == spec_virtual_scan(ks, kl.units@, self.config, d, e as int, k as int),
            decreases k,
        {
            proof {
                assert(bi_at_ok(ks, d, n - 1));
            }
            if self.can_make_bi(k, e, true, kl) {
                proof {
                    lemma_fx_valid_gives_check(ks, kl.units@, e as int, k as int, self.config.bi_fx_check, true);
                }
                proof {
                    assert(spec_virtual_scan(ks, kl.units@, self.config, d, e as int, k as int) == Some((k as int, true)));
                }
                let le = match self.last_end {
                    Some(x) => x,
                    None => e,
                };
                self.add_new_bi(le, k, false, kl);
                proof {
                    assert(self.last_end == Some(e));
                    assert(d.last() == d[n - 1]);
                    assert forall|c: int| refs_before(d, d_free, c) implies refs_before(self.bis(), self.free_klc_lst@, c) by {
                        assert forall|i: int| 0 <= i < self.bis().len() implies (#[trigger] self.bis()[i]).begin_klc < c by {
                            if i < n {
                                assert(d[i].begin_klc < c);
                            } else {
                                assert(d[n - 1].end_klc < c);
                            }
                        }
                        assert forall|i: int| 0 <= i < self.bis().len() && self.bis()[i].is_sure implies (#[trigger] self.bis()[i]).end_klc < c by {
                            assert(d[i].end_klc < c);
                        }
                        assert forall|i: int, x: int| 0 <= i < self.bis().len() && 0 <= x < self.bis()[i].sure_end.len() implies #[trigger] self.bis()[i].sure_end[x] < c by {
                            assert(d[i].sure_end[x] < c);
                        }
                    }
                }
                return true;
            } else if self.update_peak(k, true, kl) {
                proof {
                    assert(spec_virtual_scan(ks, kl.units@, self.config, d, e as int, k as int) == Some((k as int, false)));
                    assert(self.bis().len() == n - 1);
                    assert(self.bis().last().end_klc == k);
                    assert(self.last_end == Some(k));
                    assert(self.bis().len() < d.len());
                    assert forall|c: int| refs_before(d, d_free, c) implies refs_before(self.bis(), self.free_klc_lst@, c) by {
                        assert forall|i: int| 0 <= i < self.bis().len() implies (#[trigger] self.bis()[i]).begin_klc < c by {
                            assert(d[i].begin_klc < c);
                        }
                        assert forall|i: int| 0 <= i < self.bis().len() && self.bis()[i].is_sure implies (#[trigger] self.bis()[i]).end_klc < c by {
                            assert(d[i].end_klc < c);
                        }
                        assert forall|i: int, x: int| 0 <= i < self.bis().len() && 0 <= x < self.bis()[i].sure_end.len() implies #[trigger] self.bis()[i].sure_end[x] < c by {
                            if i == n - 2 {
                                assert(d[n - 2].end_klc < c);
                                assert(d[n - 1].end_klc < c);
                            } else {
                                assert(d[i].sure_end[x] < c);
                            }
                        }
                    }
                }
                return true;
            }
            proof {
                assert forall|i: int| 0 <= i < self.bis().len() implies (#[trigger] self.bis()[i]).is_sure by {
                    assert(self.bis()[i] == d[i]);
                }
            }
            k = k - 1;
        }
        false
    }
}


/// What updating the sure strokes `bis` (with waiting fractals `free`)
/// with the newly settled K-line `klc` gives: the strokes, the waiting
/// fractals, and whether the sure strokes changed. The provisional stroke
/// is undone first; then, when `klc` is a fractal, a first stroke is
/// started, the last one extended, a stroke added, or the stroke before the
/// last extended.
pub open spec fn spec_sure_outcome(
    ks: Seq<KLineView>,
    units: Seq<CKLineUnit>,
    cfg: CBiConfig,
    bis: Seq<BiView>,
    free: Seq<usize>,
    klc: int,
) -> (Seq<BiView>, Seq<usize>, bool) {
    let d = spec_deleted_bis(ks, bis);
    let n = d.len();
    let tmp = spec_last_klu(ks, units, bis);
    let fxk = ks[klc].fx;
    let e = d[n - 1].end_klc as int;
    if fxk == FX_TYPE::UNKNOWN {
        (d, free, tmp != spec_last_klu(ks, units, d))
    } else if n == 0 {
        let m = spec_first_maker(ks, units, cfg, free, klc, 0);
        if m is Some {
            (seq![spec_new_bi(ks, 0, free[m->0] as int, klc, true)], free, true)
        } else {
            (Seq::empty(), free.push(klc as usize), false)
        }
    } else if fxk == ks[e].fx {
        let ok = spec_end_update_ok(ks, d[n - 1], klc, false);
        (if ok { d.update(n - 1, spec_moved_end(d[n - 1], klc, false)) } else { d }, free, ok)
    } else if spec_can_make_bi(ks, units, cfg, klc, e, false) {
        (d.push(spec_new_bi(ks, n as int, e, klc, true)), free, true)
    } else if spec_can_update_peak(ks, cfg, d, klc) && spec_end_update_ok(ks, d[n - 2], klc, false) {
        (d.drop_last().update(n - 2, spec_moved_end(d[n - 2], klc, false)), free, true)
    } else {
        (d, free, tmp != spec_last_klu(ks, units, d))
    }
}

impl CBiList {
    /// Updates the sure strokes with the newly settled K-line `klc`: undoes
    /// the provisional stroke, then, when `klc` is a fractal, starts a first
    /// stroke, extends the last one, adds a stroke, or extends the stroke
    /// before the last; returns whether the sure strokes changed.
    pub fn update_bi_sure(&mut self, klc: usize, kl: &CKLineList) -> (r: bool)
        requires
            old(self).wf(kl),
            klc < kl.klcs().len(),
            refs_before(old(self).bis(), old(self).free_klc_lst@, klc as int),
        ensures
            final(self).wf_sure(kl),
            final(self).config == old(self).config,
            refs_before(final(self).bis(), final(self).free_klc_lst@, klc + 1),
            ({
                let ks = kl.klcs();
                let units = kl.units@;
                let cfg = old(self).config;
                let bis = old(self).bis();
                let free = old(self).free_klc_lst@;
                let d = spec_deleted_bis(ks, bis);
                let n = d.len();
                let tmp = spec_last_klu(ks, units, bis);
                let fxk = ks[klc as int].fx;
                let e = d[n - 1].end_klc as int;
                if fxk == FX_TYPE::UNKNOWN {
                    final(self).bis() == d && final(self).free_klc_lst@ == free && r == (tmp != spec_last_klu(ks, units, d))
                } else if n == 0 {
                    let m = spec_first_maker(ks, units, cfg, free, klc as int, 0);
                    &&& m is Some ==> r && final(self).bis() == seq![spec_new_bi(ks, 0, free[m->0] as int, klc as int, true)]
                        && final(self).free_klc_lst@ == free
                    &&& m is None ==> !r && final(self).bis().len() == 0 && final(self).free_klc_lst@ == free.push(klc)
                } else if fxk == ks[e].fx {
                    &&& r == spec_end_update_ok(ks, d[n - 1], klc as int, false)
                    &&& final(self).bis() == (if r { d.update(n - 1, spec_moved_end(d[n - 1], klc as int, false)) } else { d })
                    &&& final(self).free_klc_lst@ == free
                } else if spec_can_make_bi(ks, units, cfg, klc as int, e, false) {
                    r && final(self).bis() == d.push(spec_new_bi(ks, n as int, e, klc as int, true))
                        && final(self).free_klc_lst@ == free
                } else if spec_can_update_peak(ks, cfg, d, klc as int) && spec_end_update_ok(ks, d[n - 2], klc as int, false) {
                    r && final(self).bis() == d.drop_last().update(n - 2, spec_moved_end(d[n - 2], klc as int, false))
                        && final(self).free_klc_lst@ == free
                } else {
                    final(self).bis() == d && final(self).free_klc_lst@ == free && r == (tmp != spec_last_klu(ks, units, d))
                }
            }),
            ({
                let o = spec_sure_outcome(kl.klcs(), kl.units@, old(self).config, old(self).bis(), old(self).free_klc_lst@, klc as int);
                final(self).bis() == o.0 && final(self).free_klc_lst@ == o.1 && r == o.2
            }),
    {
        let ghost ks = kl.klcs();
        let ghost bis = self.bis();
        let ghost free = self.free_klc_lst@;
        proof {
            let n0 = bis.len();
            if n0 > 0 {
                assert(bi_at_ok(ks, bis, n0 - 1));
            }
        }
        let tmp_end = self.get_last_klu_of_last_bi(kl);
        self.delete_virtual_bi(kl);
        proof {
            lemma_refs_deleted(ks, bis, free, klc as int);
        }
        let ghost d = self.bis();
        let n = self.bi_list.len();
        proof {
            if n > 0 {
                assert(bi_at_ok(ks, d, n - 1));
            }
            lemma_refs_mono(d, free, klc as int, klc + 1);
        }
        if kl.lst[klc].fx == FX_TYPE::UNKNOWN {
            let now = self.get_last_klu_of_last_bi(kl);
            return !option_usize_eq(tmp_end, now);
        }
        proof {
            lemma_fx_inner(ks, kl.units@, klc as int);
        }
        if self.last_end.is_none() || n == 0 {
            proof {
                assert forall|i: int| 0 <= i < self.free_klc_lst@.len() implies #[trigger] self.free_klc_lst@[i] < klc by {
                    assert(free[i] < klc);
                }
            }
            let r = self.try_create_first_bi(klc, kl);
            proof {
                assert forall|i: int| 0 <= i < self.free_klc_lst@.len() implies #[trigger] self.free_klc_lst@[i] < klc + 1 by {
                    if i < free.len() {
                        assert(free[i] < klc);
                    }
                }
                if r {
                    let m = spec_first_maker(ks, kl.units@, self.config, free, klc as int, 0);
                    lemma_first_maker_range(ks, kl.units@, self.config, free, klc as int, 0);
                    assert(free[m->0] < klc);
                    assert(self.bis()[0].begin_klc < klc);
                }
            }
            return r;
        }
        let e = self.bi_list[n - 1].end_klc;
        proof {
            assert(e < klc);
            lemma_fx_inner(ks, kl.units@, e as int);
            lemma_bi_begin_count(ks, d, free, n - 1);
        }
        if kl.lst[klc].fx == kl.lst[e].fx {
            let r = self.try_update_end(klc, false, kl);
            proof {
                assert forall|i: int| 0 <= i < self.bis().len() implies (#[trigger] self.bis()[i]).is_sure by {
                    assert(bi_at_ok(ks, self.bis(), i));
                }
                lemma_refs_after_end_move(d, free, n - 1, klc as int, klc + 1);
            }
            return r;
        }
        if self.can_make_bi(klc, e, false, kl) {
            proof {
                lemma_fx_valid_gives_check(ks, kl.units@, e as int, klc as int, self.config.bi_fx_check, false);
            }
            self.add_new_bi(e, klc, true, kl);
            self.last_end = Some(klc);
            proof {
                assert forall|i: int| 0 <= i < self.bis().len() implies (#[trigger] self.bis()[i]).is_sure by {
                    assert(bi_at_ok(ks, self.bis(), i));
                }
                assert forall|i: int| 0 <= i < self.bis().len() implies (#[trigger] self.bis()[i]).begin_klc < klc + 1 by {
                    if i < n {
                        assert(d[i].begin_klc < klc + 1);
                    }
                }
                assert forall|i: int| 0 <= i < self.bis().len() && self.bis()[i].is_sure implies (#[trigger] self.bis()[i]).end_klc < klc + 1 by {
                    if i < n {
                        assert(d[i].end_klc < klc + 1);
                    }
                }
                assert forall|i: int, x: int| 0 <= i < self.bis().len() && 0 <= x < self.bis()[i].sure_end.len() implies #[trigger] self.bis()[i].sure_end[x] < klc + 1 by {
                    assert(d[i].sure_end[x] < klc + 1);
                }
            }
            return true;
        }
        if self.update_peak(klc, false, kl) {
            proof {
                lemma_refs_after_end_move(d.drop_last(), free, n - 2, klc as int, klc + 1);
            }
            return true;
        }
        let now = self.get_last_klu_of_last_bi(kl);
        !option_usize_eq(tmp_end, now)
    }

    /// Updates the strokes after K-line `klc` is settled and, with
    /// `cal_virtual`, adds a provisional stroke ending at the latest K-line
    /// `last_klc`; returns whether anything changed.
    pub fn update_bi(&mut self, klc: usize, last_klc: usize, cal_virtual: bool, kl: &CKLineList) -> (r: bool)
        requires
            old(self).wf(kl),
            klc < kl.klcs().len(),
            last_klc < kl.klcs().len(),
            refs_before(old(self).bis(), old(self).free_klc_lst@, klc as int),
        ensures
            final(self).wf(kl),
            final(self).config == old(self).config,
            refs_before(final(self).bis(), final(self).free_klc_lst@, klc + 1),
            !cal_virtual ==> final(self).wf_sure(kl),
            ({
                let ks = kl.klcs();
                let units = kl.units@;
                let cfg = old(self).config;
                let s = spec_sure_outcome(ks, units, cfg, old(self).bis(), old(self).free_klc_lst@, klc as int);
                &&& final(self).free_klc_lst@ == s.1
                &&& !cal_virtual ==> final(self).bis() == s.0 && r == s.2
                &&& cal_virtual ==> {
                    let v = spec_virtual_outcome(ks, units, cfg, s.0, last_klc as int);
                    final(self).bis() == v.0 && r == (s.2 || v.1)
                }
            }),
    {
        let flag1 = self.update_bi_sure(klc, kl);
        if cal_virtual {
            let flag2 = self.try_add_virtual_bi(last_klc, false, kl);
            flag1 || flag2
        } else {
            flag1
        }
    }
}

/// Whether two optional bar indices are the same.
fn option_usize_eq(a: Option<usize>, b: Option<usize>) -> (r: bool)
    ensures
        r == (a == b),
{
    match (a, b) {
        (None, None) => true,
        (Some(x), Some(y)) => x == y,
        _ => false,
    }
}

/// Moving the end of stroke `j` (and dropping the strokes after it) to a
/// K-line before `c` keeps every reference before `c`.
pub proof fn lemma_refs_after_end_move(bis: Seq<BiView>, free: Seq<usize>, j: int, klc: int, c: int)
    requires
        refs_before(bis, free, c),
        0 <= j < bis.len(),
        0 <= klc < c,
    ensures
        forall|b2: Seq<BiView>| #![trigger refs_before(b2, free, c)]
            b2.len() == j + 1 && (forall|i: int| 0 <= i < j ==> b2[i] == bis[i]) && b2[j] == spec_moved_end(bis[j], klc, false)
            ==> refs_before(b2, free, c),
{
    assert forall|b2: Seq<BiView>| #![trigger refs_before(b2, free, c)]
        b2.len() == j + 1 && (forall|i: int| 0 <= i < j ==> b2[i] == bis[i]) && b2[j] == spec_moved_end(bis[j], klc, false)
        implies refs_before(b2, free, c) by {
        assert forall|i: int| 0 <= i < b2.len() implies (#[trigger] b2[i]).begin_klc < c by {
            assert(bis[i].begin_klc < c);
        }
        assert forall|i: int| 0 <= i < b2.len() && b2[i].is_sure implies (#[trigger] b2[i]).end_klc < c by {
            if i < j {
                assert(bis[i].end_klc < c);
            }
        }
        assert forall|i: int, x: int| 0 <= i < b2.len() && 0 <= x < b2[i].sure_end.len() implies #[trigger] b2[i].sure_end[x] < c by {
            assert(bis[i].sure_end[x] < c);
        }
    }
}


/// The strokes stay well formed when the K-lines grow, as long as every sure
/// reference lies before the K-lines that changed.
pub proof fn lemma_bis_wf_stable(ks: Seq<KLineView>, ks2: Seq<KLineView>, bis: Seq<BiView>, free: Seq<usize>, c: int)
    requires
        bis_wf(ks, bis, free),
        refs_before(bis, free, c),
        ks.len() <= ks2.len(),
        c <= ks.len(),
        forall|i: int| 0 <= i < c ==> #[trigger] ks2[i] == ks[i],
    ensures
        bis_wf(ks2, bis, free),
{
    assert forall|i: int| 0 <= i < bis.len() implies #[trigger] bi_at_ok(ks2, bis, i) by {
        assert(bi_at_ok(ks, bis, i));
        let b = bis[i];
        assert(b.begin_klc < c);
        assert(ks2[b.begin_klc as int] == ks[b.begin_klc as int]);
        if b.is_sure {
            assert(b.end_klc < c);
            assert(ks2[b.end_klc as int] == ks[b.end_klc as int]);
        } else {
            assert forall|k: int| 0 <= k < b.sure_end.len() implies #[trigger] chain_link_ok(ks2, b.begin_klc as int, b.sure_end, k) by {
                assert(chain_link_ok(ks, b.begin_klc as int, b.sure_end, k));
                assert(b.sure_end[k] < c);
                if k > 0 {
                    assert(b.sure_end[k - 1] < c);
                }
                let p = chain_prev(b.begin_klc as int, b.sure_end, k);
                assert(ks2[p] == ks[p]);
                assert(ks2[b.sure_end[k] as int] == ks[b.sure_end[k] as int]);
            }
        }
    }
    assert forall|i: int| 0 <= i < free.len() implies #[trigger] free[i] < ks2.len() && ks2[free[i] as int].fx != FX_TYPE::UNKNOWN by {
        assert(free[i] < c);
        assert(ks2[free[i] as int] == ks[free[i] as int]);
    }
}

/// A list of strokes read by position.
pub trait BiListTrait {
    type Item;

    /// The items, in order.
    spec fn spec_items(&self) -> Seq<Self::Item>;

    /// The item at `index`, if there is one.
    fn get(&self, index: usize) -> (r: Option<&Self::Item>)
        ensures
            r is Some <==> index < self.spec_items().len(),
            r matches Some(b) ==> *b == self.spec_items()[index as int],
    ;

    /// All the items, in order.
    fn items(&self) -> (r: &[Self::Item])
        ensures
            r@ == self.spec_items(),
    ;
}

impl BiListTrait for CBiList {
    type Item = CBi;

    open spec fn spec_items(&self) -> Seq<CBi> {
        self.bi_list@
    }

    fn get(&self, index: usize) -> (r: Option<&CBi>) {
        if index < self.bi_list.len() {
            Some(&self.bi_list[index])
        } else {
            None
        }
    }

    fn items(&self) -> (r: &[CBi]) {
        self.bi_list.as_slice()
    }
}

} // verus!

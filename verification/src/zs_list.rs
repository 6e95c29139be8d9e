use vstd::prelude::*;
use crate::enums::{BI_DIR, ZsAlgo};
use crate::func_util::revert_bi_dir;
use crate::line::{lines_wf, CLine};
use crate::seg::CSeg;
use crate::seg_list::{indices_below, seg_ok, segs_wf, CSegListChan};
use crate::zs::{spec_can_combine_v, spec_max_low, spec_min_high, spec_zs_combined, spec_zs_extended, spec_zs_of, ZsView, CZS};
use crate::zs_config::CZsConfig;

verus! {

/// A pivot lies inside the lines: it starts at a line after the first and
/// ends at a line, and its lines in and out are lines too.
pub open spec fn zs_fits(z: CZS, n: int) -> bool {
    &&& z.begin_bi matches Some(b) && 1 <= b < n
    &&& z.end_bi matches Some(e) && e < n
    &&& z.end is Some
    &&& (z.bi_in matches Some(x) ==> x < n)
    &&& (z.bi_out matches Some(x) ==> x < n)
    &&& forall|k: int| 0 <= k < z.bi_lst@.len() ==> #[trigger] z.bi_lst@[k] < n
    &&& z.peak_low <= z.low && z.high <= z.peak_high
}

/// The waiting lines are lines, in increasing order.
pub open spec fn free_ok(free: Seq<usize>, n: int) -> bool {
    &&& forall|k: int| 0 <= k < free.len() ==> #[trigger] free[k] < n
    &&& forall|k: int, l: int| 0 <= k < l < free.len() ==> #[trigger] free[k] < #[trigger] free[l]
}

/// The lines at the given indices.
pub open spec fn lines_at(lines: Seq<CLine>, idxs: Seq<usize>) -> Seq<CLine> {
    Seq::new(idxs.len(), |k: int| lines[idxs[k] as int])
}

/// The line has a segment it belongs to among `segs`.
pub open spec fn has_parent(lines: Seq<CLine>, segs: Seq<CSeg>, x: int) -> bool {
    lines[x].seg_idx matches Some(s) && s < segs.len()
}

/// The waiting lines a pivot is tried from: the last two (or all, when one
/// line may make a pivot); by segment-crossing, the last three, less the
/// first if it runs the way of its own segment; otherwise all.
pub open spec fn spec_zs_select(
    lst: Seq<usize>,
    algo: ZsAlgo,
    one_bi_zs: bool,
    lines: Seq<CLine>,
    segs: Seq<CSeg>,
) -> Option<Seq<usize>> {
    match algo {
        ZsAlgo::Normal => if !one_bi_zs {
            if lst.len() == 1 { None } else { Some(lst.subrange(lst.len() - 2, lst.len() as int)) }
        } else {
            Some(lst)
        },
        ZsAlgo::OverSeg => if lst.len() < 3 {
            None
        } else {
            let l3 = lst.subrange(lst.len() - 3, lst.len() as int);
            let first = lines[l3[0] as int];
            if first.dir == segs[first.seg_idx->0 as int].dir { Some(l3.subrange(1, 3)) } else { Some(l3) }
        },
        ZsAlgo::Auto => Some(lst),
    }
}

/// The values of the pivots.
pub open spec fn zvs(zs: Seq<CZS>) -> Seq<ZsView> {
    zs.map_values(|z: CZS| z.zv())
}

/// The line reaches into the pivot's range.
pub open spec fn spec_in_range_v(z: ZsView, item: CLine) -> bool {
    crate::func_util::spec_has_overlap(z.low as int, z.high as int, item.low as int, item.high as int, false)
}

/// Merging the last pivot into the one before while they combine, when
/// pivots are to be combined.
pub open spec fn spec_zs_combine_all(zs: Seq<ZsView>, cfg: CZsConfig, lines: Seq<CLine>) -> Seq<ZsView>
    decreases zs.len(),
{
    if !cfg.need_combine || zs.len() < 2 {
        zs
    } else {
        let a = zs[zs.len() - 2];
        let b = zs.last();
        if spec_can_combine_v(a, b, cfg.zs_combine_mode, lines) {
            spec_zs_combine_all(zs.drop_last().drop_last().push(spec_zs_combined(a, b)), cfg, lines)
        } else {
            zs
        }
    }
}

/// Adding line `item` to the waiting lines (in place of the last if it is
/// the same line) and trying a pivot of them: one that starts after the
/// first line is kept, the waiting lines dropped and the pivots combined.
pub open spec fn spec_zs_add_free(
    st: (Seq<ZsView>, Seq<usize>),
    item: usize,
    is_sure: bool,
    algo: ZsAlgo,
    cfg: CZsConfig,
    lines: Seq<CLine>,
    segs: Seq<CSeg>,
) -> (Seq<ZsView>, Seq<usize>) {
    let free = st.1;
    let kept = if free.len() > 0 && free.last() == item { free.drop_last() } else { free };
    let f = kept.push(item);
    let sel = spec_zs_select(f, algo, cfg.one_bi_zs, lines, segs);
    if sel is Some && spec_min_high(lines_at(lines, sel->0), sel->0.len() as int) > spec_max_low(
        lines_at(lines, sel->0),
        sel->0.len() as int,
    ) {
        let z = spec_zs_of(lines_at(lines, sel->0), is_sure);
        if z.begin_bi->0 > 0 {
            (spec_zs_combine_all(st.0.push(z), cfg, lines), Seq::empty())
        } else {
            (st.0, f)
        }
    } else {
        (st.0, f)
    }
}

/// Feeding line `bi`: with nothing waiting it extends the last pivot when
/// it reaches into its range (then pivots are combined); otherwise it waits.
pub open spec fn spec_zs_update(
    st: (Seq<ZsView>, Seq<usize>),
    bi: usize,
    is_sure: bool,
    cfg: CZsConfig,
    lines: Seq<CLine>,
    segs: Seq<CSeg>,
) -> (Seq<ZsView>, Seq<usize>) {
    let zs = st.0;
    if st.1.len() == 0 && zs.len() > 0 && spec_in_range_v(zs.last(), lines[bi as int]) {
        let ext = zs.update(zs.len() - 1, spec_zs_extended(zs.last(), lines[bi as int], lines));
        (spec_zs_combine_all(ext, cfg, lines), st.1)
    } else {
        spec_zs_add_free(st, bi, is_sure, ZsAlgo::Normal, cfg, lines, segs)
    }
}

/// Feeding lines `i..hi` that run against the segment's way: the first
/// waits, the others are fed.
pub open spec fn spec_zs_feed_range(
    st: (Seq<ZsView>, Seq<usize>),
    i: int,
    hi: int,
    cnt: int,
    seg_dir: BI_DIR,
    seg_is_sure: bool,
    cfg: CZsConfig,
    lines: Seq<CLine>,
    segs: Seq<CSeg>,
) -> (Seq<ZsView>, Seq<usize>)
    decreases hi - i,
{
    if i >= hi || i < 0 {
        st
    } else if lines[i].dir == seg_dir {
        spec_zs_feed_range(st, i + 1, hi, cnt, seg_dir, seg_is_sure, cfg, lines, segs)
    } else if cnt < 1 {
        spec_zs_feed_range(
            spec_zs_add_free(st, i as usize, seg_is_sure, ZsAlgo::Normal, cfg, lines, segs),
            i + 1,
            hi,
            cnt + 1,
            seg_dir,
            seg_is_sure,
            cfg,
            lines,
            segs,
        )
    } else {
        spec_zs_feed_range(
            spec_zs_update(st, i as usize, seg_is_sure, cfg, lines, segs),
            i + 1,
            hi,
            cnt,
            seg_dir,
            seg_is_sure,
            cfg,
            lines,
            segs,
        )
    }
}

/// Feeding line `bi` across segments: with nothing waiting, a line right
/// after the last pivot extends it when the next line reaches into its
/// range, and is passed over when it reaches into it itself; otherwise it
/// waits.
pub open spec fn spec_overseg_update(
    st: (Seq<ZsView>, Seq<usize>),
    bi: usize,
    cfg: CZsConfig,
    lines: Seq<CLine>,
    segs: Seq<CSeg>,
) -> (Seq<ZsView>, Seq<usize>) {
    let zs = st.0;
    let n = lines.len();
    let idle = zs.len() > 0 && st.1.len() == 0;
    let last = zs.last();
    let le = last.end_bi->0;
    if idle && bi + 1 >= n {
        st
    } else if idle && bi >= le && bi - le <= 1 && spec_in_range_v(last, lines[bi + 1]) && spec_in_range_v(last, lines[bi as int]) {
        (zs.update(zs.len() - 1, spec_zs_extended(last, lines[bi as int], lines)), st.1)
    } else if idle && spec_in_range_v(last, lines[bi as int]) && bi >= le && bi - le <= 1 {
        st
    } else {
        spec_zs_add_free(st, bi, lines[bi as int].is_sure, ZsAlgo::Normal, cfg, lines, segs)
    }
}

/// Feeding every line from `b` on across segments.
pub open spec fn spec_overseg_from(
    st: (Seq<ZsView>, Seq<usize>),
    b: int,
    cfg: CZsConfig,
    lines: Seq<CLine>,
    segs: Seq<CSeg>,
) -> (Seq<ZsView>, Seq<usize>)
    decreases lines.len() - b,
{
    if b < 0 || b >= lines.len() {
        st
    } else {
        spec_overseg_from(spec_overseg_update(st, b as usize, cfg, lines, segs), b + 1, cfg, lines, segs)
    }
}

/// The pivots kept for a new pass: those that start before where the last
/// sure segment started (none when there was none).
pub open spec fn spec_zs_keep(zs: Seq<ZsView>, pos: Option<usize>) -> Seq<ZsView>
    decreases zs.len(),
{
    if zs.len() == 0 {
        zs
    } else {
        let drop = match pos {
            Some(p) => zs.last().begin_bi->0 >= p,
            None => true,
        };
        if drop { spec_zs_keep(zs.drop_last(), pos) } else { zs }
    }
}

/// Whether a segment starts no earlier than the last sure one did.
pub open spec fn spec_zs_need_cal(seg: CSeg, pos: Option<usize>) -> bool {
    match pos {
        None => true,
        Some(p) => seg.start_bi >= p,
    }
}

/// The pivots of the first `k` segments, each looked at with no lines
/// waiting, when it starts no earlier than the last sure one did.
pub open spec fn spec_zs_normal_pass(
    st: (Seq<ZsView>, Seq<usize>),
    segs: Seq<CSeg>,
    k: int,
    pos: Option<usize>,
    cfg: CZsConfig,
    lines: Seq<CLine>,
) -> (Seq<ZsView>, Seq<usize>)
    decreases k,
{
    if k <= 0 {
        st
    } else {
        let prev = spec_zs_normal_pass(st, segs, k - 1, pos, cfg, lines);
        let sg = segs[k - 1];
        if spec_zs_need_cal(sg, pos) {
            spec_zs_feed_range((prev.0, Seq::empty()), sg.start_bi as int, sg.end_bi + 1, 0, sg.dir, sg.is_sure, cfg, lines, segs)
        } else {
            prev
        }
    }
}

/// The pivots of the segments from `i` on by the automatic algorithm: sure
/// segments (and those before the first sure one, when there is one) by
/// their own lines; from the first other segment on, across segments.
pub open spec fn spec_zs_auto_pass(
    st: (Seq<ZsView>, Seq<usize>),
    segs: Seq<CSeg>,
    i: int,
    appear: bool,
    exist: bool,
    pos: Option<usize>,
    cfg: CZsConfig,
    lines: Seq<CLine>,
) -> (Seq<ZsView>, Seq<usize>)
    decreases segs.len() - i,
{
    if i < 0 || i >= segs.len() {
        st
    } else {
        let sg = segs[i];
        let ap = appear || sg.is_sure;
        if spec_zs_need_cal(sg, pos) {
            if sg.is_sure || (!ap && exist) {
                spec_zs_auto_pass(
                    spec_zs_feed_range((st.0, Seq::empty()), sg.start_bi as int, sg.end_bi + 1, 0, sg.dir, sg.is_sure, cfg, lines, segs),
                    segs,
                    i + 1,
                    ap,
                    exist,
                    pos,
                    cfg,
                    lines,
                )
            } else {
                spec_overseg_from((st.0, Seq::empty()), sg.start_bi as int, cfg, lines, segs)
            }
        } else {
            spec_zs_auto_pass(st, segs, i + 1, ap, exist, pos, cfg, lines)
        }
    }
}

/// The pivots found again over the lines and their segments: those after
/// the last sure segment's start are dropped, then found again as the
/// algorithm says (by segment, then the lines after the last segment;
/// across segments from after the last pivot; or automatically).
pub open spec fn spec_cal_bi_zs(
    st: (Seq<ZsView>, Seq<usize>),
    pos: Option<usize>,
    segs: Seq<CSeg>,
    cfg: CZsConfig,
    lines: Seq<CLine>,
) -> (Seq<ZsView>, Seq<usize>) {
    let z0 = (spec_zs_keep(st.0, pos), st.1);
    let m = segs.len() as int;
    match cfg.zs_algo {
        ZsAlgo::Normal => {
            let s1 = spec_zs_normal_pass(z0, segs, m, pos, cfg, lines);
            if m > 0 {
                let last = segs[m - 1];
                spec_zs_feed_range(
                    (s1.0, Seq::empty()),
                    last.end_bi + 1,
                    lines.len() as int,
                    0,
                    crate::func_util::spec_revert_bi_dir(last.dir),
                    false,
                    cfg,
                    lines,
                    segs,
                )
            } else {
                s1
            }
        },
        ZsAlgo::OverSeg => {
            let b: int = if z0.0.len() > 0 { z0.0.last().end_bi->0 + 1 } else { 0 };
            spec_overseg_from((z0.0, Seq::empty()), b, cfg, lines, segs)
        },
        ZsAlgo::Auto => {
            let exist = exists|i: int| 0 <= i < segs.len() && (#[trigger] segs[i]).is_sure;
            spec_zs_auto_pass(z0, segs, 0, false, exist, pos, cfg, lines)
        },
    }
}

/// Pivots found on a list of lines.
pub struct CZSList {
    pub zs_lst: Vec<CZS>,
    pub config: CZsConfig,
    pub free_item_lst: Vec<usize>,
    pub last_sure_pos: Option<usize>,
}

impl CZSList {
    /// The invariant over `n` lines: the pivots lie inside the lines, and
    /// the waiting lines are lines in increasing order.
    pub open spec fn wf(&self, n: int) -> bool {
        &&& forall|i: int| 0 <= i < self.zs_lst@.len() ==> #[trigger] zs_fits(self.zs_lst@[i], n)
        &&& free_ok(self.free_item_lst@, n)
    }

    /// Line `x` may be fed next: it comes no earlier than the last waiting
    /// line.
    pub open spec fn accepts(&self, x: int) -> bool {
        self.free_item_lst@.len() > 0 ==> self.free_item_lst@.last() <= x
    }

    pub fn new(zs_config: CZsConfig) -> (r: Self)
        ensures
            r.zs_lst@.len() == 0,
            r.free_item_lst@.len() == 0,
            r.last_sure_pos is None,
            r.config == zs_config,
    {
        CZSList { zs_lst: Vec::new(), config: zs_config, free_item_lst: Vec::new(), last_sure_pos: None }
    }

    pub fn len(&self) -> (r: usize)
        ensures
            r == self.zs_lst@.len(),
    {
        self.zs_lst.len()
    }

    /// Whether the pivots lie inside `n` lines as the invariant says.
    pub fn fits(&self, n: usize) -> (r: bool)
        ensures
            r == self.wf(n as int),
    {
        let mut i: usize = 0;
        while i < self.zs_lst.len()
            invariant
                i <= self.zs_lst@.len(),
                forall|k: int| 0 <= k < i ==> #[trigger] zs_fits(self.zs_lst@[k], n as int),
            decreases self.zs_lst@.len() - i,
        {
            let z = &self.zs_lst[i];
            let ok = match (z.begin_bi, z.end_bi) {
                (Some(b), Some(e)) => 1 <= b && b < n && e < n && z.end.is_some(),
                _ => false,
            };
            if !ok {
                proof {
                    assert(!zs_fits(self.zs_lst@[i as int], n as int));
                }
                return false;
            }
            let io = match z.bi_in {
                Some(x) => x < n,
                None => true,
            } && match z.bi_out {
                Some(x) => x < n,
                None => true,
            };
            if !io {
                proof {
                    assert(!zs_fits(self.zs_lst@[i as int], n as int));
                }
                return false;
            }
            if !indices_below(&z.bi_lst, n) {
                proof {
                    assert(!zs_fits(self.zs_lst@[i as int], n as int));
                }
                return false;
            }
            if !(z.peak_low <= z.low && z.high <= z.peak_high) {
                proof {
                    assert(!zs_fits(self.zs_lst@[i as int], n as int));
                }
                return false;
            }
            proof {
                assert(zs_fits(self.zs_lst@[i as int], n as int));
            }
            i = i + 1;
        }
        let m = self.free_item_lst.len();
        let mut k: usize = 0;
        while k < m
            invariant
                m == self.free_item_lst@.len(),
                k <= m,
                forall|a: int| 0 <= a < k ==> #[trigger] self.free_item_lst@[a] < n,
                forall|a: int, b: int| 0 <= a < b < k ==> #[trigger] self.free_item_lst@[a] < #[trigger] self.free_item_lst@[b],
            decreases m - k,
        {
            if self.free_item_lst[k] >= n || (k > 0 && self.free_item_lst[k - 1] >= self.free_item_lst[k]) {
                return false;
            }
            proof {
                assert forall|a: int, b: int| 0 <= a < b < k + 1 implies #[trigger] self.free_item_lst@[a]
                    < #[trigger] self.free_item_lst@[b] by {
                    if b == k && a < k - 1 {
                        assert(self.free_item_lst@[a] < self.free_item_lst@[k - 1]);
                    }
                }
            }
            k = k + 1;
        }
        true
    }

    /// Remembers where the last sure segment starts.
    pub fn update_last_pos(&mut self, seg_list: &CSegListChan)
        ensures
            final(self).last_sure_pos == spec_last_sure_pos(seg_list.lst@, seg_list.lst@.len() as int),
            final(self).zs_lst@ == old(self).zs_lst@,
            final(self).free_item_lst@ == old(self).free_item_lst@,
            final(self).config == old(self).config,
    {
        let mut i = seg_list.lst.len();
        while i > 0
            invariant
                i <= seg_list.lst@.len(),
                spec_last_sure_pos(seg_list.lst@, seg_list.lst@.len() as int) == spec_last_sure_pos(seg_list.lst@, i as int),
                self.zs_lst@ == old(self).zs_lst@,
                self.free_item_lst@ == old(self).free_item_lst@,
                self.config == old(self).config,
            decreases i,
        {
            i = i - 1;
            if seg_list.lst[i].is_sure {
                self.last_sure_pos = Some(seg_list.lst[i].start_bi);
                return;
            }
        }
        self.last_sure_pos = None;
    }

    /// Whether a segment starts no earlier than the last sure one did.
    pub fn seg_need_cal(&self, seg: &CSeg) -> (r: bool)
        ensures
            r == (match self.last_sure_pos {
                None => true,
                Some(p) => seg.start_bi >= p,
            }),
    {
        match self.last_sure_pos {
            None => true,
            Some(pos) => seg.start_bi >= pos,
        }
    }

    pub fn clear_free_lst(&mut self)
        ensures
            final(self).free_item_lst@.len() == 0,
            final(self).zs_lst@ == old(self).zs_lst@,
            final(self).config == old(self).config,
            final(self).last_sure_pos == old(self).last_sure_pos,
    {
        self.free_item_lst = Vec::new();
    }

    /// Tries to make a pivot of the waiting lines `lst`: the lines chosen
    /// as `spec_zs_select` says make one if their lowest high lies above
    /// their highest low.
    pub fn try_construct_zs(
        &self,
        lst: &Vec<usize>,
        is_sure: bool,
        zs_algo: ZsAlgo,
        lines: &Vec<CLine>,
        segs: &Vec<CSeg>,
    ) -> (r: Option<CZS>)
        requires
            lines_wf(lines@),
            lst@.len() > 0,
            free_ok(lst@, lines@.len() as int),
            zs_algo == ZsAlgo::OverSeg && lst@.len() >= 3 ==> has_parent(lines@, segs@, lst@[lst@.len() - 3] as int),
        ensures
            ({
                let sel = spec_zs_select(lst@, zs_algo, self.config.one_bi_zs, lines@, segs@);
                &&& r is Some <==> (sel is Some && spec_min_high(lines_at(lines@, sel->0), sel->0.len() as int)
                    > spec_max_low(lines_at(lines@, sel->0), sel->0.len() as int))
                &&& r matches Some(z) ==> {
                    &&& z.begin_bi == Some(sel->0[0])
                    &&& z.end_bi == Some(sel->0.last())
                    &&& z.end is Some
                    &&& z.low == spec_max_low(lines_at(lines@, sel->0), sel->0.len() as int)
                    &&& z.high == spec_min_high(lines_at(lines@, sel->0), sel->0.len() as int)
                    &&& z.is_sure == is_sure
                    &&& z.bi_in is None && z.bi_out is None && z.bi_lst@.len() == 0
                    &&& lst@[0] <= sel->0[0] <= sel->0.last() <= lst@.last()
                    &&& z.peak_low <= z.low && z.high <= z.peak_high
                    &&& z.zv() == spec_zs_of(lines_at(lines@, sel->0), is_sure)
                }
            }),
    {
        let n = lst.len();
        let ghost sel_spec = spec_zs_select(lst@, zs_algo, self.config.one_bi_zs, lines@, segs@);
        let (lo, hi): (usize, usize) = match zs_algo {
            ZsAlgo::Normal => {
                if !self.config.one_bi_zs {
                    if n == 1 {
                        return None;
                    }
                    (n - 2, n)
                } else {
                    (0, n)
                }
            },
            ZsAlgo::OverSeg => {
                if n < 3 {
                    return None;
                }
                let first = &lines[lst[n - 3]];
                let parent = first.seg_idx.unwrap();
                if first.dir == segs[parent].dir {
                    (n - 2, n)
                } else {
                    (n - 3, n)
                }
            },
            ZsAlgo::Auto => (0, n),
        };
        let mut picked: Vec<CLine> = Vec::new();
        let mut i = lo;
        while i < hi
            invariant
                lo <= i <= hi <= n,
                n == lst@.len(),
                free_ok(lst@, lines@.len() as int),
                picked@ == lines_at(lines@, lst@.subrange(lo as int, i as int)),
            decreases hi - i,
        {
            picked.push(lines[lst[i]]);
            i = i + 1;
            proof {
                assert(picked@ =~= lines_at(lines@, lst@.subrange(lo as int, i as int)));
            }
        }
        let ghost sel = lst@.subrange(lo as int, hi as int);
        proof {
            assert(sel_spec == Some(sel)) by {
                if zs_algo == ZsAlgo::OverSeg {
                    let l3 = lst@.subrange(n - 3, n as int);
                    assert(l3.subrange(1, 3) =~= lst@.subrange(n - 2, n as int));
                    assert(l3 =~= lst@.subrange(n - 3, n as int));
                }
                if zs_algo == ZsAlgo::Auto || (zs_algo == ZsAlgo::Normal && self.config.one_bi_zs) {
                    assert(lst@.subrange(0, n as int) =~= lst@);
                }
            }
            assert(sel.len() > 0);
            assert(lst@[0] <= sel[0]) by {
                if lo > 0 {
                    assert(lst@[0] < lst@[lo as int]);
                }
            }
            assert(sel.last() <= lst@.last()) by {
                assert(sel.last() == lst@[hi - 1]);
            }
            assert(sel[0] <= sel.last()) by {
                if hi - 1 > lo {
                    assert(lst@[lo as int] < lst@[hi - 1]);
                }
            }
        }
        let mut min_high: i64 = i64::MAX;
        let mut max_low: i64 = i64::MIN;
        let mut k: usize = 0;
        while k < picked.len()
            invariant
                k <= picked@.len(),
                min_high == spec_min_high(picked@, k as int),
                max_low == spec_max_low(picked@, k as int),
            decreases picked@.len() - k,
        {
            if picked[k].high < min_high {
                min_high = picked[k].high;
            }
            if picked[k].low > max_low {
                max_low = picked[k].low;
            }
            k = k + 1;
        }
        if min_high > max_low {
            proof {
                assert(picked@[0].idx == sel[0]) by {
                    assert(picked@[0] == lines@[sel[0] as int]);
                }
                assert(picked@.last().idx == sel.last()) by {
                    assert(picked@[picked@.len() - 1] == lines@[sel[sel.len() - 1] as int]);
                }
                crate::zs::lemma_extremes_order(picked@, picked@.len() as int);
            }
            Some(CZS::new(Some(picked), is_sure))
        } else {
            None
        }
    }

    /// Merges the last pivot into the one before while they combine.
    pub fn try_combine(&mut self, lines: &Vec<CLine>)
        requires
            old(self).wf(lines@.len() as int),
        ensures
            final(self).wf(lines@.len() as int),
            final(self).free_item_lst@ == old(self).free_item_lst@,
            final(self).config == old(self).config,
            final(self).last_sure_pos == old(self).last_sure_pos,
            final(self).zs_lst@.len() <= old(self).zs_lst@.len(),
            old(self).zs_lst@.len() > 0 ==> final(self).zs_lst@.len() > 0,
            !old(self).config.need_combine ==> final(self).zs_lst@ == old(self).zs_lst@,
            zvs(final(self).zs_lst@) == spec_zs_combine_all(zvs(old(self).zs_lst@), old(self).config, lines@),
    {
        if !self.config.need_combine {
            return;
        }
        let ghost n = lines@.len() as int;
        let ghost goal = spec_zs_combine_all(zvs(self.zs_lst@), self.config, lines@);
        while self.zs_lst.len() >= 2
            invariant_except_break
                goal == spec_zs_combine_all(zvs(self.zs_lst@), self.config, lines@),
            invariant
                self.wf(n),
                n == lines@.len(),
                self.free_item_lst@ == old(self).free_item_lst@,
                self.config == old(self).config,
                self.last_sure_pos == old(self).last_sure_pos,
                self.zs_lst@.len() <= old(self).zs_lst@.len(),
                old(self).zs_lst@.len() > 0 ==> self.zs_lst@.len() > 0,
                self.config.need_combine,
                goal == spec_zs_combine_all(zvs(old(self).zs_lst@), old(self).config, lines@),
            ensures
                zvs(self.zs_lst@) == goal,
                self.wf(n),
                self.free_item_lst@ == old(self).free_item_lst@,
                self.config == old(self).config,
                self.last_sure_pos == old(self).last_sure_pos,
                self.zs_lst@.len() <= old(self).zs_lst@.len(),
                old(self).zs_lst@.len() > 0 ==> self.zs_lst@.len() > 0,
            decreases self.zs_lst@.len(),
        {
            let ghost before = self.zs_lst@;
            let last = self.zs_lst.pop().unwrap();
            let mut second_last = self.zs_lst.pop().unwrap();
            proof {
                assert(zs_fits(before[before.len() - 1], n));
                assert(zs_fits(before[before.len() - 2], n));
                assert(before[before.len() - 2] == second_last);
                assert(before[before.len() - 1] == last);
            }
            if second_last.combine(&last, self.config.zs_combine_mode, lines) {
                self.zs_lst.push(second_last);
                proof {
                    let bv = zvs(before);
                    assert(bv[bv.len() - 2] == before[before.len() - 2].zv());
                    assert(bv.last() == before[before.len() - 1].zv());
                    assert(zvs(self.zs_lst@) =~= bv.drop_last().drop_last().push(spec_zs_combined(bv[bv.len() - 2], bv.last())));
                }
                proof {
                    let now = self.zs_lst@;
                    assert forall|i: int| 0 <= i < now.len() implies #[trigger] zs_fits(now[i], n) by {
                        if i < now.len() - 1 {
                            assert(now[i] == before[i]);
                        }
                    }
                }
                continue;
            }
            self.zs_lst.push(second_last);
            self.zs_lst.push(last);
            proof {
                assert(self.zs_lst@ =~= before);
                let bv = zvs(before);
                assert(bv[bv.len() - 2] == before[before.len() - 2].zv());
                assert(bv.last() == before[before.len() - 1].zv());
            }
            break;
        }
    }

    /// Extends the last pivot by line `bi`, if there is one and the line
    /// reaches into its range.
    pub fn try_add_to_end(&mut self, bi: usize, lines: &Vec<CLine>) -> (r: bool)
        requires
            old(self).wf(lines@.len() as int),
            bi < lines@.len(),
            lines_wf(lines@),
        ensures
            final(self).wf(lines@.len() as int),
            final(self).free_item_lst@ == old(self).free_item_lst@,
            final(self).config == old(self).config,
            final(self).last_sure_pos == old(self).last_sure_pos,
            final(self).zs_lst@.len() == old(self).zs_lst@.len(),
            forall|i: int| 0 <= i < old(self).zs_lst@.len() - 1 ==> #[trigger] final(self).zs_lst@[i] == old(self).zs_lst@[i],
            r == (old(self).zs_lst@.len() > 0 && old(self).zs_lst@.last().in_range_spec(lines@[bi as int])),
            !r ==> final(self).zs_lst@ == old(self).zs_lst@,
            r ==> final(self).zs_lst@.last().end_bi == Some(bi),
            r ==> zvs(final(self).zs_lst@) == zvs(old(self).zs_lst@).update(
                old(self).zs_lst@.len() - 1,
                spec_zs_extended(old(self).zs_lst@.last().zv(), lines@[bi as int], lines@),
            ),
    {
        let n = self.zs_lst.len();
        if n == 0 {
            return false;
        }
        let ghost before = self.zs_lst@;
        let mut last = self.zs_lst.pop().unwrap();
        proof {
            assert(zs_fits(before[n - 1], lines@.len() as int));
            assert(last == before[n - 1]);
            assert(lines@[bi as int].idx == bi);
        }
        let r = last.try_add_to_end(&lines[bi], lines);
        self.zs_lst.push(last);
        proof {
            let now = self.zs_lst@;
            if !r {
                assert(now =~= before);
            } else {
                assert forall|i: int| 0 <= i < now.len() implies #[trigger] zs_fits(now[i], lines@.len() as int) by {
                    if i < now.len() - 1 {
                        assert(now[i] == before[i]);
                    }
                }
            }
            assert forall|i: int| 0 <= i < before.len() - 1 implies #[trigger] now[i] == before[i] by {}
        }
        r
    }
}

impl CZS {
    /// The line reaches into the pivot's range.
    pub open spec fn in_range_spec(&self, item: CLine) -> bool {
        crate::func_util::spec_has_overlap(self.low as int, self.high as int, item.low as int, item.high as int, false)
    }
}

/// Where the last sure one of the first `i` segments starts.
pub open spec fn spec_last_sure_pos(segs: Seq<CSeg>, i: int) -> Option<usize>
    decreases i,
{
    if i <= 0 {
        None
    } else if segs[i - 1].is_sure {
        Some(segs[i - 1].start_bi)
    } else {
        spec_last_sure_pos(segs, i - 1)
    }
}

impl CZSList {
    /// Adds line `item` to the waiting lines (in place of the last if it is
    /// the same line, which moved) and tries to make a pivot of them; a
    /// pivot that starts after the first line is kept, the waiting lines are
    /// dropped and the pivots combined.
    #[verifier::spinoff_prover]
    #[verifier::rlimit(50)]
    pub fn add_to_free_lst(&mut self, item: usize, is_sure: bool, zs_algo: ZsAlgo, lines: &Vec<CLine>, segs: &Vec<CSeg>)
        requires
            old(self).wf(lines@.len() as int),
            old(self).accepts(item as int),
            item < lines@.len(),
            lines_wf(lines@),
            zs_algo == ZsAlgo::OverSeg ==> has_parent(lines@, segs@, item as int) && forall|k: int|
                0 <= k < old(self).free_item_lst@.len() ==> #[trigger] has_parent(lines@, segs@, old(self).free_item_lst@[k] as int),
        ensures
            final(self).wf(lines@.len() as int),
            final(self).accepts(item as int),
            final(self).config == old(self).config,
            final(self).last_sure_pos == old(self).last_sure_pos,
            ({
                let f = old(self).free_item_lst@;
                let kept = if f.len() > 0 && f.last() == item { f.drop_last() } else { f };
                ||| final(self).free_item_lst@ == kept.push(item) && final(self).zs_lst@ == old(self).zs_lst@
                ||| final(self).free_item_lst@.len() == 0 && final(self).zs_lst@.len() > 0
            }),
            (zvs(final(self).zs_lst@), final(self).free_item_lst@) == spec_zs_add_free(
                (zvs(old(self).zs_lst@), old(self).free_item_lst@),
                item,
                is_sure,
                zs_algo,
                old(self).config,
                lines@,
                segs@,
            ),
    {
        let ghost old_free = self.free_item_lst@;
        let m = self.free_item_lst.len();
        if m > 0 && self.free_item_lst[m - 1] == item {
            self.free_item_lst.pop();
        }
        let ghost mid = self.free_item_lst@;
        self.free_item_lst.push(item);
        proof {
            let f = self.free_item_lst@;
            let n = lines@.len() as int;
            assert forall|k: int| 0 <= k < f.len() implies #[trigger] f[k] < n by {
                if k < mid.len() {
                    assert(mid[k] == old_free[k]);
                }
            }
            assert forall|k: int, l: int| 0 <= k < l < f.len() implies #[trigger] f[k] < #[trigger] f[l] by {
                assert(mid[k] == old_free[k]);
                if l < mid.len() {
                    assert(mid[l] == old_free[l]);
                } else {
                    if mid.len() < old_free.len() {
                        assert(old_free[k] < old_free[old_free.len() - 1]);
                    } else {
                        assert(old_free[k] <= old_free[old_free.len() - 1]);
                        assert(old_free[old_free.len() - 1] != item);
                        if k < old_free.len() - 1 {
                            assert(old_free[k] < old_free[old_free.len() - 1]);
                        }
                    }
                }
            }
            if zs_algo == ZsAlgo::OverSeg && f.len() >= 3 {
                let x = f[f.len() - 3];
                if f.len() - 3 < mid.len() {
                    assert(mid[f.len() - 3] == old_free[f.len() - 3]);
                    assert(has_parent(lines@, segs@, old_free[f.len() - 3] as int));
                }
            }
        }
        let res = self.try_construct_zs(&self.free_item_lst, is_sure, zs_algo, lines, segs);
        proof {
            let f = old(self).free_item_lst@;
            let kept = if f.len() > 0 && f.last() == item { f.drop_last() } else { f };
            assert(self.free_item_lst@ =~= kept.push(item));
        }
        if let Some(z) = res {
            if z.begin_bi.unwrap() > 0 {
                let ghost before = self.zs_lst@;
                self.zs_lst.push(z);
                proof {
                    assert(zvs(self.zs_lst@) =~= zvs(before).push(z.zv()));
                }
                proof {
                    let now = self.zs_lst@;
                    assert forall|i: int| 0 <= i < now.len() implies #[trigger] zs_fits(now[i], lines@.len() as int) by {
                        if i < before.len() {
                            assert(now[i] == before[i]);
                        }
                    }
                }
                self.clear_free_lst();
                self.try_combine(lines);
            }
        }
    }

    /// Feeds line `bi`: with nothing waiting it extends the last pivot if it
    /// can (then pivots are combined); otherwise it waits.
    pub fn update(&mut self, bi: usize, is_sure: bool, lines: &Vec<CLine>, segs: &Vec<CSeg>)
        requires
            old(self).wf(lines@.len() as int),
            old(self).accepts(bi as int),
            bi < lines@.len(),
            lines_wf(lines@),
        ensures
            final(self).wf(lines@.len() as int),
            final(self).accepts(bi as int),
            final(self).config == old(self).config,
            final(self).last_sure_pos == old(self).last_sure_pos,
            (zvs(final(self).zs_lst@), final(self).free_item_lst@) == spec_zs_update(
                (zvs(old(self).zs_lst@), old(self).free_item_lst@),
                bi,
                is_sure,
                old(self).config,
                lines@,
                segs@,
            ),
    {
        proof {
            if old(self).zs_lst@.len() > 0 {
                assert(zvs(old(self).zs_lst@).last() == old(self).zs_lst@.last().zv());
            }
        }
        if self.free_item_lst.len() == 0 && self.try_add_to_end(bi, lines) {
            self.try_combine(lines);
            return;
        }
        self.add_to_free_lst(bi, is_sure, ZsAlgo::Normal, lines, segs);
    }

    /// Feeds the lines `lo..hi` that run against the segment's way: the
    /// first waits, the others are fed.
    pub fn add_zs_from_bi_range(
        &mut self,
        lo: usize,
        hi: usize,
        seg_dir: BI_DIR,
        seg_is_sure: bool,
        lines: &Vec<CLine>,
        segs: &Vec<CSeg>,
    )
        requires
            old(self).wf(lines@.len() as int),
            old(self).accepts(lo as int),
            lo <= hi <= lines@.len(),
            lines_wf(lines@),
        ensures
            final(self).wf(lines@.len() as int),
            final(self).accepts(hi as int),
            final(self).config == old(self).config,
            final(self).last_sure_pos == old(self).last_sure_pos,
            (zvs(final(self).zs_lst@), final(self).free_item_lst@) == spec_zs_feed_range(
                (zvs(old(self).zs_lst@), old(self).free_item_lst@),
                lo as int,
                hi as int,
                0,
                seg_dir,
                seg_is_sure,
                old(self).config,
                lines@,
                segs@,
            ),
    {
        let mut deal_bi_cnt: usize = 0;
        let mut i = lo;
        let ghost goal = spec_zs_feed_range(
            (zvs(self.zs_lst@), self.free_item_lst@),
            lo as int,
            hi as int,
            0,
            seg_dir,
            seg_is_sure,
            self.config,
            lines@,
            segs@,
        );
        while i < hi
            invariant
                deal_bi_cnt <= 1,
                goal == spec_zs_feed_range(
                    (zvs(self.zs_lst@), self.free_item_lst@),
                    i as int,
                    hi as int,
                    deal_bi_cnt as int,
                    seg_dir,
                    seg_is_sure,
                    self.config,
                    lines@,
                    segs@,
                ),
                goal == spec_zs_feed_range(
                    (zvs(old(self).zs_lst@), old(self).free_item_lst@),
                    lo as int,
                    hi as int,
                    0,
                    seg_dir,
                    seg_is_sure,
                    old(self).config,
                    lines@,
                    segs@,
                ),
                lo <= i <= hi <= lines@.len(),
                lines_wf(lines@),
                self.wf(lines@.len() as int),
                self.accepts(i as int),
                self.config == old(self).config,
                self.last_sure_pos == old(self).last_sure_pos,
            decreases hi - i,
        {
            if lines[i].dir != seg_dir {
                if deal_bi_cnt < 1 {
                    self.add_to_free_lst(i, seg_is_sure, ZsAlgo::Normal, lines, segs);
                    deal_bi_cnt = deal_bi_cnt + 1;
                } else {
                    self.update(i, seg_is_sure, lines, segs);
                }
            }
            i = i + 1;
        }
    }

    /// Feeds line `bi` when pivots may cross segments: a line right after
    /// the last pivot is taken into it when the next line, or the line
    /// itself, reaches into its range; otherwise it waits.
    pub fn update_overseg_zs(&mut self, bi: usize, lines: &Vec<CLine>, segs: &Vec<CSeg>)
        requires
            old(self).wf(lines@.len() as int),
            old(self).accepts(bi as int),
            bi < lines@.len(),
            lines_wf(lines@),
        ensures
            final(self).wf(lines@.len() as int),
            final(self).accepts(bi as int),
            final(self).config == old(self).config,
            final(self).last_sure_pos == old(self).last_sure_pos,
            (zvs(final(self).zs_lst@), final(self).free_item_lst@) == spec_overseg_update(
                (zvs(old(self).zs_lst@), old(self).free_item_lst@),
                bi,
                old(self).config,
                lines@,
                segs@,
            ),
    {
        proof {
            if old(self).zs_lst@.len() > 0 {
                assert(zvs(old(self).zs_lst@).last() == old(self).zs_lst@.last().zv());
            }
        }
        let n = lines.len();
        let z = self.zs_lst.len();
        if z > 0 && self.free_item_lst.len() == 0 {
            if bi + 1 >= n {
                return;
            }
            proof {
                assert(zs_fits(self.zs_lst@[z - 1], n as int));
            }
            let last_end = self.zs_lst[z - 1].end_bi.unwrap();
            if bi >= last_end && bi - last_end <= 1 && self.zs_lst[z - 1].in_range(&lines[bi + 1]) && self.try_add_to_end(
                bi,
                lines,
            ) {
                return;
            }
        }
        let z = self.zs_lst.len();
        if z > 0 && self.free_item_lst.len() == 0 {
            proof {
                assert(zs_fits(self.zs_lst@[z - 1], n as int));
            }
            let last = &self.zs_lst[z - 1];
            let last_end = last.end_bi.unwrap();
            if last.in_range(&lines[bi]) && bi >= last_end && bi - last_end <= 1 {
                return;
            }
        }
        self.add_to_free_lst(bi, lines[bi].is_sure, ZsAlgo::Normal, lines, segs);
    }

    /// Finds the pivots again: drops those starting at or after where the
    /// last sure segment started (all of them when there was none), then
    /// feeds the lines of each segment from there on, and those after the
    /// last segment, as the algorithm says.
    pub fn cal_bi_zs(&mut self, lines: &Vec<CLine>, seg_lst: &CSegListChan)
        requires
            old(self).wf(lines@.len() as int),
            lines_wf(lines@),
            segs_wf(seg_lst.lst@, lines@),
            !(old(self).config.zs_algo == ZsAlgo::OverSeg && old(self).config.one_bi_zs),
        ensures
            final(self).wf(lines@.len() as int),
            final(self).config == old(self).config,
            final(self).last_sure_pos == spec_last_sure_pos(seg_lst.lst@, seg_lst.lst@.len() as int),
            (zvs(final(self).zs_lst@), final(self).free_item_lst@) == spec_cal_bi_zs(
                (zvs(old(self).zs_lst@), old(self).free_item_lst@),
                old(self).last_sure_pos,
                seg_lst.lst@,
                old(self).config,
                lines@,
            ),
    {
        let n = lines.len();
        let ghost pos = self.last_sure_pos;
        let ghost cfg = self.config;
        let ghost goal = spec_cal_bi_zs((zvs(self.zs_lst@), self.free_item_lst@), pos, seg_lst.lst@, cfg, lines@);
        let ghost kept = spec_zs_keep(zvs(self.zs_lst@), pos);
        while self.zs_lst.len() > 0
            invariant_except_break
                spec_zs_keep(zvs(self.zs_lst@), pos) == kept,
            invariant
                self.wf(n as int),
                n == lines@.len(),
                self.config == old(self).config,
                self.last_sure_pos == old(self).last_sure_pos,
                pos == old(self).last_sure_pos,
                self.free_item_lst@ == old(self).free_item_lst@,
                kept == spec_zs_keep(zvs(old(self).zs_lst@), pos),
            ensures
                zvs(self.zs_lst@) == kept,
                self.wf(n as int),
                self.config == old(self).config,
                self.last_sure_pos == old(self).last_sure_pos,
                self.free_item_lst@ == old(self).free_item_lst@,
            decreases self.zs_lst@.len(),
        {
            let k = self.zs_lst.len();
            proof {
                assert(zs_fits(self.zs_lst@[k - 1], n as int));
                assert(zvs(self.zs_lst@).last() == self.zs_lst@[k - 1].zv());
            }
            let begin_idx = self.zs_lst[k - 1].begin_bi.unwrap();
            let drop = match self.last_sure_pos {
                Some(pos) => begin_idx >= pos,
                None => true,
            };
            if !drop {
                break;
            }
            let ghost before = self.zs_lst@;
            self.zs_lst.pop();
            proof {
                assert(zvs(self.zs_lst@) =~= zvs(before).drop_last());
                assert forall|i: int| 0 <= i < self.zs_lst@.len() implies #[trigger] zs_fits(self.zs_lst@[i], n as int) by {
                    assert(self.zs_lst@[i] == before[i]);
                }
            }
        }
        let segs = &seg_lst.lst;
        let m = segs.len();
        match self.config.zs_algo {
            ZsAlgo::Normal => {
                let mut i: usize = 0;
                while i < m
                    invariant
                        m == segs@.len(),
                        i <= m,
                        n == lines@.len(),
                        lines_wf(lines@),
                        segs_wf(segs@, lines@),
                        self.wf(n as int),
                        self.config == old(self).config,
                        self.last_sure_pos == pos,
                        (zvs(self.zs_lst@), self.free_item_lst@) == spec_zs_normal_pass(
                            (kept, old(self).free_item_lst@),
                            segs@,
                            i as int,
                            pos,
                            cfg,
                            lines@,
                        ),
                        cfg == old(self).config,
                    decreases m - i,
                {
                    let sg = &segs[i];
                    proof {
                        assert(seg_ok(segs@, lines@, i as int));
                    }
                    let ghost prev = (zvs(self.zs_lst@), self.free_item_lst@);
                    if self.seg_need_cal(sg) {
                        self.clear_free_lst();
                        proof {
                            assert(self.free_item_lst@ =~= Seq::<usize>::empty());
                        }
                        self.add_zs_from_bi_range(sg.start_bi, sg.end_bi + 1, sg.dir, sg.is_sure, lines, segs);
                    }
                    proof {
                        assert(spec_zs_normal_pass((kept, old(self).free_item_lst@), segs@, i + 1, pos, cfg, lines@) == (if spec_zs_need_cal(segs@[i as int], pos) {
                            spec_zs_feed_range((prev.0, Seq::empty()), segs@[i as int].start_bi as int, segs@[i as int].end_bi + 1, 0, segs@[i as int].dir, segs@[i as int].is_sure, cfg, lines@, segs@)
                        } else {
                            prev
                        }));
                    }
                    i = i + 1;
                }
                let ghost s1 = (zvs(self.zs_lst@), self.free_item_lst@);
                if m > 0 {
                    self.clear_free_lst();
                    proof {
                        assert(self.free_item_lst@ =~= Seq::<usize>::empty());
                    }
                    let last = &segs[m - 1];
                    proof {
                        assert(seg_ok(segs@, lines@, m - 1));
                    }
                    self.add_zs_from_bi_range(last.end_bi + 1, n, revert_bi_dir(&last.dir), false, lines, segs);
                }
                proof {
                    assert(goal == (if m > 0 {
                        spec_zs_feed_range((s1.0, Seq::empty()), segs@[m - 1].end_bi + 1, n as int, 0, crate::func_util::spec_revert_bi_dir(segs@[m - 1].dir), false, cfg, lines@, segs@)
                    } else {
                        s1
                    }));
                }
            },
            ZsAlgo::OverSeg => {
                self.clear_free_lst();
                proof {
                    assert(self.free_item_lst@ =~= Seq::<usize>::empty());
                }
                let z = self.zs_lst.len();
                let begin_bi_idx = if z > 0 {
                    proof {
                        assert(zs_fits(self.zs_lst@[z - 1], n as int));
                        assert(zvs(self.zs_lst@).last() == self.zs_lst@[z - 1].zv());
                    }
                    self.zs_lst[z - 1].end_bi.unwrap() + 1
                } else {
                    0
                };
                let mut b = begin_bi_idx;
                proof {
                    let b0: int = if kept.len() > 0 { kept.last().end_bi->0 + 1 } else { 0 };
                    assert(b0 == begin_bi_idx);
                    assert(goal == spec_overseg_from((kept, Seq::empty()), b0, cfg, lines@, segs@));
                }
                while b < n
                    invariant
                        n == lines@.len(),
                        lines_wf(lines@),
                        self.wf(n as int),
                        self.accepts(b as int),
                        self.config == old(self).config,
                        self.last_sure_pos == pos,
                        cfg == old(self).config,
                        goal == spec_overseg_from((zvs(self.zs_lst@), self.free_item_lst@), b as int, cfg, lines@, segs@),
                    decreases n - b,
                {
                    self.update_overseg_zs(b, lines, segs);
                    b = b + 1;
                }
            },
            ZsAlgo::Auto => {
                let mut sure_seg_appear = false;
                let exist_sure_seg = seg_lst.exist_sure_seg();
                let mut i: usize = 0;
                proof {
                    assert(goal == spec_zs_auto_pass((kept, old(self).free_item_lst@), segs@, 0, false, exist_sure_seg, pos, cfg, lines@));
                }
                while i < m
                    invariant_except_break
                        goal == spec_zs_auto_pass(
                            (zvs(self.zs_lst@), self.free_item_lst@),
                            segs@,
                            i as int,
                            sure_seg_appear,
                            exist_sure_seg,
                            pos,
                            cfg,
                            lines@,
                        ),
                    invariant
                        m == segs@.len(),
                        i <= m,
                        n == lines@.len(),
                        lines_wf(lines@),
                        segs_wf(segs@, lines@),
                        self.wf(n as int),
                        self.config == old(self).config,
                        self.last_sure_pos == pos,
                        cfg == old(self).config,
                        exist_sure_seg == exists|i: int| 0 <= i < segs@.len() && (#[trigger] segs@[i]).is_sure,
                    ensures
                        (zvs(self.zs_lst@), self.free_item_lst@) == goal,
                        self.wf(n as int),
                        self.config == old(self).config,
                        self.last_sure_pos == pos,
                    decreases m - i,
                {
                    let sg = &segs[i];
                    proof {
                        assert(seg_ok(segs@, lines@, i as int));
                    }
                    let ghost prev = (zvs(self.zs_lst@), self.free_item_lst@);
                    let ghost ap0 = sure_seg_appear;
                    if sg.is_sure {
                        sure_seg_appear = true;
                    }
                    proof {
                        let ap = ap0 || sg.is_sure;
                        assert(sure_seg_appear == ap);
                        assert(spec_zs_auto_pass(prev, segs@, i as int, ap0, exist_sure_seg, pos, cfg, lines@) == (if spec_zs_need_cal(*sg, pos) {
                            if sg.is_sure || (!ap && exist_sure_seg) {
                                spec_zs_auto_pass(
                                    spec_zs_feed_range((prev.0, Seq::empty()), sg.start_bi as int, sg.end_bi + 1, 0, sg.dir, sg.is_sure, cfg, lines@, segs@),
                                    segs@,
                                    i + 1,
                                    ap,
                                    exist_sure_seg,
                                    pos,
                                    cfg,
                                    lines@,
                                )
                            } else {
                                spec_overseg_from((prev.0, Seq::empty()), sg.start_bi as int, cfg, lines@, segs@)
                            }
                        } else {
                            spec_zs_auto_pass(prev, segs@, i + 1, ap, exist_sure_seg, pos, cfg, lines@)
                        }));
                    }
                    if self.seg_need_cal(sg) {
                        if sg.is_sure || (!sure_seg_appear && exist_sure_seg) {
                            self.clear_free_lst();
                            proof {
                                assert(self.free_item_lst@ =~= Seq::<usize>::empty());
                            }
                            self.add_zs_from_bi_range(sg.start_bi, sg.end_bi + 1, sg.dir, sg.is_sure, lines, segs);
                        } else {
                            self.clear_free_lst();
                            proof {
                                assert(self.free_item_lst@ =~= Seq::<usize>::empty());
                            }
                            let mut b = sg.start_bi;
                            while b < n
                                invariant
                                    n == lines@.len(),
                                    lines_wf(lines@),
                                    self.wf(n as int),
                                    self.accepts(b as int),
                                    self.config == old(self).config,
                                    self.last_sure_pos == pos,
                                    cfg == old(self).config,
                                    goal == spec_overseg_from((zvs(self.zs_lst@), self.free_item_lst@), b as int, cfg, lines@, segs@),
                                decreases n - b,
                            {
                                self.update_overseg_zs(b, lines, segs);
                                b = b + 1;
                            }
                            break;
                        }
                    }
                    i = i + 1;
                }
            },
        }
        self.update_last_pos(seg_lst);
    }
}

/// The first bar of the first line of segment `s`.
pub open spec fn seg_klu(lines: Seq<CLine>, s: CSeg) -> int {
    lines[s.start_bi as int].begin_klu as int
}

/// Walking the pivots down from `j`: the lowest one reached before one that
/// ends before bar `klu`.
pub open spec fn spec_zs_reach(zs: Seq<ZsView>, klu: int, j: int) -> int
    decreases j,
{
    if j <= 0 {
        0
    } else if (zs[j - 1].end->0 as int) < klu {
        j
    } else {
        spec_zs_reach(zs, klu, j - 1)
    }
}

/// Walking the pivots down from `j`, until one ends before bar `klu`: the
/// indices of those that start inside segment `s`, in increasing order, put
/// before `acc`.
pub open spec fn spec_seg_zs(zs: Seq<ZsView>, klu: int, s: CSeg, j: int, acc: Seq<usize>) -> Seq<usize>
    decreases j,
{
    if j <= 0 {
        acc
    } else if (zs[j - 1].end->0 as int) < klu {
        acc
    } else {
        let b = zs[j - 1].begin_bi->0;
        spec_seg_zs(
            zs,
            klu,
            s,
            j - 1,
            if s.start_bi <= b <= s.end_bi { seq![(j - 1) as usize] + acc } else { acc },
        )
    }
}

/// How many of the segments from `i` on are sure.
pub open spec fn spec_sure_from(segs: Seq<CSeg>, i: int) -> int
    decreases segs.len() - i,
{
    if i < 0 || i >= segs.len() {
        0
    } else {
        (if segs[i].is_sure { 1int } else { 0int }) + spec_sure_from(segs, i + 1)
    }
}

/// Walking the segments down from `i`: the lowest one reached before one
/// whose inner pivots are settled.
pub open spec fn spec_seg_floor(segs: Seq<CSeg>, i: int) -> int
    decreases i,
{
    if i <= 0 {
        0
    } else if segs[i - 1].ele_inside_is_sure {
        i
    } else {
        spec_seg_floor(segs, i - 1)
    }
}

/// Walking the segments down from `i` as `spec_seg_floor` does: the lowest
/// pivot that the walk of any of them reaches, or `cur` if lower.
pub open spec fn spec_zs_floor(zs: Seq<ZsView>, lines: Seq<CLine>, segs: Seq<CSeg>, i: int, cur: int) -> int
    decreases i,
{
    if i <= 0 || segs[i - 1].ele_inside_is_sure {
        cur
    } else {
        let r = spec_zs_reach(zs, seg_klu(lines, segs[i - 1]), zs.len() as int);
        spec_zs_floor(zs, lines, segs, i - 1, if r < cur { r } else { cur })
    }
}

/// Pivot `z` with its line in, line out (where there is a line after it
/// among `n`) and lines set from where it begins and ends.
pub open spec fn spec_zs_touch(z: ZsView, n: int) -> ZsView {
    let lo = z.begin_bi->0 as int;
    let e = z.end_bi->0 as int;
    let hi = if e + 1 >= lo { e + 1 } else { lo };
    ZsView {
        bi_in: Some((lo - 1) as usize),
        bi_out: if e + 1 < n { Some((e + 1) as usize) } else { z.bi_out },
        bi_lst: Seq::new((hi - lo) as nat, |k: int| (lo + k) as usize),
        ..z
    }
}

/// The pivots once every pivot that the walk down the unsettled segments
/// of `segs` reaches has its lines in, out and between set.
pub open spec fn spec_zs_in_seg(zs: Seq<ZsView>, lines: Seq<CLine>, segs: Seq<CSeg>) -> Seq<ZsView> {
    let zlo = spec_zs_floor(zs, lines, segs, segs.len() as int, zs.len() as int);
    Seq::new(zs.len(), |j: int| if j < zlo { zs[j] } else { spec_zs_touch(zs[j], lines.len() as int) })
}

/// `a` is segment `b`, the `k`-th of `segs`, with the pivots of `zs` that
/// start inside it recorded, and marked settled once more than two sure
/// segments come from it on.
pub open spec fn seg_refreshed(a: CSeg, b: CSeg, zs: Seq<ZsView>, lines: Seq<CLine>, segs: Seq<CSeg>, k: int) -> bool {
    &&& a.zs_lst@ == spec_seg_zs(zs, seg_klu(lines, b), b, zs.len() as int, Seq::empty())
    &&& a.ele_inside_is_sure == (spec_sure_from(segs, k) > 2)
    &&& a.idx == b.idx
    &&& a.start_bi == b.start_bi
    &&& a.end_bi == b.end_bi
    &&& a.is_sure == b.is_sure
    &&& a.dir == b.dir
    &&& a.eigen_fx == b.eigen_fx
    &&& a.seg_idx == b.seg_idx
    &&& a.reason == b.reason
}

/// The segments once each unsettled one has its pivots recorded.
pub open spec fn segs_refreshed(a: Seq<CSeg>, b: Seq<CSeg>, zs: Seq<ZsView>, lines: Seq<CLine>) -> bool {
    let lo = spec_seg_floor(b, b.len() as int);
    &&& a.len() == b.len()
    &&& forall|k: int| 0 <= k < lo ==> #[trigger] a[k] == b[k]
    &&& forall|k: int| lo <= k < b.len() ==> seg_refreshed(#[trigger] a[k], b[k], zs, lines, b, k)
}

/// Records in each segment, from the last back to the first whose pivots
/// are settled, the pivots that start inside it, and gives each pivot met
/// its line in, line out and lines. A segment is settled once more than two
/// sure segments follow or include it.
pub fn update_zs_in_seg(lines: &Vec<CLine>, seg_list: &mut CSegListChan, zs_list: &mut CZSList)
    requires
        segs_wf(old(seg_list).lst@, lines@),
        old(zs_list).wf(lines@.len() as int),
    ensures
        segs_wf(final(seg_list).lst@, lines@),
        final(zs_list).wf(lines@.len() as int),
        segs_refreshed(final(seg_list).lst@, old(seg_list).lst@, zvs(old(zs_list).zs_lst@), lines@),
        zvs(final(zs_list).zs_lst@) == spec_zs_in_seg(zvs(old(zs_list).zs_lst@), lines@, old(seg_list).lst@),
        final(zs_list).zs_lst@.len() == old(zs_list).zs_lst@.len(),
        forall|j: int|
            0 <= j < final(zs_list).zs_lst@.len() ==> (#[trigger] final(zs_list).zs_lst@[j]).sub_zs_lst
                == old(zs_list).zs_lst@[j].sub_zs_lst,
        final(seg_list).lv == old(seg_list).lv,
        final(seg_list).config == old(seg_list).config,
        final(zs_list).config == old(zs_list).config,
        final(zs_list).free_item_lst == old(zs_list).free_item_lst,
        final(zs_list).last_sure_pos == old(zs_list).last_sure_pos,
{
    let ghost segs0 = seg_list.lst@;
    let ghost zs0 = zs_list.zs_lst@;
    let ghost zv0 = zvs(zs0);
    let n = lines.len();
    let mut sure_seg_cnt: usize = 0;
    let total = seg_list.lst.len();
    let zlen = zs_list.zs_lst.len();
    let mut i = total;
    let ghost mut zcur: int = zlen as int;
    while i > 0 && !seg_list.lst[i - 1].ele_inside_is_sure
        invariant
            n == lines@.len(),
            total == segs0.len(),
            zlen == zs0.len(),
            segs0 == old(seg_list).lst@,
            zs0 == old(zs_list).zs_lst@,
            zv0 == zvs(zs0),
            i <= total,
            seg_list.lst@.len() == total,
            segs_wf(seg_list.lst@, lines@),
            spec_seg_floor(segs0, i as int) == spec_seg_floor(segs0, total as int),
            spec_zs_floor(zv0, lines@, segs0, i as int, zcur) == spec_zs_floor(
                zv0,
                lines@,
                segs0,
                total as int,
                zlen as int,
            ),
            forall|k: int| 0 <= k < i ==> #[trigger] seg_list.lst@[k] == segs0[k],
            forall|k: int|
                i <= k < total ==> seg_refreshed(#[trigger] seg_list.lst@[k], segs0[k], zv0, lines@, segs0, k),
            sure_seg_cnt == spec_sure_from(segs0, i as int),
            sure_seg_cnt <= total - i,
            zs_list.wf(n as int),
            zs_list.zs_lst@.len() == zlen,
            0 <= zcur <= zlen,
            forall|j: int|
                0 <= j < zlen ==> zs_at(#[trigger] zs_list.zs_lst@[j], zs0[j], j >= zcur, n as int),
            seg_list.lv == old(seg_list).lv,
            seg_list.config == old(seg_list).config,
            zs_list.config == old(zs_list).config,
            zs_list.free_item_lst == old(zs_list).free_item_lst,
            zs_list.last_sure_pos == old(zs_list).last_sure_pos,
        decreases i,
    {
        i = i - 1;
        assert(seg_list.lst@[i as int] == segs0[i as int]);
        if seg_list.lst[i].is_sure {
            sure_seg_cnt = sure_seg_cnt + 1;
        }
        assert(sure_seg_cnt == spec_sure_from(segs0, i as int));
        let ghost sg = segs0[i as int];
        let ghost segs_a = seg_list.lst@;
        seg_list.lst[i].clear_zs_lst();
        proof {
            lemma_segs_same_shape(segs_a, seg_list.lst@, lines@);
            assert(seg_ok(seg_list.lst@, lines@, i as int));
        }
        let seg_begin_klu = lines[seg_list.lst[i].start_bi].begin_klu;
        let ghost klu: int = seg_begin_klu as int;
        assert(klu == seg_klu(lines@, sg));
        assert(seg_list.lst@[i as int].zs_lst@ =~= Seq::<usize>::empty());
        assert forall|k: int| 0 <= k < zlen implies (#[trigger] zs_list.zs_lst@[k]).end is Some by {
            assert(zs_fits(zs_list.zs_lst@[k], n as int));
        }
        let mut j = zlen;
        while j > 0 && zs_list.zs_lst[j - 1].end.unwrap() >= seg_begin_klu
            invariant
                n == lines@.len(),
                forall|k: int| 0 <= k < zlen ==> (#[trigger] zs_list.zs_lst@[k]).end is Some,
                zlen == zs0.len(),
                zv0 == zvs(zs0),
                i < total,
                total == segs0.len(),
                seg_list.lst@.len() == total,
                segs_wf(seg_list.lst@, lines@),
                sg == segs0[i as int],
                klu == seg_klu(lines@, sg),
                seg_begin_klu == klu,
                segs_a.len() == total,
                forall|k: int| 0 <= k < total && k != i ==> #[trigger] seg_list.lst@[k] == segs_a[k],
                ({
                    let a = seg_list.lst@[i as int];
                    &&& a.idx == sg.idx
                    &&& a.start_bi == sg.start_bi
                    &&& a.end_bi == sg.end_bi
                    &&& a.is_sure == sg.is_sure
                    &&& a.dir == sg.dir
                    &&& a.eigen_fx == sg.eigen_fx
                    &&& a.seg_idx == sg.seg_idx
                    &&& a.reason == sg.reason
                    &&& a.ele_inside_is_sure == sg.ele_inside_is_sure
                    &&& spec_seg_zs(zv0, klu, sg, j as int, a.zs_lst@) == spec_seg_zs(
                        zv0,
                        klu,
                        sg,
                        zlen as int,
                        Seq::empty(),
                    )
                }),
                spec_zs_reach(zv0, klu, j as int) == spec_zs_reach(zv0, klu, zlen as int),
                j <= zlen,
                zs_list.wf(n as int),
                zs_list.zs_lst@.len() == zlen,
                0 <= zcur <= zlen,
                forall|k: int|
                    0 <= k < zlen ==> zs_at(#[trigger] zs_list.zs_lst@[k], zs0[k], k >= zcur || k >= j, n as int),
                seg_list.lv == old(seg_list).lv,
                seg_list.config == old(seg_list).config,
                zs_list.config == old(zs_list).config,
                zs_list.free_item_lst == old(zs_list).free_item_lst,
                zs_list.last_sure_pos == old(zs_list).last_sure_pos,
            decreases j,
        {
            j = j - 1;
            proof {
                assert(zs_fits(zs_list.zs_lst@[j as int], n as int));
                assert(zs_list.zs_lst@[j as int].end == zs0[j as int].end);
                assert(zs_list.zs_lst@[j as int].begin_bi == zs0[j as int].begin_bi);
            }
            if zs_list.zs_lst[j].is_inside(&seg_list.lst[i]) {
                let ghost segs1 = seg_list.lst@;
                seg_list.lst[i].add_zs(j);
                proof {
                    lemma_segs_same_shape(segs1, seg_list.lst@, lines@);
                }
            }
            let b = zs_list.zs_lst[j].begin_bi.unwrap();
            let e = zs_list.zs_lst[j].end_bi.unwrap();
            let ghost zs_b = zs_list.zs_lst@;
            zs_list.zs_lst[j].set_bi_in(b - 1);
            if e + 1 < n {
                zs_list.zs_lst[j].set_bi_out(e + 1);
            }
            let hi = if e + 1 >= b { e + 1 } else { b };
            zs_list.zs_lst[j].set_bi_lst(b, hi);
            proof {
                let zs1 = zs_list.zs_lst@;
                assert(zs1[j as int].bi_lst@ =~= Seq::new(
                    (hi - b) as nat,
                    |k: int| (b + k) as usize,
                ));
                assert(zs_at(zs1[j as int], zs0[j as int], true, n as int));
                assert forall|k: int| 0 <= k < zs1.len() implies #[trigger] zs_fits(zs1[k], n as int) by {
                    if k != j {
                        assert(zs1[k] == zs_b[k]);
                    }
                }
                assert forall|k: int| 0 <= k < zlen implies zs_at(#[trigger] zs1[k], zs0[k], k >= zcur || k >= j, n as int) by {
                    if k != j {
                        assert(zs1[k] == zs_b[k]);
                    }
                }
            }
        }
        proof {
            let zr = spec_zs_reach(zv0, klu, zlen as int);
            assert(zr == j);
            let a = seg_list.lst@[i as int];
            assert(spec_seg_zs(zv0, klu, sg, j as int, a.zs_lst@) == a.zs_lst@);
            zcur = if zr < zcur { zr } else { zcur };
        }
        if sure_seg_cnt > 2 && !seg_list.lst[i].ele_inside_is_sure {
            let ghost segs2 = seg_list.lst@;
            seg_list.lst[i].ele_inside_is_sure = true;
            proof {
                lemma_segs_same_shape(segs2, seg_list.lst@, lines@);
            }
        }
        proof {
            assert(seg_refreshed(seg_list.lst@[i as int], segs0[i as int], zv0, lines@, segs0, i as int));
            assert forall|k: int| 0 <= k < i implies #[trigger] seg_list.lst@[k] == segs0[k] by {
                assert(seg_list.lst@[k] == segs_a[k]);
            }
            assert forall|k: int| i < k < total implies seg_refreshed(
                #[trigger] seg_list.lst@[k],
                segs0[k],
                zv0,
                lines@,
                segs0,
                k,
            ) by {
                assert(seg_list.lst@[k] == segs_a[k]);
            }
        }
    }
    proof {
        let zf = zvs(zs_list.zs_lst@);
        let goal = spec_zs_in_seg(zv0, lines@, segs0);
        assert forall|j: int| 0 <= j < zlen implies zf[j] == goal[j] by {
            assert(zs_at(zs_list.zs_lst@[j], zs0[j], j >= zcur, n as int));
        }
        assert(zf =~= goal);
        assert forall|j: int| 0 <= j < zlen implies (#[trigger] zs_list.zs_lst@[j]).sub_zs_lst == zs0[j].sub_zs_lst by {
            assert(zs_at(zs_list.zs_lst@[j], zs0[j], j >= zcur, n as int));
        }
    }
}

/// Pivot `a` is pivot `b`, with its lines in, out and between set when
/// `touched`.
spec fn zs_at(a: CZS, b: CZS, touched: bool, n: int) -> bool {
    if touched {
        a.zv() == spec_zs_touch(b.zv(), n) && a.sub_zs_lst == b.sub_zs_lst
    } else {
        a == b
    }
}

/// Changing only what the invariant does not read keeps the segments sound.
proof fn lemma_segs_same_shape(a: Seq<CSeg>, b: Seq<CSeg>, lines: Seq<CLine>)
    requires
        segs_wf(a, lines),
        a.len() == b.len(),
        forall|k: int| 0 <= k < a.len() ==> {
            let x = #[trigger] b[k];
            let y = a[k];
            x.start_bi == y.start_bi && x.end_bi == y.end_bi && x.is_sure == y.is_sure && x.dir == y.dir
                && x.idx == y.idx && x.eigen_fx == y.eigen_fx
        },
    ensures
        segs_wf(b, lines),
{
    assert forall|k: int| 0 <= k < b.len() implies #[trigger] seg_ok(b, lines, k) by {
        assert(seg_ok(a, lines, k));
        let _ = b[k];
        if k > 0 {
            let _ = b[k - 1];
        }
    }
    assert forall|k: int| 0 <= k < b.len() implies #[trigger] crate::seg_list::seg_fx_ok(b, k) by {
        assert(crate::seg_list::seg_fx_ok(a, k));
        let _ = b[k];
    }
}

} // verus!

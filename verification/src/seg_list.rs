use vstd::prelude::*;
use crate::eigen::{lemma_eigen_peak_some, spec_eigen_peak};
use crate::eigen_fx::{drawn_from, in_lst, spec_can_be_end, spec_fx_add, spec_fx_empty, spec_kl_dir, CEigenFX, FxState};
use crate::enums::{BI_DIR, LEFT_SEG_METHOD, SEG_TYPE};
use crate::exception::{CChanException, ErrCode};
use crate::line::{lines_wf, CLine};
use crate::seg::{spec_seg_dir, spec_seg_dirs_ok, spec_seg_new_ok, spec_seg_sure, spec_seg_values_ok, CSeg};
use crate::seg_config::CSegConfig;

verus! {

/// The index of the first line after the segments.
pub open spec fn next_start(segs: Seq<CSeg>) -> int {
    if segs.len() == 0 { 0 } else { segs.last().end_bi + 1 }
}

/// Segment i of the list is sound over the lines: it knows its index, lies
/// inside the lines right after the one before (the first starts at line 0),
/// its fractal's lines lie inside too, and if sure it spans three lines or
/// more and ends beyond its start.
pub open spec fn seg_ok(segs: Seq<CSeg>, lines: Seq<CLine>, i: int) -> bool {
    let s = segs[i];
    &&& s.idx == i
    &&& s.start_bi <= s.end_bi < lines.len()
    &&& (s.eigen_fx matches Some(e) ==> forall|k: int| 0 <= k < e.lst@.len() ==> #[trigger] e.lst@[k] < lines.len())
    &&& s.is_sure ==> s.end_bi - s.start_bi >= 2 && spec_seg_values_ok(lines, s.start_bi as int, s.end_bi as int, s.dir)
    &&& i == 0 ==> s.start_bi == 0
    &&& i > 0 ==> s.start_bi == segs[i - 1].end_bi + 1
}

/// A sure segment keeps the fractal of its characteristic sequence that
/// closed it.
pub open spec fn seg_fx_ok(segs: Seq<CSeg>, i: int) -> bool {
    segs[i].is_sure ==> (segs[i].eigen_fx matches Some(e) && e.found() && e.lst@.len() > 0)
}

pub open spec fn segs_chain(segs: Seq<CSeg>, lines: Seq<CLine>) -> bool {
    forall|i: int| 0 <= i < segs.len() ==> #[trigger] seg_ok(segs, lines, i)
}

/// The invariant of a segment list: the segments follow each other from
/// the first line on without gap or overlap, each sound over the lines.
pub open spec fn segs_wf(segs: Seq<CSeg>, lines: Seq<CLine>) -> bool {
    &&& segs_chain(segs, lines)
    &&& forall|i: int| 0 <= i < segs.len() ==> #[trigger] seg_fx_ok(segs, i)
}

/// `new` starts with `old`: what was there stays as it was.
pub open spec fn segs_extend(old: Seq<CSeg>, new: Seq<CSeg>) -> bool {
    &&& old.len() <= new.len()
    &&& forall|i: int| 0 <= i < old.len() ==> #[trigger] new[i] == old[i]
}

/// A segment made of the lines left, by a cut: it ends at the cut's line,
/// runs the cut's way (or that of its end line), is not sure, holds no
/// pivot nor fractal yet and keeps the cut's reason.
pub open spec fn fresh_seg(s: CSeg, cut: (int, Option<BI_DIR>, Seq<char>), lines: Seq<CLine>) -> bool {
    &&& s.end_bi == cut.0
    &&& s.dir == spec_seg_dir(lines, cut.0, cut.1)
    &&& !s.is_sure
    &&& s.reason@ == cut.2
    &&& s.zs_lst@.len() == 0
    &&& s.eigen_fx is None
    &&& s.seg_idx is None
    &&& !s.ele_inside_is_sure
}

/// `new` is `old` followed by one fresh segment per cut, in order.
pub open spec fn appended(
    old: Seq<CSeg>,
    new: Seq<CSeg>,
    lines: Seq<CLine>,
    cuts: Seq<(int, Option<BI_DIR>, Seq<char>)>,
) -> bool {
    &&& segs_extend(old, new)
    &&& new.len() == old.len() + cuts.len()
    &&& forall|k: int| 0 <= k < cuts.len() ==> #[trigger] fresh_seg(new[old.len() + k], cuts[k], lines)
}

proof fn lemma_appended_trans(
    a: Seq<CSeg>,
    b: Seq<CSeg>,
    c: Seq<CSeg>,
    lines: Seq<CLine>,
    c1: Seq<(int, Option<BI_DIR>, Seq<char>)>,
    c2: Seq<(int, Option<BI_DIR>, Seq<char>)>,
)
    requires
        appended(a, b, lines, c1),
        appended(b, c, lines, c2),
    ensures
        appended(a, c, lines, c1 + c2),
{
    assert forall|k: int| 0 <= k < (c1 + c2).len() implies #[trigger] fresh_seg(c[a.len() + k], (c1 + c2)[k], lines) by {
        if k < c1.len() {
            assert(fresh_seg(b[a.len() + k], c1[k], lines));
            assert(c[a.len() + k] == b[a.len() + k]);
        } else {
            assert(fresh_seg(c[b.len() + (k - c1.len())], c2[k - c1.len()], lines));
        }
    }
}

proof fn lemma_appended_none(a: Seq<CSeg>, lines: Seq<CLine>)
    ensures
        appended(a, a, lines, Seq::empty()),
{
}

/// A segment as the list makes it: where it ends, its way if given (else
/// that of its end line), its reason, whether it is sure, and the fractal
/// that closed it, by its way and its value.
#[verifier::ext_equal]
pub struct SegEvent {
    pub end: int,
    pub dir: Option<BI_DIR>,
    pub reason: Seq<char>,
    pub sure: bool,
    pub fx: Option<(BI_DIR, FxState)>,
}

/// Segment `s` is the one event `ev` makes; it holds no pivot yet.
pub open spec fn made_seg(s: CSeg, ev: SegEvent, lines: Seq<CLine>, lv: SEG_TYPE) -> bool {
    &&& s.end_bi == ev.end
    &&& s.dir == spec_seg_dir(lines, ev.end, ev.dir)
    &&& s.is_sure == ev.sure
    &&& s.reason@ == ev.reason
    &&& s.zs_lst@.len() == 0
    &&& s.seg_idx is None
    &&& !s.ele_inside_is_sure
    &&& match ev.fx {
        None => s.eigen_fx is None,
        Some((d, st)) => s.eigen_fx matches Some(e) && e.dir == d && e.state() == st && !e.exclude_included && e.lv == lv,
    }
}

/// `new` is `old` followed by one segment per event, in order.
pub open spec fn events_appended(old: Seq<CSeg>, new: Seq<CSeg>, lines: Seq<CLine>, lv: SEG_TYPE, evs: Seq<SegEvent>) -> bool {
    &&& segs_extend(old, new)
    &&& new.len() == old.len() + evs.len()
    &&& forall|k: int| 0 <= k < evs.len() ==> #[trigger] made_seg(new[old.len() + k], evs[k], lines, lv)
}

/// Segment `a` keeps the shape of segment `b`: the same lines, sureness,
/// way, index and closing fractal.
pub open spec fn same_shape(a: CSeg, b: CSeg) -> bool {
    &&& a.start_bi == b.start_bi && a.end_bi == b.end_bi
    &&& a.is_sure == b.is_sure && a.dir == b.dir
    &&& a.idx == b.idx && a.eigen_fx == b.eigen_fx
}

/// Segment `s` has the shape event `ev` makes (its pivots and upper
/// segment aside).
pub open spec fn shape_of(s: CSeg, ev: SegEvent, lines: Seq<CLine>, lv: SEG_TYPE) -> bool {
    &&& s.end_bi == ev.end
    &&& s.dir == spec_seg_dir(lines, ev.end, ev.dir)
    &&& s.is_sure == ev.sure
    &&& match ev.fx {
        None => s.eigen_fx is None,
        Some((d, st)) => s.eigen_fx matches Some(e) && e.dir == d && e.state() == st && !e.exclude_included && e.lv == lv,
    }
}

/// `new` has the shapes of `old` followed by one segment per event.
pub open spec fn shaped(old: Seq<CSeg>, new: Seq<CSeg>, lines: Seq<CLine>, lv: SEG_TYPE, evs: Seq<SegEvent>) -> bool {
    &&& new.len() == old.len() + evs.len()
    &&& forall|k: int| 0 <= k < old.len() ==> #[trigger] same_shape(new[k], old[k])
    &&& forall|k: int| 0 <= k < evs.len() ==> #[trigger] shape_of(new[old.len() + k], evs[k], lines, lv)
}

pub proof fn lemma_events_shaped(old: Seq<CSeg>, new: Seq<CSeg>, lines: Seq<CLine>, lv: SEG_TYPE, evs: Seq<SegEvent>)
    requires
        events_appended(old, new, lines, lv, evs),
    ensures
        shaped(old, new, lines, lv, evs),
{
    assert forall|k: int| 0 <= k < old.len() implies #[trigger] same_shape(new[k], old[k]) by {
        assert(new[k] == old[k]);
    }
    assert forall|k: int| 0 <= k < evs.len() implies #[trigger] shape_of(new[old.len() + k], evs[k], lines, lv) by {
        assert(made_seg(new[old.len() + k], evs[k], lines, lv));
    }
}

/// Shapes kept through a change that keeps each segment's shape.
pub proof fn lemma_shaped_frame(
    old: Seq<CSeg>,
    mid: Seq<CSeg>,
    new: Seq<CSeg>,
    lines: Seq<CLine>,
    lv: SEG_TYPE,
    evs: Seq<SegEvent>,
)
    requires
        shaped(old, mid, lines, lv, evs),
        new.len() == mid.len(),
        forall|k: int| 0 <= k < new.len() ==> #[trigger] same_shape(new[k], mid[k]),
    ensures
        shaped(old, new, lines, lv, evs),
{
    assert forall|k: int| 0 <= k < old.len() implies #[trigger] same_shape(new[k], old[k]) by {
        assert(same_shape(new[k], mid[k]));
        assert(same_shape(mid[k], old[k]));
    }
    assert forall|k: int| 0 <= k < evs.len() implies #[trigger] shape_of(new[old.len() + k], evs[k], lines, lv) by {
        assert(same_shape(new[old.len() + k], mid[old.len() + k]));
        assert(shape_of(mid[old.len() + k], evs[k], lines, lv));
    }
}

/// The event of a cut of the lines left: an unsure segment, with no fractal.
pub open spec fn cut_event(c: (int, Option<BI_DIR>, Seq<char>)) -> SegEvent {
    SegEvent { end: c.0, dir: c.1, reason: c.2, sure: false, fx: None }
}

pub open spec fn cut_events(cuts: Seq<(int, Option<BI_DIR>, Seq<char>)>) -> Seq<SegEvent> {
    cuts.map_values(|c: (int, Option<BI_DIR>, Seq<char>)| cut_event(c))
}

proof fn lemma_events_trans(
    a: Seq<CSeg>,
    b: Seq<CSeg>,
    c: Seq<CSeg>,
    lines: Seq<CLine>,
    lv: SEG_TYPE,
    e1: Seq<SegEvent>,
    e2: Seq<SegEvent>,
)
    requires
        events_appended(a, b, lines, lv, e1),
        events_appended(b, c, lines, lv, e2),
    ensures
        events_appended(a, c, lines, lv, e1 + e2),
{
    assert forall|k: int| 0 <= k < (e1 + e2).len() implies #[trigger] made_seg(c[a.len() + k], (e1 + e2)[k], lines, lv) by {
        if k < e1.len() {
            assert(made_seg(b[a.len() + k], e1[k], lines, lv));
            assert(c[a.len() + k] == b[a.len() + k]);
        } else {
            assert(made_seg(c[b.len() + (k - e1.len())], e2[k - e1.len()], lines, lv));
        }
    }
}

proof fn lemma_events_none(a: Seq<CSeg>, lines: Seq<CLine>, lv: SEG_TYPE)
    ensures
        events_appended(a, a, lines, lv, Seq::empty()),
{
}

/// Cuts appended are their events appended.
proof fn lemma_cuts_events(a: Seq<CSeg>, b: Seq<CSeg>, lines: Seq<CLine>, lv: SEG_TYPE, cuts: Seq<(int, Option<BI_DIR>, Seq<char>)>)
    requires
        appended(a, b, lines, cuts),
    ensures
        events_appended(a, b, lines, lv, cut_events(cuts)),
{
    assert forall|k: int| 0 <= k < cut_events(cuts).len() implies #[trigger] made_seg(b[a.len() + k], cut_events(cuts)[k], lines, lv) by {
        assert(fresh_seg(b[a.len() + k], cuts[k], lines));
    }
}

/// One step of the search for a peak line: an up line (for a high) whose end
/// is not below the best so far becomes the best, unless the line two before
/// it ended higher still; likewise down for a low.
pub open spec fn spec_peak_step(lines: Seq<CLine>, st: (i64, Option<usize>), i: int, is_high: bool) -> (i64, Option<usize>) {
    let b = lines[i];
    if (is_high && b.end_val >= st.0 && b.dir == BI_DIR::UP) || (!is_high && b.end_val <= st.0 && b.dir
        == BI_DIR::DOWN) {
        if i >= 2 && ((is_high && lines[i - 2].end_val > b.end_val) || (!is_high && lines[i - 2].end_val
            < b.end_val)) {
            st
        } else {
            (b.end_val, Some(i as usize))
        }
    } else {
        st
    }
}

/// The search for a peak line over the first `j` of the given line indices.
pub open spec fn spec_find_peak(lines: Seq<CLine>, idxs: Seq<usize>, j: int, is_high: bool) -> (i64, Option<usize>)
    decreases j,
{
    if j <= 0 {
        (if is_high { i64::MIN } else { i64::MAX }, None)
    } else {
        spec_peak_step(lines, spec_find_peak(lines, idxs, j - 1, is_high), idxs[j - 1] as int, is_high)
    }
}

/// The peak line among the lines with the given indices, scanned in order.
pub fn find_peak_bi(lines: &Vec<CLine>, idxs: &Vec<usize>, is_high: bool) -> (r: Option<usize>)
    requires
        forall|k: int| 0 <= k < idxs@.len() ==> #[trigger] idxs@[k] < lines@.len(),
    ensures
        r == spec_find_peak(lines@, idxs@, idxs@.len() as int, is_high).1,
        r matches Some(x) ==> x < lines@.len() && lines@[x as int].dir == (if is_high { BI_DIR::UP } else { BI_DIR::DOWN })
            && idxs@.contains(x),
        (exists|k: int| 0 <= k < idxs@.len() && #[trigger] idxs@[k] < 2 && lines@[idxs@[k] as int].dir == (if is_high {
            BI_DIR::UP
        } else {
            BI_DIR::DOWN
        })) ==> r is Some,
{
    let mut peak_val: i64 = if is_high { i64::MIN } else { i64::MAX };
    let mut peak_bi: Option<usize> = None;
    let mut j: usize = 0;
    let want = if is_high { BI_DIR::UP } else { BI_DIR::DOWN };
    while j < idxs.len()
        invariant
            forall|k: int| 0 <= k < idxs@.len() ==> #[trigger] idxs@[k] < lines@.len(),
            j <= idxs@.len(),
            want == (if is_high { BI_DIR::UP } else { BI_DIR::DOWN }),
            (peak_val, peak_bi) == spec_find_peak(lines@, idxs@, j as int, is_high),
            peak_bi is None ==> peak_val == (if is_high { i64::MIN } else { i64::MAX }),
            peak_bi matches Some(x) ==> x < lines@.len() && lines@[x as int].dir == want && idxs@.subrange(0, j as int).contains(x),
            (exists|k: int| 0 <= k < j && #[trigger] idxs@[k] < 2 && lines@[idxs@[k] as int].dir == want) ==> peak_bi is Some,
        decreases idxs@.len() - j,
    {
        let i = idxs[j];
        let b = &lines[i];
        let ghost before = peak_bi;
        if (is_high && b.end_val >= peak_val && b.dir == BI_DIR::UP) || (!is_high && b.end_val <= peak_val
            && b.dir == BI_DIR::DOWN) {
            let skip = i >= 2 && ((is_high && lines[i - 2].end_val > b.end_val) || (!is_high && lines[i
                - 2].end_val < b.end_val));
            if !skip {
                peak_val = b.end_val;
                peak_bi = Some(i);
            }
        }
        proof {
            let s2 = idxs@.subrange(0, j + 1);
            assert(s2[j as int] == i);
            if before is Some && peak_bi == before {
                let x = before->0;
                let w = choose|w: int| 0 <= w < j && idxs@.subrange(0, j as int)[w] == x;
                assert(s2[w] == x);
            }
            assert forall|k: int| 0 <= k < j + 1 && #[trigger] idxs@[k] < 2 && lines@[idxs@[k] as int].dir == want
                implies peak_bi is Some by {
                if k == j {
                    assert(idxs@[k] == i);
                }
            }
        }
        j = j + 1;
    }
    proof {
        assert(idxs@.subrange(0, j as int) =~= idxs@);
    }
    peak_bi
}

/// The indices `lo, lo+1, ..., hi-1`.
fn index_range(lo: usize, hi: usize) -> (r: Vec<usize>)
    requires
        lo <= hi,
    ensures
        r@.len() == hi - lo,
        forall|k: int| 0 <= k < r@.len() ==> #[trigger] r@[k] == lo + k,
{
    let mut v: Vec<usize> = Vec::new();
    let mut i = lo;
    while i < hi
        invariant
            lo <= i <= hi,
            v@.len() == i - lo,
            forall|k: int| 0 <= k < v@.len() ==> #[trigger] v@[k] == lo + k,
        decreases hi - i,
    {
        v.push(i);
        i = i + 1;
    }
    v
}

/// The indices `hi-1, hi-2, ..., 0`.
fn index_range_rev(hi: usize) -> (r: Vec<usize>)
    ensures
        r@.len() == hi,
        forall|k: int| 0 <= k < r@.len() ==> #[trigger] r@[k] == hi - 1 - k,
{
    let mut v: Vec<usize> = Vec::new();
    let mut i = hi;
    while i > 0
        invariant
            i <= hi,
            v@.len() == hi - i,
            forall|k: int| 0 <= k < v@.len() ==> #[trigger] v@[k] == hi - 1 - k,
        decreases i,
    {
        i = i - 1;
        v.push(i);
    }
    v
}

/// Segments found on a list of lines, the way chan theory finds them: by
/// fractals of the characteristic sequence.
pub struct CSegListChan {
    pub lst: Vec<CSeg>,
    pub lv: SEG_TYPE,
    pub config: CSegConfig,
}

/// Pushing a sound segment right after the others keeps the chain sound.
proof fn lemma_chain_push(segs: Seq<CSeg>, s: CSeg, lines: Seq<CLine>)
    requires
        segs_chain(segs, lines),
        seg_ok(segs.push(s), lines, segs.len() as int),
    ensures
        segs_chain(segs.push(s), lines),
{
    let n = segs.push(s);
    assert forall|i: int| 0 <= i < n.len() implies #[trigger] seg_ok(n, lines, i) by {
        if i < segs.len() {
            assert(seg_ok(segs, lines, i));
            assert(n[i] == segs[i]);
            if i > 0 {
                assert(n[i - 1] == segs[i - 1]);
            }
        }
    }
}

/// The line indices `hi-1, hi-2, ..., 0`.
pub open spec fn spec_range_rev(hi: int) -> Seq<usize> {
    Seq::new(hi as nat, |k: int| (hi - 1 - k) as usize)
}

/// Where a first segment ending at line `end` is split: the peak line
/// (the highest up line before a down end, the lowest down line before an
/// up end) among the lines up to three before the end, scanned back, when
/// it goes beyond the first line or is the first line.
pub open spec fn spec_split_at(lines: Seq<CLine>, end: int) -> Option<usize> {
    let is_high = lines[end].dir == BI_DIR::DOWN;
    match spec_find_peak(lines, spec_range_rev(end - 2), end - 2, is_high).1 {
        Some(x) => {
            let pb = lines[x as int];
            if (pb.dir == BI_DIR::DOWN && (pb.low < lines[0].low || x == 0)) || (pb.dir == BI_DIR::UP && (pb.high
                > lines[0].high || x == 0)) {
                Some(x)
            } else {
                None
            }
        },
        None => None,
    }
}

/// What adding a segment ending at line `end` makes, after `nseg` segments
/// with the next starting at line `nstart`: a first segment may be split
/// at a peak in two unsure segments (the first of them split again the
/// same way); otherwise one segment, if it can be made, else the error's
/// code.
pub open spec fn spec_try_add(
    nseg: int,
    nstart: int,
    end: int,
    sure: bool,
    seg_dir: Option<BI_DIR>,
    split: bool,
    reason: Seq<char>,
    lines: Seq<CLine>,
) -> Result<Seq<SegEvent>, ErrCode>
    decreases end,
{
    if nseg == 0 && split && end >= 3 && spec_split_at(lines, end) is Some && spec_split_at(lines, end)->0 < end {
        let x = spec_split_at(lines, end)->0 as int;
        match spec_try_add(0, 0, x, false, Some(lines[x].dir), true, "split_first_1st"@, lines) {
            Ok(evs) => Ok(evs + seq![SegEvent { end, dir: None, reason: "split_first_2nd"@, sure: false, fx: None }]),
            Err(c) => Err(c),
        }
    } else if spec_seg_new_ok(lines, nstart, end, sure, seg_dir) {
        Ok(seq![SegEvent { end, dir: seg_dir, reason, sure: spec_seg_sure(nstart, end, sure), fx: None }])
    } else if !spec_seg_dirs_ok(lines, nstart, end, sure) {
        Err(ErrCode::CommonError)
    } else {
        Err(ErrCode::SegEndValueErr)
    }
}

impl CSegListChan {
    pub open spec fn wf(&self, lines: Seq<CLine>) -> bool {
        segs_wf(self.lst@, lines)
    }

    pub fn new(seg_config: CSegConfig, lv: SEG_TYPE) -> (r: Self)
        ensures
            r.lst@.len() == 0,
            r.lv == lv,
            r.config == seg_config,
    {
        CSegListChan { lst: Vec::new(), lv, config: seg_config }
    }

    pub fn len(&self) -> (r: usize)
        ensures
            r == self.lst@.len(),
    {
        self.lst.len()
    }

    pub fn is_empty(&self) -> (r: bool)
        ensures
            r == (self.lst@.len() == 0),
    {
        self.lst.len() == 0
    }

    /// Whether some segment is sure.
    pub fn exist_sure_seg(&self) -> (r: bool)
        ensures
            r == exists|i: int| 0 <= i < self.lst@.len() && (#[trigger] self.lst@[i]).is_sure,
    {
        let mut i: usize = 0;
        while i < self.lst.len()
            invariant
                i <= self.lst@.len(),
                forall|k: int| 0 <= k < i ==> !(#[trigger] self.lst@[k]).is_sure,
            decreases self.lst@.len() - i,
        {
            if self.lst[i].is_sure {
                return true;
            }
            i = i + 1;
        }
        false
    }

    /// Appends the segment ending at line `end_bi_idx`, starting after the
    /// last one. With `split_first_seg`, a first segment whose earlier part
    /// holds a line beyond the first line's extreme is split there in two
    /// unsure segments.
    pub fn try_add_new_seg(
        &mut self,
        lines: &Vec<CLine>,
        end_bi_idx: usize,
        is_sure: bool,
        seg_dir: Option<BI_DIR>,
        split_first_seg: bool,
        reason: &str,
    ) -> (r: Result<(), CChanException>)
        requires
            lines_wf(lines@),
            segs_wf(old(self).lst@, lines@),
            next_start(old(self).lst@) <= end_bi_idx < lines@.len(),
        ensures
            final(self).lv == old(self).lv,
            final(self).config == old(self).config,
            r is Err ==> final(self).lst@ == old(self).lst@,
            r is Err ==> !spec_seg_new_ok(lines@, next_start(old(self).lst@), end_bi_idx as int, is_sure, seg_dir),
            old(self).lst@.len() == 0 ==> (r matches Err(e) ==> e.errcode == ErrCode::SegEndValueErr),
            !is_sure ==> r is Ok,
            r is Ok ==> {
                &&& segs_chain(final(self).lst@, lines@)
                &&& segs_extend(old(self).lst@, final(self).lst@)
                &&& final(self).lst@.len() > old(self).lst@.len()
                &&& final(self).lst@.last().end_bi == end_bi_idx
                &&& forall|i: int| old(self).lst@.len() <= i < final(self).lst@.len() - 1 ==> !(#[trigger] final(self).lst@[i]).is_sure
                &&& forall|i: int| old(self).lst@.len() <= i < final(self).lst@.len() ==> (#[trigger] final(self).lst@[i]).eigen_fx is None
                &&& final(self).lst@.last().is_sure ==> is_sure
                &&& (!is_sure ==> segs_wf(final(self).lst@, lines@))
            },
            (old(self).lst@.len() > 0 || !split_first_seg) && r is Ok ==> final(self).lst@.len() == old(self).lst@.len() + 1,
            r is Ok && final(self).lst@.len() == old(self).lst@.len() + 1 ==> ({
                let s = final(self).lst@.last();
                &&& s.start_bi == next_start(old(self).lst@)
                &&& s.is_sure == spec_seg_sure(next_start(old(self).lst@), end_bi_idx as int, is_sure)
                &&& s.dir == spec_seg_dir(lines@, end_bi_idx as int, seg_dir)
            }),
            !is_sure && (old(self).lst@.len() > 0 || !split_first_seg) ==> appended(
                old(self).lst@,
                final(self).lst@,
                lines@,
                seq![(end_bi_idx as int, seg_dir, reason@)],
            ),
            match spec_try_add(
                old(self).lst@.len() as int,
                next_start(old(self).lst@),
                end_bi_idx as int,
                is_sure,
                seg_dir,
                split_first_seg,
                reason@,
                lines@,
            ) {
                Ok(evs) => r is Ok && events_appended(old(self).lst@, final(self).lst@, lines@, old(self).lv, evs),
                Err(c) => (r matches Err(e) && e.errcode == c) && final(self).lst@ == old(self).lst@,
            },
        decreases (if old(self).lst@.len() == 0 { 1int } else { 0int }), end_bi_idx, 0int,
    {
        if self.lst.len() == 0 && split_first_seg && end_bi_idx >= 3 {
            let idxs = index_range_rev(end_bi_idx - 2);
            let peak = find_peak_bi(lines, &idxs, lines[end_bi_idx].is_down());
            proof {
                assert(idxs@ =~= spec_range_rev(end_bi_idx - 2));
                assert(peak == spec_find_peak(lines@, spec_range_rev(end_bi_idx - 2), end_bi_idx - 2, lines@[end_bi_idx as int].dir == BI_DIR::DOWN).1);
            }
            if let Some(p) = peak {
                let pb = &lines[p];
                if (pb.is_down() && (pb.low < lines[0].low || p == 0)) || (pb.is_up() && (pb.high > lines[0].high
                    || p == 0)) {
                    proof {
                        let w = choose|w: int| 0 <= w < idxs@.len() && idxs@[w] == p;
                        assert(idxs@[w] == end_bi_idx - 2 - 1 - w);
                    }
                    let ghost lst0 = self.lst@;
                    let r1 = self.add_new_seg(lines, p, false, Some(pb.dir), true, "split_first_1st");
                    let ghost mid = self.lst@;
                    let ghost sp1 = spec_try_add(0, 0, p as int, false, Some(lines@[p as int].dir), true, "split_first_1st"@, lines@);
                    proof {
                        assert(spec_split_at(lines@, end_bi_idx as int) == Some(p));
                        assert(sp1 is Ok);
                        assert(sp1->Ok_0.len() >= 1);
                        assert(mid.len() >= 1);
                    }
                    let _ = self.add_new_seg(lines, end_bi_idx, false, None, true, "split_first_2nd");
                    proof {
                        let ev2 = SegEvent { end: end_bi_idx as int, dir: None, reason: "split_first_2nd"@, sure: false, fx: None };
                        assert(spec_try_add(mid.len() as int, next_start(mid), end_bi_idx as int, false, None, true, "split_first_2nd"@, lines@) == Ok::<Seq<SegEvent>, ErrCode>(seq![ev2]));
                        lemma_events_trans(lst0, mid, self.lst@, lines@, self.lv, sp1->Ok_0, seq![ev2]);
                    }
                    proof {
                        assert forall|i: int| 0 <= i < self.lst@.len() - 1 implies !(#[trigger] self.lst@[i]).is_sure by {
                            if i < mid.len() {
                                assert(self.lst@[i] == mid[i]);
                            }
                        }
                        assert forall|i: int| 0 <= i < self.lst@.len() implies (#[trigger] self.lst@[i]).eigen_fx is None by {
                            if i < mid.len() {
                                assert(self.lst@[i] == mid[i]);
                            }
                        }
                    }
                    return Ok(());
                }
            }
        }
        let bi1_idx = if self.lst.len() == 0 {
            0
        } else {
            self.lst[self.lst.len() - 1].end_bi + 1
        };
        let new_seg = CSeg::new(self.lst.len(), bi1_idx, end_bi_idx, is_sure, seg_dir, reason, lines);
        match new_seg {
            Ok(s) => {
                let ghost old_lst = self.lst@;
                self.lst.push(s);
                proof {
                    let ev = SegEvent { end: end_bi_idx as int, dir: seg_dir, reason: reason@, sure: spec_seg_sure(bi1_idx as int, end_bi_idx as int, is_sure), fx: None };
                    assert(made_seg(self.lst@[old_lst.len() as int + 0], seq![ev][0], lines@, self.lv));
                    assert(self.lst@ == old_lst.push(s));
                    if old_lst.len() > 0 {
                        assert(self.lst@[old_lst.len() - 1] == old_lst.last());
                    }
                    assert(seg_ok(self.lst@, lines@, old_lst.len() as int));
                    lemma_chain_push(old_lst, s, lines@);
                    if !is_sure {
                        assert forall|i: int| 0 <= i < self.lst@.len() implies #[trigger] seg_fx_ok(self.lst@, i) by {
                            if i < old_lst.len() {
                                assert(seg_fx_ok(old_lst, i));
                            }
                        }
                    }
                }
                Ok(())
            },
            Err(e) => Err(e),
        }
    }

    /// Appends a segment as `try_add_new_seg` does; a first segment refused
    /// for its end values is skipped (false), other refusals are errors.
    pub fn add_new_seg(
        &mut self,
        lines: &Vec<CLine>,
        end_bi_idx: usize,
        is_sure: bool,
        seg_dir: Option<BI_DIR>,
        split_first_seg: bool,
        reason: &str,
    ) -> (r: Result<bool, CChanException>)
        requires
            lines_wf(lines@),
            segs_wf(old(self).lst@, lines@),
            next_start(old(self).lst@) <= end_bi_idx < lines@.len(),
        ensures
            final(self).lv == old(self).lv,
            final(self).config == old(self).config,
            !(r matches Ok(true)) ==> final(self).lst@ == old(self).lst@,
            !is_sure ==> r == Ok::<bool, CChanException>(true),
            r == Ok::<bool, CChanException>(false) ==> old(self).lst@.len() == 0,
            r is Err ==> old(self).lst@.len() > 0,
            r matches Ok(true) ==> {
                &&& segs_chain(final(self).lst@, lines@)
                &&& segs_extend(old(self).lst@, final(self).lst@)
                &&& final(self).lst@.len() > old(self).lst@.len()
                &&& final(self).lst@.last().end_bi == end_bi_idx
                &&& forall|i: int| old(self).lst@.len() <= i < final(self).lst@.len() - 1 ==> !(#[trigger] final(self).lst@[i]).is_sure
                &&& forall|i: int| old(self).lst@.len() <= i < final(self).lst@.len() ==> (#[trigger] final(self).lst@[i]).eigen_fx is None
                &&& final(self).lst@.last().is_sure ==> is_sure
                &&& (!is_sure ==> segs_wf(final(self).lst@, lines@))
            },
            (old(self).lst@.len() > 0 || !split_first_seg) && r == Ok::<bool, CChanException>(true) ==> final(self).lst@.len() == old(self).lst@.len() + 1,
            r == Ok::<bool, CChanException>(true) && final(self).lst@.len() == old(self).lst@.len() + 1 ==> ({
                let s = final(self).lst@.last();
                &&& s.start_bi == next_start(old(self).lst@)
                &&& s.is_sure == spec_seg_sure(next_start(old(self).lst@), end_bi_idx as int, is_sure)
                &&& s.dir == spec_seg_dir(lines@, end_bi_idx as int, seg_dir)
            }),
            !is_sure && (old(self).lst@.len() > 0 || !split_first_seg) ==> appended(
                old(self).lst@,
                final(self).lst@,
                lines@,
                seq![(end_bi_idx as int, seg_dir, reason@)],
            ),
            match spec_try_add(
                old(self).lst@.len() as int,
                next_start(old(self).lst@),
                end_bi_idx as int,
                is_sure,
                seg_dir,
                split_first_seg,
                reason@,
                lines@,
            ) {
                Ok(evs) => r == Ok::<bool, CChanException>(true) && events_appended(old(self).lst@, final(self).lst@, lines@, old(self).lv, evs),
                Err(c) => final(self).lst@ == old(self).lst@ && (if c == ErrCode::SegEndValueErr && old(self).lst@.len() == 0 {
                    r == Ok::<bool, CChanException>(false)
                } else {
                    r matches Err(e) && e.errcode == c
                }),
            },
        decreases (if old(self).lst@.len() == 0 { 1int } else { 0int }), end_bi_idx, 1int,
    {
        let was_empty = self.lst.len() == 0;
        match self.try_add_new_seg(lines, end_bi_idx, is_sure, seg_dir, split_first_seg, reason) {
            Ok(()) => Ok(true),
            Err(e) => {
                if e.errcode == ErrCode::SegEndValueErr && was_empty {
                    Ok(false)
                } else {
                    Err(e)
                }
            },
        }
    }
}

/// Lines drawn from lines at or after `lo` are at or after `lo`.
proof fn lemma_drawn_lower(a: Seq<usize>, b: Seq<usize>, lo: int)
    requires
        drawn_from(a, b),
        forall|k: int| 0 <= k < b.len() ==> #[trigger] b[k] >= lo,
    ensures
        forall|k: int| 0 <= k < a.len() ==> #[trigger] a[k] >= lo,
{
    assert forall|k: int| 0 <= k < a.len() implies #[trigger] a[k] >= lo by {
        assert(b.contains(a[k]));
        let w = choose|w: int| 0 <= w < b.len() && b[w] == a[k];
    }
}

/// A characteristic-sequence fractal that is ready to close a segment, over
/// lines from `begin` on.
pub open spec fn fx_ready(e: CEigenFX, lines: Seq<CLine>, begin: int) -> bool {
    &&& e.inv(lines)
    &&& e.found()
    &&& forall|k: int| 0 <= k < e.lst@.len() ==> #[trigger] e.lst@[k] >= begin
}

/// The state of one of the two fractal searches while scanning line `i`.
pub open spec fn scan_ok(e: CEigenFX, lines: Seq<CLine>, dir: BI_DIR, begin: int, i: int) -> bool {
    &&& e.inv(lines)
    &&& e.dir == dir
    &&& e.ele2 is None
    &&& forall|k: int| 0 <= k < e.lst@.len() ==> begin <= #[trigger] e.lst@[k] < i
}

/// Where the segment closed by a fractal ends: the line before the peak of
/// its middle element.
pub open spec fn spec_fx_end(e: CEigenFX, lines: Seq<CLine>) -> int {
    (spec_eigen_peak(e.e1()->0, lines, lines[(e.e1()->0).lst[0] as int].dir != BI_DIR::UP))->0 - 1
}

/// A fractal ready over lines from `begin` closes a segment at a line from
/// `begin` on, before the last line; it has at least two lines, the second
/// after `begin`.
proof fn lemma_fx_end(e: CEigenFX, lines: Seq<CLine>, begin: int)
    requires
        fx_ready(e, lines, begin),
    ensures
        begin <= spec_fx_end(e, lines) < lines.len() - 1,
        e.lst@.len() >= 2,
        begin < e.lst@[1] < lines.len(),
{
    let e0 = e.e0()->0;
    let e1 = e.e1()->0;
    lemma_eigen_peak_some(e1, lines, lines[e1.lst[0] as int].dir != BI_DIR::UP);
    let p = (spec_eigen_peak(e1, lines, lines[e1.lst[0] as int].dir != BI_DIR::UP))->0;
    let j = choose|j: int| 0 <= j < e1.lst.len() && e1.lst[j] == p;
    assert(e0.lst[0] < e1.lst[j]);
    assert(e.lst@.contains(e0.lst[0]));
    let w0 = choose|w: int| 0 <= w < e.lst@.len() && e.lst@[w] == e0.lst[0];
    assert(e.lst@[w0] >= begin);
    assert(e.lst@.contains(e1.lst[0]));
    let w1 = choose|w: int| 0 <= w < e.lst@.len() && e.lst@[w] == e1.lst[0];
    assert(e0.lst[0] < e1.lst[0]);
    assert(w0 != w1);
    assert(e.lst@.len() >= 2);
    assert(e.lst@[0] < e.lst@[1]);
    assert(e.lst@[0] >= begin);
}

/// A search that has forgotten its elements and lines.
pub open spec fn spec_fx_cleared(s: FxState) -> FxState {
    FxState { e0: None, e1: None, e2: None, lst: Seq::empty(), ..s }
}

/// One line fed to the two searches: a down line to the search for an up
/// segment's end and an up line to the other, unless the way is fixed
/// against it. Gives each search after it and whether it found a fractal.
pub open spec fn spec_sure_feed(
    up: FxState,
    down: FxState,
    last_dir: Option<BI_DIR>,
    b: CLine,
) -> ((FxState, bool), (FxState, bool)) {
    let feed_up = b.dir == BI_DIR::DOWN && last_dir != Some(BI_DIR::UP);
    let feed_down = !feed_up && b.dir == BI_DIR::UP && last_dir != Some(BI_DIR::DOWN);
    (
        if feed_up { spec_fx_add(up, b, BI_DIR::UP, spec_kl_dir(BI_DIR::UP)) } else { (up, false) },
        if feed_down { spec_fx_add(down, b, BI_DIR::DOWN, spec_kl_dir(BI_DIR::DOWN)) } else { (down, false) },
    )
}

/// With no segment yet, the way is fixed by which search has a second
/// element after line `b` (the other search starts over), and released
/// when that search has lost it.
pub open spec fn spec_sure_fix(
    up: FxState,
    down: FxState,
    last_dir: Option<BI_DIR>,
    first: bool,
    b: CLine,
) -> (FxState, FxState, Option<BI_DIR>) {
    let a: (FxState, FxState, Option<BI_DIR>) = if first && up.e1 is Some && b.dir == BI_DIR::DOWN {
        (up, spec_fx_cleared(down), Some(BI_DIR::DOWN))
    } else if first && down.e1 is Some && b.dir == BI_DIR::UP {
        (spec_fx_cleared(up), down, Some(BI_DIR::UP))
    } else {
        (up, down, last_dir)
    };
    let ld: Option<BI_DIR> = if first && a.0.e1 is None && a.2 == Some(BI_DIR::DOWN) && b.dir == BI_DIR::DOWN {
        None
    } else if first && a.1.e1 is None && a.2 == Some(BI_DIR::UP) && b.dir == BI_DIR::UP {
        None
    } else {
        a.2
    };
    (a.0, a.1, ld)
}

/// The scan for a fractal that closes a segment, from line `i` on, with
/// the two searches and the way fixed so far (`first`: no segment yet).
/// Gives the way and the search that found a fractal.
pub open spec fn spec_sure_scan(
    up: FxState,
    down: FxState,
    last_dir: Option<BI_DIR>,
    first: bool,
    lines: Seq<CLine>,
    i: int,
) -> Option<(BI_DIR, FxState)>
    decreases lines.len() - i,
{
    if i < 0 || i >= lines.len() {
        None
    } else {
        let b = lines[i];
        let f = spec_sure_feed(up, down, last_dir, b);
        let a = spec_sure_fix(f.0.0, f.1.0, last_dir, first, b);
        if f.0.1 {
            Some((BI_DIR::UP, a.0))
        } else if f.1.1 {
            Some((BI_DIR::DOWN, a.1))
        } else {
            spec_sure_scan(a.0, a.1, a.2, first, lines, i + 1)
        }
    }
}

/// The way of the last segment, if any.
pub open spec fn last_dir_of(segs: Seq<CSeg>) -> Option<BI_DIR> {
    if segs.len() == 0 { None } else { Some(segs.last().dir) }
}

/// Whether the lines kept by a fractal search, and the line that confirmed
/// its fractal, are all sure.
pub open spec fn spec_fx_all_sure(st: FxState, lines: Seq<CLine>) -> bool {
    &&& forall|k: int| 0 <= k < st.lst.len() ==> #[trigger] lines[st.lst[k] as int].is_sure
    &&& lines[st.evidence->0 as int].is_sure
}

/// The sure segments found from line `begin` on, after `nseg` segments
/// with the next starting at line `nstart` and the last running
/// `last_dir`: the events of the segments made, and the code of the error
/// that stopped the search, if any.
pub open spec fn spec_cal_sure(
    nseg: int,
    nstart: int,
    last_dir: Option<BI_DIR>,
    begin: int,
    lines: Seq<CLine>,
) -> (Seq<SegEvent>, Option<ErrCode>)
    decreases lines.len() - begin, 1int,
{
    let init = if nseg == 0 { None } else { last_dir };
    if begin > lines.len() {
        (Seq::empty(), None)
    } else {
        match spec_sure_scan(spec_fx_empty(), spec_fx_empty(), init, nseg == 0, lines, begin) {
            None => (Seq::empty(), None),
            Some((d, st)) => spec_treat_fx(nseg, nstart, last_dir, d, st, begin, lines),
        }
    }
}

/// What a fractal found from line `begin` on makes: one that cannot end a
/// segment sends the search on from its second line; otherwise a segment
/// ends at the line before the peak of its middle element (sure when the
/// fractal was confirmed and all its lines are sure), keeping the fractal,
/// and the search goes on after it when the fractal was confirmed. A first
/// segment refused for its end values is skipped.
pub open spec fn spec_treat_fx(
    nseg: int,
    nstart: int,
    last_dir: Option<BI_DIR>,
    d: BI_DIR,
    st: FxState,
    begin: int,
    lines: Seq<CLine>,
) -> (Seq<SegEvent>, Option<ErrCode>)
    decreases lines.len() - begin, 0int,
{
    let e1 = st.e1->0;
    let end = (spec_eigen_peak(e1, lines, lines[e1.lst[0] as int].dir != BI_DIR::UP))->0 - 1;
    let test = spec_can_be_end(st, d, lines);
    if begin > lines.len() {
        (Seq::empty(), None)
    } else if test == Some(false) {
        if st.lst.len() >= 2 && begin < st.lst[1] <= lines.len() {
            spec_cal_sure(nseg, nstart, last_dir, st.lst[1] as int, lines)
        } else {
            (Seq::empty(), None)
        }
    } else {
        let is_true = test is Some;
        let sure = is_true && spec_fx_all_sure(st, lines);
        match spec_try_add(nseg, nstart, end, sure, None, true, "normal"@, lines) {
            Err(c) => if c == ErrCode::SegEndValueErr && nseg == 0 {
                if begin < end + 1 <= lines.len() {
                    spec_cal_sure(nseg, nstart, last_dir, end + 1, lines)
                } else {
                    (Seq::empty(), None)
                }
            } else {
                (Seq::empty(), Some(c))
            },
            Ok(evs) => {
                let last = evs.last();
                let evs2 = evs.update(evs.len() - 1, SegEvent { fx: Some((d, st)), ..last });
                if is_true && begin < end + 1 <= lines.len() && evs.len() > 0 {
                    let rest = spec_cal_sure(
                        nseg + evs.len(),
                        end + 1,
                        Some(spec_seg_dir(lines, last.end, last.dir)),
                        end + 1,
                        lines,
                    );
                    (evs2 + rest.0, rest.1)
                } else {
                    (evs2, None)
                }
            },
        }
    }
}

impl CSegListChan {
    /// Scans the lines from `begin` for a fractal of the characteristic
    /// sequence of an up segment (fed down lines) or a down one (fed up
    /// lines); after a segment only the way opposite to it is looked for. With
    /// no segment yet, the way is fixed by which sequence first has a second
    /// element, and released when that sequence loses it.
    fn cal_seg_sure_inner(&self, lines: &Vec<CLine>, begin: usize) -> (r: Option<CEigenFX>)
        requires
            lines_wf(lines@),
            begin <= lines@.len(),
        ensures
            r matches Some(e) ==> fx_ready(e, lines@, begin as int),
            ({
                let init: Option<BI_DIR> = if self.lst@.len() == 0 { None } else { Some(self.lst@.last().dir) };
                let sc = spec_sure_scan(spec_fx_empty(), spec_fx_empty(), init, self.lst@.len() == 0, lines@, begin as int);
                &&& r is Some <==> sc is Some
                &&& r matches Some(e) ==> sc == Some((e.dir, e.state())) && !e.exclude_included && e.lv == self.lv
            }),
    {
        let mut up_eigen = CEigenFX::new(BI_DIR::UP, false, self.lv);
        let mut down_eigen = CEigenFX::new(BI_DIR::DOWN, false, self.lv);
        let mut last_seg_dir: Option<BI_DIR> = if self.lst.len() == 0 {
            None
        } else {
            Some(self.lst[self.lst.len() - 1].dir)
        };
        let n = lines.len();
        let mut i = begin;
        let ghost first = self.lst@.len() == 0;
        let ghost init0 = last_seg_dir;
        let ghost goal = spec_sure_scan(spec_fx_empty(), spec_fx_empty(), last_seg_dir, first, lines@, begin as int);
        proof {
            assert(up_eigen.state() =~= spec_fx_empty());
            assert(down_eigen.state() =~= spec_fx_empty());
        }
        while i < n
            invariant
                lines_wf(lines@),
                n == lines@.len(),
                begin <= i <= n,
                scan_ok(up_eigen, lines@, BI_DIR::UP, begin as int, i as int),
                scan_ok(down_eigen, lines@, BI_DIR::DOWN, begin as int, i as int),
                first == (self.lst@.len() == 0),
                !up_eigen.exclude_included && !down_eigen.exclude_included,
                up_eigen.lv == self.lv && down_eigen.lv == self.lv,
                goal == spec_sure_scan(up_eigen.state(), down_eigen.state(), last_seg_dir, first, lines@, i as int),
                goal == spec_sure_scan(spec_fx_empty(), spec_fx_empty(), init0, first, lines@, begin as int),
                init0 == (if self.lst@.len() == 0 { None } else { Some(self.lst@.last().dir) }),
                up_eigen.dir == BI_DIR::UP && down_eigen.dir == BI_DIR::DOWN,
            decreases n - i,
        {
            let bi = &lines[i];
            proof {
                assert(lines@[i as int].idx == i);
            }
            let ghost su = up_eigen.state();
            let ghost sd = down_eigen.state();
            let ghost ld0 = last_seg_dir;
            let mut fx_dir: Option<BI_DIR> = None;
            if bi.dir == BI_DIR::DOWN && last_seg_dir != Some(BI_DIR::UP) {
                let ghost before = up_eigen.lst@;
                if up_eigen.add(bi, lines) {
                    fx_dir = Some(BI_DIR::UP);
                }
                proof {
                    assert forall|k: int| 0 <= k < before.push(i).len() implies #[trigger] before.push(i)[k] >= begin by {
                        if k < before.len() {
                            assert(before.push(i)[k] == before[k]);
                        }
                    }
                    lemma_drawn_lower(up_eigen.lst@, before.push(i), begin as int);
                }
            } else if bi.dir == BI_DIR::UP && last_seg_dir != Some(BI_DIR::DOWN) {
                let ghost before = down_eigen.lst@;
                if down_eigen.add(bi, lines) {
                    fx_dir = Some(BI_DIR::DOWN);
                }
                proof {
                    assert forall|k: int| 0 <= k < before.push(i).len() implies #[trigger] before.push(i)[k] >= begin by {
                        if k < before.len() {
                            assert(before.push(i)[k] == before[k]);
                        }
                    }
                    lemma_drawn_lower(down_eigen.lst@, before.push(i), begin as int);
                }
            }
            let ghost f = spec_sure_feed(su, sd, ld0, lines@[i as int]);
            proof {
                assert(up_eigen.state() == f.0.0 && down_eigen.state() == f.1.0);
                assert((fx_dir == Some(BI_DIR::UP)) == f.0.1);
                assert((fx_dir == Some(BI_DIR::DOWN)) == f.1.1);
            }
            if self.lst.len() == 0 {
                if up_eigen.ele1.is_some() && bi.is_down() {
                    last_seg_dir = Some(BI_DIR::DOWN);
                    down_eigen.clear();
                } else if down_eigen.ele1.is_some() && bi.is_up() {
                    up_eigen.clear();
                    last_seg_dir = Some(BI_DIR::UP);
                }
                if up_eigen.ele1.is_none() && last_seg_dir == Some(BI_DIR::DOWN) && bi.dir == BI_DIR::DOWN {
                    last_seg_dir = None;
                } else if down_eigen.ele1.is_none() && last_seg_dir == Some(BI_DIR::UP) && bi.dir == BI_DIR::UP {
                    last_seg_dir = None;
                }
            }
            proof {
                let a = spec_sure_fix(f.0.0, f.1.0, ld0, first, lines@[i as int]);
                assert(up_eigen.state() =~= a.0);
                assert(down_eigen.state() =~= a.1);
                assert(last_seg_dir == a.2);
            }
            if fx_dir == Some(BI_DIR::UP) {
                return Some(up_eigen);
            } else if fx_dir == Some(BI_DIR::DOWN) {
                return Some(down_eigen);
            }
            i = i + 1;
        }
        None
    }

    /// Finds the sure segments from line `begin` on.
    fn cal_seg_sure(&mut self, lines: &Vec<CLine>, begin: usize) -> (r: Result<(), CChanException>)
        requires
            lines_wf(lines@),
            segs_wf(old(self).lst@, lines@),
            next_start(old(self).lst@) <= begin <= lines@.len(),
        ensures
            segs_wf(final(self).lst@, lines@),
            segs_extend(old(self).lst@, final(self).lst@),
            final(self).lv == old(self).lv,
            final(self).config == old(self).config,
            ({
                let res = spec_cal_sure(
                    old(self).lst@.len() as int,
                    next_start(old(self).lst@),
                    last_dir_of(old(self).lst@),
                    begin as int,
                    lines@,
                );
                &&& events_appended(old(self).lst@, final(self).lst@, lines@, old(self).lv, res.0)
                &&& r is Err <==> res.1 is Some
                &&& r matches Err(e) ==> res.1 == Some(e.errcode)
            }),
        decreases lines@.len() - begin, 1int,
    {
        let fx = self.cal_seg_sure_inner(lines, begin);
        match fx {
            Some(e) => {
                proof {
                    lemma_fx_end(e, lines@, begin as int);
                }
                self.treat_fx_eigen(e, lines, Ghost(begin as int))
            },
            None => {
                proof {
                    assert forall|i: int| 0 <= i < self.lst@.len() implies #[trigger] self.lst@[i] == old(self).lst@[i] by {}
                }
                Ok(())
            },
        }
    }

    /// Closes a segment at a fractal that can end it (or whose test ran out
    /// of lines) and goes on after it; a fractal that cannot end it makes the
    /// search start again from its second line.
    #[verifier::spinoff_prover]
    #[verifier::rlimit(60)]
    fn treat_fx_eigen(&mut self, fx_eigen: CEigenFX, lines: &Vec<CLine>, Ghost(begin): Ghost<int>) -> (r: Result<(), CChanException>)
        requires
            lines_wf(lines@),
            segs_wf(old(self).lst@, lines@),
            next_start(old(self).lst@) <= begin < lines@.len(),
            fx_ready(fx_eigen, lines@, begin),
            fx_eigen.lv == old(self).lv,
            !fx_eigen.exclude_included,
        ensures
            segs_wf(final(self).lst@, lines@),
            segs_extend(old(self).lst@, final(self).lst@),
            final(self).lv == old(self).lv,
            final(self).config == old(self).config,
            ({
                let res = spec_treat_fx(
                    old(self).lst@.len() as int,
                    next_start(old(self).lst@),
                    last_dir_of(old(self).lst@),
                    fx_eigen.dir,
                    fx_eigen.state(),
                    begin,
                    lines@,
                );
                &&& events_appended(old(self).lst@, final(self).lst@, lines@, old(self).lv, res.0)
                &&& r is Err <==> res.1 is Some
                &&& r matches Err(e) ==> res.1 == Some(e.errcode)
            }),
        decreases lines@.len() - begin, 0int,
    {
        let mut fx_eigen = fx_eigen;
        let test = fx_eigen.can_be_end(lines);
        let end_bi_idx = fx_eigen.get_peak_bi_idx(lines);
        proof {
            lemma_fx_end(fx_eigen, lines@, begin);
            assert(end_bi_idx == spec_fx_end(fx_eigen, lines@));
        }
        match test {
            Some(false) => {
                let nb = fx_eigen.lst[1];
                self.cal_seg_sure(lines, nb)
            },
            _ => {
                let is_true = test.is_some();
                let sure = is_true && fx_eigen.all_bi_is_sure(lines);
                let ghost lst0 = self.lst@;
                let ghost sp = spec_try_add(
                    lst0.len() as int,
                    next_start(lst0),
                    end_bi_idx as int,
                    sure,
                    None,
                    true,
                    "normal"@,
                    lines@,
                );
                proof {
                    if sp is Ok {
                        assert(sp->Ok_0.len() >= 1 && sp->Ok_0.last().end == end_bi_idx);
                    }
                }
                match self.add_new_seg(lines, end_bi_idx, sure, None, true, "normal") {
                    Err(e) => {
                        return Err(e);
                    },
                    Ok(false) => {
                        return self.cal_seg_sure(lines, end_bi_idx + 1);
                    },
                    Ok(true) => {},
                }
                let ghost lst1 = self.lst@;
                let mut last = self.lst.pop().unwrap();
                proof {
                    assert(fx_eigen.e0() is Some);
                    let e0 = fx_eigen.e0()->0;
                    assert(fx_eigen.lst@.contains(e0.lst[0]));
                }
                last.eigen_fx = Some(fx_eigen);
                self.lst.push(last);
                proof {
                    let l2 = self.lst@;
                    let m = lst1.len() - 1;
                    assert forall|i: int| 0 <= i < m implies #[trigger] l2[i] == lst1[i] by {}
                    assert forall|i: int| 0 <= i < l2.len() implies #[trigger] seg_ok(l2, lines@, i) by {
                        assert(seg_ok(lst1, lines@, i));
                        if i > 0 && i - 1 < m {
                            assert(l2[i - 1] == lst1[i - 1]);
                        }
                    }
                    assert forall|i: int| 0 <= i < l2.len() implies #[trigger] seg_fx_ok(l2, i) by {
                        if i < lst0.len() {
                            assert(seg_fx_ok(lst0, i));
                            assert(lst1[i] == lst0[i]);
                        } else if i < m {
                            assert(!lst1[i].is_sure);
                        }
                    }
                    assert forall|i: int| 0 <= i < lst0.len() implies #[trigger] l2[i] == lst0[i] by {
                        assert(lst1[i] == lst0[i]);
                    }
                    let evs = sp->Ok_0;
                    let evs2 = evs.update(evs.len() - 1, SegEvent { fx: Some((fx_eigen.dir, fx_eigen.state())), ..evs.last() });
                    assert forall|k: int| 0 <= k < evs2.len() implies #[trigger] made_seg(l2[lst0.len() + k], evs2[k], lines@, self.lv) by {
                        assert(made_seg(lst1[lst0.len() + k], evs[k], lines@, self.lv));
                        if k < evs.len() - 1 {
                            assert(l2[lst0.len() + k] == lst1[lst0.len() + k]);
                        }
                    }
                    assert(events_appended(lst0, l2, lines@, self.lv, evs2));
                }
                if is_true {
                    let ghost lst2 = self.lst@;
                    let r = self.cal_seg_sure(lines, end_bi_idx + 1);
                    proof {
                        assert forall|i: int| 0 <= i < lst0.len() implies #[trigger] self.lst@[i] == lst0[i] by {
                            assert(self.lst@[i] == lst2[i]);
                        }
                        let evs = sp->Ok_0;
                        let evs2 = evs.update(evs.len() - 1, SegEvent { fx: Some((fx_eigen.dir, fx_eigen.state())), ..evs.last() });
                        let rest = spec_cal_sure(lst2.len() as int, next_start(lst2), last_dir_of(lst2), end_bi_idx + 1, lines@);
                        assert(lst2.len() == lst0.len() + evs.len());
                        assert(made_seg(lst2[lst0.len() + (evs.len() - 1)], evs2[evs.len() - 1], lines@, self.lv));
                        assert(next_start(lst2) == end_bi_idx + 1);
                        assert(last_dir_of(lst2) == Some(spec_seg_dir(lines@, evs.last().end, evs.last().dir)));
                        lemma_events_trans(lst0, lst2, self.lst@, lines@, self.lv, evs2, rest.0);
                    }
                    r
                } else {
                    Ok(())
                }
            },
        }
    }
}

/// In a well-formed list, two lines run the same way exactly when an even
/// number of steps lies between them.
pub proof fn lemma_dir_parity(lines: Seq<CLine>, i: int, j: int)
    requires
        lines_wf(lines),
        0 <= i <= j < lines.len(),
    ensures
        (lines[i].dir == lines[j].dir) <==> (j - i) % 2 == 0,
    decreases j - i,
{
    if j > i {
        lemma_dir_parity(lines, i, j - 1);
        assert(lines[(j - 1) + 1].dir != lines[j - 1].dir);
    }
}

/// The highest high of the first `n` lines.
pub open spec fn spec_lines_high(lines: Seq<CLine>, n: int) -> i64
    decreases n,
{
    if n <= 0 {
        i64::MIN
    } else {
        let h = spec_lines_high(lines, n - 1);
        if lines[n - 1].high > h { lines[n - 1].high } else { h }
    }
}

/// The lowest low of the first `n` lines.
pub open spec fn spec_lines_low(lines: Seq<CLine>, n: int) -> i64
    decreases n,
{
    if n <= 0 {
        i64::MAX
    } else {
        let l = spec_lines_low(lines, n - 1);
        if lines[n - 1].low < l { lines[n - 1].low } else { l }
    }
}

pub open spec fn abs_diff(a: i64, b: i64) -> int {
    if a >= b { a - b } else { b - a }
}

/// The segments left after dropping unsure ones from the end.
pub open spec fn spec_drop_unsure(segs: Seq<CSeg>) -> Seq<CSeg>
    decreases segs.len(),
{
    if segs.len() > 0 && !segs.last().is_sure {
        spec_drop_unsure(segs.drop_last())
    } else {
        segs
    }
}

/// What is kept of the segments before they are found again: the sure ones,
/// less the last one if a line of its closing fractal is not sure yet.
pub open spec fn spec_do_init(segs: Seq<CSeg>, lines: Seq<CLine>) -> Seq<CSeg> {
    let s = spec_drop_unsure(segs);
    if s.len() > 0 && (s.last().eigen_fx matches Some(e) && e.lst@.len() > 0 && !lines[e.lst@.last() as int].is_sure) {
        s.drop_last()
    } else {
        s
    }
}

/// A line after the segments goes beyond the last segment's end line: above
/// it if that line goes up, below if down.
pub open spec fn spec_left_bi_break(segs: Seq<CSeg>, lines: Seq<CLine>) -> bool {
    segs.len() > 0 && exists|j: int| segs.last().end_bi < j < lines.len() && #[trigger] breaks_end(lines, segs.last().end_bi as int, j)
}

pub open spec fn breaks_end(lines: Seq<CLine>, e: int, j: int) -> bool {
    (lines[e].dir == BI_DIR::UP && lines[j].high > lines[e].high) || (lines[e].dir == BI_DIR::DOWN && lines[j].low
        < lines[e].low)
}

/// Dropping the last segment keeps the list sound.
proof fn lemma_wf_drop_last(segs: Seq<CSeg>, lines: Seq<CLine>)
    requires
        segs_wf(segs, lines),
        segs.len() > 0,
    ensures
        segs_wf(segs.drop_last(), lines),
{
    let d = segs.drop_last();
    assert forall|i: int| 0 <= i < d.len() implies #[trigger] seg_ok(d, lines, i) by {
        assert(seg_ok(segs, lines, i));
        assert(d[i] == segs[i]);
        if i > 0 {
            assert(d[i - 1] == segs[i - 1]);
        }
    }
    assert forall|i: int| 0 <= i < d.len() implies #[trigger] seg_fx_ok(d, i) by {
        assert(seg_fx_ok(segs, i));
    }
}

impl CSegListChan {
    /// Drops the segments that will be found again: the unsure ones at the
    /// end, and the last sure one if its closing fractal holds a line that
    /// is not sure yet.
    pub fn do_init(&mut self, lines: &Vec<CLine>)
        requires
            segs_wf(old(self).lst@, lines@),
        ensures
            final(self).lst@ == spec_do_init(old(self).lst@, lines@),
            segs_wf(final(self).lst@, lines@),
            final(self).lv == old(self).lv,
            final(self).config == old(self).config,
    {
        while self.lst.len() > 0 && !self.lst[self.lst.len() - 1].is_sure
            invariant
                segs_wf(self.lst@, lines@),
                spec_drop_unsure(self.lst@) == spec_drop_unsure(old(self).lst@),
                self.lv == old(self).lv,
                self.config == old(self).config,
            decreases self.lst@.len(),
        {
            let ghost before = self.lst@;
            self.lst.pop();
            proof {
                assert(self.lst@ == before.drop_last());
                lemma_wf_drop_last(before, lines@);
            }
        }
        proof {
            assert(spec_drop_unsure(self.lst@) == self.lst@);
        }
        let n = self.lst.len();
        if n > 0 {
            proof {
                assert(seg_fx_ok(self.lst@, n - 1));
                assert(seg_ok(self.lst@, lines@, n - 1));
            }
            let e = self.lst[n - 1].eigen_fx.as_ref().unwrap();
            let last_line = e.lst[e.lst.len() - 1];
            if !lines[last_line].is_sure {
                let ghost before = self.lst@;
                self.lst.pop();
                proof {
                    assert(self.lst@ == before.drop_last());
                    lemma_wf_drop_last(before, lines@);
                }
            }
        }
    }

    /// Whether a line after the last segment goes beyond that segment's end
    /// line.
    pub fn left_bi_break(&self, lines: &Vec<CLine>) -> (r: bool)
        requires
            segs_wf(self.lst@, lines@),
        ensures
            r == spec_left_bi_break(self.lst@, lines@),
    {
        if self.lst.len() == 0 {
            return false;
        }
        let e = self.lst[self.lst.len() - 1].end_bi;
        let n = lines.len();
        proof {
            assert(seg_ok(self.lst@, lines@, self.lst@.len() - 1));
            assert(e < n);
        }
        let mut j = e + 1;
        while j < lines.len()
            invariant
                self.lst@.len() > 0,
                e == self.lst@.last().end_bi,
                e < lines@.len(),
                e + 1 <= j <= lines@.len(),
                forall|k: int| e < k < j ==> !#[trigger] breaks_end(lines@, e as int, k),
            decreases lines@.len() - j,
        {
            if (lines[e].is_up() && lines[j].high > lines[e].high) || (lines[e].is_down() && lines[j].low < lines[e].low) {
                proof {
                    assert(breaks_end(lines@, e as int, j as int));
                    assert(self.lst@.last().end_bi < j < lines@.len());
                }
                return true;
            }
            j = j + 1;
        }
        false
    }

    /// Makes the lines after the last segment one more unsure segment: up to
    /// the last line, or the one before it when the last line runs the way
    /// of the last segment's end line.
    pub fn collect_left_as_seg(&mut self, lines: &Vec<CLine>)
        requires
            lines_wf(lines@),
            segs_wf(old(self).lst@, lines@),
            old(self).lst@.len() > 0,
        ensures
            segs_wf(final(self).lst@, lines@),
            segs_extend(old(self).lst@, final(self).lst@),
            final(self).lv == old(self).lv,
            final(self).config == old(self).config,
            appended(old(self).lst@, final(self).lst@, lines@, spec_left_cuts(old(self).lst@.last().end_bi as int, lines@)),
            next_start(old(self).lst@) >= lines@.len() ==> final(self).lst@ == old(self).lst@,
            next_start(old(self).lst@) < lines@.len() ==> ({
                let e = old(self).lst@.last().end_bi as int;
                let last = lines@.len() - 1;
                &&& final(self).lst@.len() == old(self).lst@.len() + 1
                &&& final(self).lst@.last().end_bi == (if lines@[e].dir == lines@[last].dir { last - 1 } else { last })
                &&& !final(self).lst@.last().is_sure
            }),
    {
        let n = lines.len();
        let last_end = self.lst[self.lst.len() - 1].end_bi;
        proof {
            assert(seg_ok(self.lst@, lines@, self.lst@.len() - 1));
        }
        if last_end + 1 >= n {
            proof {
                assert forall|i: int| 0 <= i < self.lst@.len() implies #[trigger] self.lst@[i] == old(self).lst@[i] by {}
            }
            return;
        }
        let end = if lines[last_end].dir == lines[n - 1].dir {
            proof {
                lemma_dir_parity(lines@, last_end as int, n - 1);
            }
            n - 2
        } else {
            n - 1
        };
        let _ = self.add_new_seg(lines, end, false, None, true, "collect_left");
    }
}

/// The line indices `lo, lo+1, ..., hi-1`.
pub open spec fn spec_range(lo: int, hi: int) -> Seq<usize> {
    Seq::new((hi - lo) as nat, |k: int| (lo + k) as usize)
}

/// Where the first segment found by peaks ends: at the highest up line if
/// the lines reach farther up than down from where they start, else at the
/// lowest down line.
pub open spec fn spec_first_peak(lines: Seq<CLine>) -> (bool, Option<usize>) {
    let n = lines.len() as int;
    let first = lines[0].begin_val;
    let is_high = abs_diff(spec_lines_high(lines, n), first) >= abs_diff(spec_lines_low(lines, n), first);
    (is_high, spec_find_peak(lines, spec_range(0, n), n, is_high).1)
}

/// The segment of the lines after line `e`: up to the last line, or the
/// one before it when the last line runs the way of line `e`.
pub open spec fn spec_left_cuts(e: int, lines: Seq<CLine>) -> Seq<(int, Option<BI_DIR>, Seq<char>)> {
    let n = lines.len() as int;
    if e + 1 >= n {
        Seq::empty()
    } else {
        let end = if lines[e].dir == lines[n - 1].dir { n - 2 } else { n - 1 };
        seq![(end, None::<BI_DIR>, "collect_left"@)]
    }
}

/// The way of a segment ending at a high (up) or a low (down).
pub open spec fn spec_peak_dir(is_high: bool) -> BI_DIR {
    if is_high { BI_DIR::UP } else { BI_DIR::DOWN }
}

/// The peak line from three lines after line `e` on: the highest up line
/// after a down line `e`, the lowest down line after an up one.
pub open spec fn spec_peak_after(e: int, lines: Seq<CLine>, is_high: bool) -> Option<usize> {
    let n = lines.len() as int;
    spec_find_peak(lines, spec_range(e + 3, n), n - e - 3, is_high).1
}

/// The segments after line `e` by the peak method: one to the peak after
/// it, when there is one three lines on or more, then the rest.
pub open spec fn spec_peak_method_cuts(e: int, lines: Seq<CLine>) -> Seq<(int, Option<BI_DIR>, Seq<char>)> {
    let is_high = lines[e].dir == BI_DIR::DOWN;
    let p = spec_peak_after(e, lines, is_high);
    if p is Some && p->0 - e >= 3 {
        let x = p->0 as int;
        let reason = if is_high { "collectleft_find_high"@ } else { "collectleft_find_low"@ };
        seq![(x, Some(spec_peak_dir(is_high)), reason)] + spec_left_cuts(x, lines)
    } else {
        spec_left_cuts(e, lines)
    }
}

/// The segments made of the lines after the last segment, which ends at
/// line `e`: none with fewer than three lines left; when the lines have
/// come back past line `e`, one to the peak the other way and on again
/// from there; otherwise the rest as one segment, or by the peak method.
pub open spec fn spec_collect_cuts(e: int, lines: Seq<CLine>, method: LEFT_SEG_METHOD) -> Seq<(int, Option<BI_DIR>, Seq<char>)>
    decreases lines.len() - e,
{
    let n = lines.len() as int;
    if e < 0 || e >= n || n - 1 - e < 3 {
        Seq::empty()
    } else {
        let down_back = lines[e].dir == BI_DIR::DOWN && lines[n - 1].end_val <= lines[e].end_val;
        let up_back = lines[e].dir == BI_DIR::UP && lines[n - 1].end_val >= lines[e].end_val;
        if down_back || up_back {
            let is_high = down_back;
            match spec_peak_after(e, lines, is_high) {
                Some(x) => if e < x < n {
                    let reason = if is_high { "collectleft_find_high_force"@ } else { "collectleft_find_low_force"@ };
                    seq![(x as int, Some(spec_peak_dir(is_high)), reason)] + spec_collect_cuts(x as int, lines, method)
                } else {
                    Seq::empty()
                },
                None => Seq::empty(),
            }
        } else if method == LEFT_SEG_METHOD::ALL {
            spec_left_cuts(e, lines)
        } else {
            spec_peak_method_cuts(e, lines)
        }
    }
}

/// The first segments when there are none: with fewer than three lines
/// none; with the peak method one to the farthest peak, then the rest;
/// otherwise all lines as one segment, up when the last line ends at or
/// above where the first begins.
pub open spec fn spec_first_cuts(lines: Seq<CLine>, method: LEFT_SEG_METHOD) -> Seq<(int, Option<BI_DIR>, Seq<char>)> {
    let n = lines.len() as int;
    if n < 3 {
        Seq::empty()
    } else if method == LEFT_SEG_METHOD::PEAK {
        let (is_high, p) = spec_first_peak(lines);
        match p {
            Some(x) => {
                let reason = if is_high { "0seg_find_high"@ } else { "0seg_find_low"@ };
                seq![(x as int, Some(spec_peak_dir(is_high)), reason)] + spec_left_cuts(x as int, lines)
            },
            None => Seq::empty(),
        }
    } else {
        let d = if lines[n - 1].end_val >= lines[0].begin_val { BI_DIR::UP } else { BI_DIR::DOWN };
        seq![(n - 1, Some(d), "0seg_collect_all"@)]
    }
}

/// The segments made of the lines that no segment covers.
pub open spec fn spec_left_seg_cuts(segs: Seq<CSeg>, lines: Seq<CLine>, method: LEFT_SEG_METHOD) -> Seq<(int, Option<BI_DIR>, Seq<char>)> {
    if segs.len() == 0 {
        spec_first_cuts(lines, method)
    } else {
        spec_collect_cuts(segs.last().end_bi as int, lines, method)
    }
}

/// The segments found again over the lines: the settled ones are kept,
/// sure segments are found after them, then the lines left are cut into
/// segments; an error stops it after the sure segments made so far. Gives
/// the events of the segments after the kept ones, and the error's code.
pub open spec fn spec_seg_update(segs: Seq<CSeg>, lines: Seq<CLine>, method: LEFT_SEG_METHOD) -> (Seq<SegEvent>, Option<ErrCode>) {
    let init = spec_do_init(segs, lines);
    let res = spec_cal_sure(init.len() as int, next_start(init), last_dir_of(init), next_start(init), lines);
    if res.1 is Some {
        res
    } else {
        let n = init.len() + res.0.len();
        let last_end: int = if res.0.len() > 0 { res.0.last().end } else { init.last().end_bi as int };
        let left = if n == 0 { spec_first_cuts(lines, method) } else { spec_collect_cuts(last_end, lines, method) };
        (res.0 + cut_events(left), None)
    }
}

impl CSegListChan {
    /// The highest high and lowest low of all lines.
    fn lines_extremes(lines: &Vec<CLine>) -> (r: (i64, i64))
        ensures
            r.0 == spec_lines_high(lines@, lines@.len() as int),
            r.1 == spec_lines_low(lines@, lines@.len() as int),
    {
        let mut high: i64 = i64::MIN;
        let mut low: i64 = i64::MAX;
        let mut i: usize = 0;
        while i < lines.len()
            invariant
                i <= lines@.len(),
                high == spec_lines_high(lines@, i as int),
                low == spec_lines_low(lines@, i as int),
            decreases lines@.len() - i,
        {
            if lines[i].high > high {
                high = lines[i].high;
            }
            if lines[i].low < low {
                low = lines[i].low;
            }
            i = i + 1;
        }
        (high, low)
    }

    /// The first segments when none is sure: with the peak method, from the
    /// first line to the farthest peak, then the rest as one more segment;
    /// otherwise all lines as one segment, up if the last line ends at or
    /// above where the first begins. Fewer than three lines make none.
    pub fn collect_first_seg(&mut self, lines: &Vec<CLine>)
        requires
            lines_wf(lines@),
            old(self).lst@.len() == 0,
        ensures
            segs_wf(final(self).lst@, lines@),
            final(self).lv == old(self).lv,
            final(self).config == old(self).config,
            forall|i: int| 0 <= i < final(self).lst@.len() ==> !(#[trigger] final(self).lst@[i]).is_sure,
            lines@.len() < 3 ==> final(self).lst@.len() == 0,
            lines@.len() >= 3 ==> final(self).lst@.len() >= 1,
            lines@.len() >= 3 && old(self).config.left_method == LEFT_SEG_METHOD::ALL ==> ({
                let s = final(self).lst@[0];
                &&& final(self).lst@.len() == 1
                &&& s.end_bi == lines@.len() - 1
                &&& s.dir == (if lines@.last().end_val >= lines@[0].begin_val { BI_DIR::UP } else { BI_DIR::DOWN })
            }),
            lines@.len() >= 3 && old(self).config.left_method == LEFT_SEG_METHOD::PEAK ==> ({
                let (is_high, p) = spec_first_peak(lines@);
                &&& p is Some
                &&& final(self).lst@[0].end_bi == p->0
                &&& final(self).lst@[0].dir == (if is_high { BI_DIR::UP } else { BI_DIR::DOWN })
            }),
            appended(old(self).lst@, final(self).lst@, lines@, spec_first_cuts(lines@, old(self).config.left_method)),
    {
        let n = lines.len();
        if n < 3 {
            proof {
                lemma_appended_none(self.lst@, lines@);
            }
            return;
        }
        match self.config.left_method {
            LEFT_SEG_METHOD::PEAK => {
                let (high, low) = Self::lines_extremes(lines);
                let first_val = lines[0].begin_val;
                let dh: i128 = if high >= first_val { high as i128 - first_val as i128 } else { first_val as i128 - high as i128 };
                let dl: i128 = if low >= first_val { low as i128 - first_val as i128 } else { first_val as i128 - low as i128 };
                let is_high = dh >= dl;
                let idxs = index_range(0, n);
                proof {
                    assert(idxs@ =~= spec_range(0, n as int));
                    assert(lines@[0int + 1].dir != lines@[0int].dir);
                    assert(idxs@[0] == 0 && idxs@[1] == 1);
                    let want = if is_high { BI_DIR::UP } else { BI_DIR::DOWN };
                    if lines@[0].dir == want {
                        assert(idxs@[0] < 2 && lines@[idxs@[0] as int].dir == want);
                    } else {
                        assert(idxs@[1] < 2 && lines@[idxs@[1] as int].dir == want);
                    }
                }
                let peak = find_peak_bi(lines, &idxs, is_high);
                let p = peak.unwrap();
                let d = if is_high { BI_DIR::UP } else { BI_DIR::DOWN };
                let reason = if is_high { "0seg_find_high" } else { "0seg_find_low" };
                let _ = self.add_new_seg(lines, p, false, Some(d), false, reason);
                let ghost one = self.lst@;
                proof {
                    assert(fresh_seg(one[0int], seq![(p as int, Some(d), reason@)][0], lines@));
                }
                self.collect_left_as_seg(lines);
                proof {
                    let c1 = seq![(p as int, Some(d), reason@)];
                    lemma_appended_trans(old(self).lst@, one, self.lst@, lines@, c1, spec_left_cuts(p as int, lines@));
                    assert(c1 + spec_left_cuts(p as int, lines@) =~= spec_first_cuts(lines@, self.config.left_method));
                    assert(self.lst@[0] == one[0]);
                    assert forall|i: int| 0 <= i < self.lst@.len() implies !(#[trigger] self.lst@[i]).is_sure by {
                        if i < one.len() {
                            assert(self.lst@[i] == one[i]);
                        }
                    }
                }
            },
            LEFT_SEG_METHOD::ALL => {
                let d = if lines[n - 1].end_val >= lines[0].begin_val { BI_DIR::UP } else { BI_DIR::DOWN };
                let _ = self.add_new_seg(lines, n - 1, false, Some(d), false, "0seg_collect_all");
            },
        }
    }

    /// After a down (up) last segment, an unsure up (down) segment to the
    /// highest (lowest) peak from three lines on, if there is one; then the
    /// rest as one more segment.
    pub fn collect_left_seg_peak_method(&mut self, last_seg_end_bi: usize, lines: &Vec<CLine>)
        requires
            lines_wf(lines@),
            segs_wf(old(self).lst@, lines@),
            old(self).lst@.len() > 0,
            last_seg_end_bi == old(self).lst@.last().end_bi,
            last_seg_end_bi + 3 <= lines@.len(),
        ensures
            segs_wf(final(self).lst@, lines@),
            segs_extend(old(self).lst@, final(self).lst@),
            final(self).lv == old(self).lv,
            final(self).config == old(self).config,
            appended(old(self).lst@, final(self).lst@, lines@, spec_peak_method_cuts(last_seg_end_bi as int, lines@)),
            forall|i: int| old(self).lst@.len() <= i < final(self).lst@.len() ==> !(#[trigger] final(self).lst@[i]).is_sure,
            ({
                let is_high = lines@[last_seg_end_bi as int].dir == BI_DIR::DOWN;
                let p = spec_find_peak(lines@, spec_range(last_seg_end_bi + 3, lines@.len() as int), lines@.len() - last_seg_end_bi - 3, is_high).1;
                p matches Some(x) ==> final(self).lst@[old(self).lst@.len() as int].end_bi == x
                    && final(self).lst@[old(self).lst@.len() as int].dir == (if is_high { BI_DIR::UP } else { BI_DIR::DOWN })
            }),
    {
        let n = lines.len();
        let idxs = index_range(last_seg_end_bi + 3, n);
        proof {
            assert(idxs@ =~= spec_range(last_seg_end_bi + 3, n as int));
        }
        let is_high = lines[last_seg_end_bi].is_down();
        let peak = find_peak_bi(lines, &idxs, is_high);
        let ghost old_lst = self.lst@;
        let ghost mut c1: Seq<(int, Option<BI_DIR>, Seq<char>)> = Seq::empty();
        if let Some(p) = peak {
            proof {
                let w = choose|w: int| 0 <= w < idxs@.len() && idxs@[w] == p;
            }
            if p - last_seg_end_bi >= 3 {
                let d = if is_high { BI_DIR::UP } else { BI_DIR::DOWN };
                let reason = if is_high { "collectleft_find_high" } else { "collectleft_find_low" };
                let _ = self.add_new_seg(lines, p, false, Some(d), true, reason);
                proof {
                    c1 = seq![(p as int, Some(d), reason@)];
                }
            }
        }
        let ghost mid = self.lst@;
        proof {
            if c1.len() == 0 {
                lemma_appended_none(old_lst, lines@);
                assert(mid == old_lst);
            } else {
                assert(fresh_seg(mid[old_lst.len() as int + 0], c1[0], lines@));
            }
        }
        self.collect_left_as_seg(lines);
        proof {
            lemma_appended_trans(old_lst, mid, self.lst@, lines@, c1, spec_left_cuts(mid.last().end_bi as int, lines@));
            assert(c1 + spec_left_cuts(mid.last().end_bi as int, lines@) =~= spec_peak_method_cuts(last_seg_end_bi as int, lines@));
            assert forall|i: int| 0 <= i < old_lst.len() implies #[trigger] self.lst@[i] == old_lst[i] by {
                assert(self.lst@[i] == mid[i]);
            }
            assert forall|i: int| old_lst.len() <= i < self.lst@.len() implies !(#[trigger] self.lst@[i]).is_sure by {
                if i < mid.len() {
                    assert(self.lst@[i] == mid[i]);
                }
            }
            if mid.len() > old_lst.len() {
                assert(self.lst@[old_lst.len() as int] == mid[old_lst.len() as int]);
            }
        }
    }

    /// Makes segments of the lines after the last one: when the lines have
    /// gone back past the last segment's end, a forced segment to the peak
    /// the other way and on again; otherwise as the configuration says.
    pub fn collect_segs(&mut self, lines: &Vec<CLine>)
        requires
            lines_wf(lines@),
            segs_wf(old(self).lst@, lines@),
            old(self).lst@.len() > 0,
        ensures
            segs_wf(final(self).lst@, lines@),
            segs_extend(old(self).lst@, final(self).lst@),
            final(self).lv == old(self).lv,
            final(self).config == old(self).config,
            forall|i: int| old(self).lst@.len() <= i < final(self).lst@.len() ==> !(#[trigger] final(self).lst@[i]).is_sure,
            appended(
                old(self).lst@,
                final(self).lst@,
                lines@,
                spec_collect_cuts(old(self).lst@.last().end_bi as int, lines@, old(self).config.left_method),
            ),
        decreases lines@.len() - next_start(old(self).lst@), 0int,
    {
        let n = lines.len();
        let last_end = self.lst[self.lst.len() - 1].end_bi;
        proof {
            assert(seg_ok(self.lst@, lines@, self.lst@.len() - 1));
        }
        if n - 1 - last_end < 3 {
            proof {
                assert forall|i: int| 0 <= i < self.lst@.len() implies #[trigger] self.lst@[i] == old(self).lst@[i] by {}
                lemma_appended_none(self.lst@, lines@);
            }
            return;
        }
        let ghost old_lst = self.lst@;
        let down_back = lines[last_end].is_down() && lines[n - 1].end_val <= lines[last_end].end_val;
        let up_back = lines[last_end].is_up() && lines[n - 1].end_val >= lines[last_end].end_val;
        if down_back || up_back {
            let is_high = down_back;
            let idxs = index_range(last_end + 3, n);
            proof {
                assert(idxs@ =~= spec_range(last_end + 3, n as int));
            }
            let peak = find_peak_bi(lines, &idxs, is_high);
            proof {
                assert(peak == spec_peak_after(last_end as int, lines@, is_high));
            }
            if let Some(p) = peak {
                proof {
                    let w = choose|w: int| 0 <= w < idxs@.len() && idxs@[w] == p;
                    assert(last_end < p < n);
                }
                let d = if is_high { BI_DIR::UP } else { BI_DIR::DOWN };
                let reason = if is_high { "collectleft_find_high_force" } else { "collectleft_find_low_force" };
                let _ = self.add_new_seg(lines, p, false, Some(d), true, reason);
                let ghost mid = self.lst@;
                proof {
                    assert(fresh_seg(mid[old_lst.len() as int + 0], seq![(p as int, Some(d), reason@)][0], lines@));
                }
                self.collect_left_seg(lines);
                proof {
                    let c1 = seq![(p as int, Some(d), reason@)];
                    let c2 = spec_left_seg_cuts(mid, lines@, self.config.left_method);
                    lemma_appended_trans(old_lst, mid, self.lst@, lines@, c1, c2);
                    assert(c2 == spec_collect_cuts(p as int, lines@, self.config.left_method));
                    assert(c1 + c2 =~= spec_collect_cuts(last_end as int, lines@, self.config.left_method));
                    assert forall|i: int| 0 <= i < old_lst.len() implies #[trigger] self.lst@[i] == old_lst[i] by {
                        assert(self.lst@[i] == mid[i]);
                    }
                    assert forall|i: int| old_lst.len() <= i < self.lst@.len() implies !(#[trigger] self.lst@[i]).is_sure by {
                        if i < mid.len() {
                            assert(self.lst@[i] == mid[i]);
                        }
                    }
                }
            } else {
                proof {
                    assert forall|i: int| 0 <= i < self.lst@.len() implies #[trigger] self.lst@[i] == old(self).lst@[i] by {}
                    lemma_appended_none(self.lst@, lines@);
                }
            }
        } else if self.config.left_method == LEFT_SEG_METHOD::ALL {
            self.collect_left_as_seg(lines);
        } else {
            self.collect_left_seg_peak_method(last_end, lines);
        }
    }

    /// Makes segments of the lines that no sure segment covers.
    pub fn collect_left_seg(&mut self, lines: &Vec<CLine>)
        requires
            lines_wf(lines@),
            segs_wf(old(self).lst@, lines@),
        ensures
            segs_wf(final(self).lst@, lines@),
            segs_extend(old(self).lst@, final(self).lst@),
            final(self).lv == old(self).lv,
            final(self).config == old(self).config,
            forall|i: int| old(self).lst@.len() <= i < final(self).lst@.len() ==> !(#[trigger] final(self).lst@[i]).is_sure,
            lines@.len() >= 3 ==> final(self).lst@.len() >= 1,
            appended(old(self).lst@, final(self).lst@, lines@, spec_left_seg_cuts(old(self).lst@, lines@, old(self).config.left_method)),
        decreases lines@.len() - next_start(old(self).lst@), 1int,
    {
        if self.lst.len() == 0 {
            self.collect_first_seg(lines);
        } else {
            proof {
                assert(seg_ok(self.lst@, lines@, self.lst@.len() - 1));
            }
            self.collect_segs(lines);
        }
    }

    /// Finds the segments again over the current lines: keeps the settled
    /// ones, finds sure segments after them, then makes segments of what is
    /// left. An error comes from a sure segment that cannot be made.
    pub fn update(&mut self, lines: &Vec<CLine>) -> (r: Result<(), CChanException>)
        requires
            lines_wf(lines@),
            segs_wf(old(self).lst@, lines@),
        ensures
            segs_wf(final(self).lst@, lines@),
            segs_extend(spec_do_init(old(self).lst@, lines@), final(self).lst@),
            final(self).lv == old(self).lv,
            final(self).config == old(self).config,
            r is Ok && lines@.len() >= 3 ==> final(self).lst@.len() >= 1,
            ({
                let res = spec_seg_update(old(self).lst@, lines@, old(self).config.left_method);
                &&& events_appended(spec_do_init(old(self).lst@, lines@), final(self).lst@, lines@, old(self).lv, res.0)
                &&& r is Err <==> res.1 is Some
                &&& r matches Err(e) ==> res.1 == Some(e.errcode)
            }),
    {
        self.do_init(lines);
        let n = lines.len();
        let ghost kept = self.lst@;
        let begin = if self.lst.len() == 0 {
            0
        } else {
            proof {
                assert(seg_ok(self.lst@, lines@, self.lst@.len() - 1));
            }
            self.lst[self.lst.len() - 1].end_bi + 1
        };
        match self.cal_seg_sure(lines, begin) {
            Err(e) => {
                return Err(e);
            },
            Ok(()) => {},
        }
        let ghost mid = self.lst@;
        self.collect_left_seg(lines);
        proof {
            assert forall|i: int| 0 <= i < kept.len() implies #[trigger] self.lst@[i] == kept[i] by {
                assert(self.lst@[i] == mid[i]);
            }
            let res = spec_cal_sure(kept.len() as int, next_start(kept), last_dir_of(kept), next_start(kept), lines@);
            let cuts = spec_left_seg_cuts(mid, lines@, self.config.left_method);
            if res.0.len() > 0 {
                assert(made_seg(mid[kept.len() + (res.0.len() - 1)], res.0[res.0.len() - 1], lines@, self.lv));
            }
            lemma_cuts_events(mid, self.lst@, lines@, self.lv, cuts);
            lemma_events_trans(kept, mid, self.lst@, lines@, self.lv, res.0, cut_events(cuts));
        }
        Ok(())
    }
}

/// Whether every index in the list is below `n`.
pub fn indices_below(v: &Vec<usize>, n: usize) -> (r: bool)
    ensures
        r == forall|k: int| 0 <= k < v@.len() ==> #[trigger] v@[k] < n,
{
    let mut k: usize = 0;
    while k < v.len()
        invariant
            k <= v@.len(),
            forall|m: int| 0 <= m < k ==> #[trigger] v@[m] < n,
        decreases v@.len() - k,
    {
        if v[k] >= n {
            return false;
        }
        k = k + 1;
    }
    true
}

/// Whether a list of lines is well formed: indices in order and directions
/// alternating.
pub fn check_lines_wf(lines: &Vec<CLine>) -> (r: bool)
    ensures
        r == lines_wf(lines@),
{
    let n = lines.len();
    let mut i: usize = 0;
    while i < n
        invariant
            n == lines@.len(),
            i <= n,
            forall|k: int| 0 <= k < i ==> (#[trigger] lines@[k]).idx == k,
            forall|k: int| 0 <= k < i && k < n - 1 ==> #[trigger] lines@[k + 1].dir != lines@[k].dir,
        decreases n - i,
    {
        if lines[i].idx != i {
            return false;
        }
        if i + 1 < n && lines[i + 1].dir == lines[i].dir {
            return false;
        }
        i = i + 1;
    }
    true
}

impl CSegListChan {
    /// Whether the segments are sound over these lines, as `update` needs.
    pub fn fits_lines(&self, lines: &Vec<CLine>) -> (r: bool)
        ensures
            r == segs_wf(self.lst@, lines@),
    {
        let n = lines.len();
        let mut i: usize = 0;
        while i < self.lst.len()
            invariant
                n == lines@.len(),
                i <= self.lst@.len(),
                forall|k: int| 0 <= k < i ==> #[trigger] seg_ok(self.lst@, lines@, k),
                forall|k: int| 0 <= k < i ==> #[trigger] seg_fx_ok(self.lst@, k),
            decreases self.lst@.len() - i,
        {
            let sg = &self.lst[i];
            if sg.idx != i || sg.start_bi > sg.end_bi || sg.end_bi >= n {
                proof {
                    assert(!seg_ok(self.lst@, lines@, i as int));
                }
                return false;
            }
            if i == 0 && sg.start_bi != 0 {
                proof {
                    assert(!seg_ok(self.lst@, lines@, i as int));
                }
                return false;
            }
            proof {
                if i > 0 {
                    assert(seg_ok(self.lst@, lines@, i - 1));
                }
            }
            if i > 0 && sg.start_bi != self.lst[i - 1].end_bi + 1 {
                proof {
                    assert(!seg_ok(self.lst@, lines@, i as int));
                }
                return false;
            }
            if sg.is_sure {
                let values_ok = if sg.dir == BI_DIR::DOWN {
                    lines[sg.start_bi].begin_val >= lines[sg.end_bi].end_val
                } else {
                    lines[sg.start_bi].begin_val <= lines[sg.end_bi].end_val
                };
                if sg.end_bi - sg.start_bi < 2 || !values_ok {
                    proof {
                        assert(!seg_ok(self.lst@, lines@, i as int));
                    }
                    return false;
                }
            }
            match &sg.eigen_fx {
                Some(e) => {
                    if !indices_below(&e.lst, n) {
                        proof {
                            assert(!seg_ok(self.lst@, lines@, i as int));
                        }
                        return false;
                    }
                    if sg.is_sure && (!e.is_found() || e.lst.len() == 0) {
                        proof {
                            assert(!seg_fx_ok(self.lst@, i as int));
                        }
                        return false;
                    }
                },
                None => {
                    if sg.is_sure {
                        proof {
                            assert(!seg_fx_ok(self.lst@, i as int));
                        }
                        return false;
                    }
                },
            }
            proof {
                assert(seg_ok(self.lst@, lines@, i as int));
                assert(seg_fx_ok(self.lst@, i as int));
            }
            i = i + 1;
        }
        true
    }
}

} // verus!

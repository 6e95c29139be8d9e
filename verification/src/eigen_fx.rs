use vstd::prelude::*;
use crate::eigen::{eigen_ok, lemma_eigen_peak_some, spec_eigen_added, spec_eigen_peak, spec_eigen_test_combine, CEigen, EigenView};
use crate::enums::{EqualMode, BI_DIR, FX_TYPE, KLINE_DIR, SEG_TYPE};
use crate::func_util::{revert_bi_dir, spec_revert_bi_dir};
use crate::line::{lines_wf, CLine};

verus! {

/// A fractal of a characteristic sequence: up to three elements built from
/// the strokes running against the segment, in `lst`.
pub struct CEigenFX {
    pub lv: SEG_TYPE,
    pub dir: BI_DIR,
    pub ele0: Option<CEigen>,
    pub ele1: Option<CEigen>,
    pub ele2: Option<CEigen>,
    pub lst: Vec<usize>,
    pub exclude_included: bool,
    pub kl_dir: KLINE_DIR,
    pub last_evidence_bi: Option<usize>,
}

pub open spec fn opt_view(e: Option<CEigen>) -> Option<EigenView> {
    match e {
        Some(x) => Some(x@),
        None => None,
    }
}

/// Every line of `a` comes before every line of `b`.
pub open spec fn members_before(a: EigenView, b: EigenView) -> bool {
    forall|i: int, j: int| 0 <= i < a.lst.len() && 0 <= j < b.lst.len() ==> #[trigger] a.lst[i] < #[trigger] b.lst[j]
}

/// Every line of the element is one of the lines kept.
pub open spec fn in_lst(e: EigenView, lst: Seq<usize>) -> bool {
    forall|k: int| 0 <= k < e.lst.len() ==> #[trigger] lst.contains(e.lst[k])
}

pub open spec fn ele_ok(e: Option<EigenView>, lst: Seq<usize>, lines: Seq<CLine>) -> bool {
    e matches Some(x) ==> eigen_ok(x, lines) && in_lst(x, lst)
}

pub open spec fn ordered(a: Option<EigenView>, b: Option<EigenView>) -> bool {
    (a is Some && b is Some) ==> members_before(a->0, b->0)
}

pub open spec fn spec_kl_dir(dir: BI_DIR) -> KLINE_DIR {
    if dir == BI_DIR::UP { KLINE_DIR::UP } else { KLINE_DIR::DOWN }
}

/// The lines kept run strictly upwards, all against the segment.
pub open spec fn lst_ok(lst: Seq<usize>, dir: BI_DIR, lines: Seq<CLine>) -> bool {
    &&& forall|k: int| 0 <= k < lst.len() ==> #[trigger] lst[k] < lines.len() && lines[lst[k] as int].dir != dir
    &&& forall|k: int, l: int| 0 <= k < l < lst.len() ==> #[trigger] lst[k] < #[trigger] lst[l]
}

impl CEigenFX {
    pub open spec fn e0(&self) -> Option<EigenView> {
        opt_view(self.ele0)
    }

    pub open spec fn e1(&self) -> Option<EigenView> {
        opt_view(self.ele1)
    }

    pub open spec fn e2(&self) -> Option<EigenView> {
        opt_view(self.ele2)
    }

    /// The invariant of a characteristic-sequence fractal over its lines.
    pub open spec fn inv(&self, lines: Seq<CLine>) -> bool {
        &&& lines_wf(lines)
        &&& self.kl_dir == spec_kl_dir(self.dir)
        &&& lst_ok(self.lst@, self.dir, lines)
        &&& self.ele1 is Some ==> self.ele0 is Some
        &&& self.ele2 is Some ==> self.ele1 is Some
        &&& ele_ok(self.e0(), self.lst@, lines)
        &&& ele_ok(self.e1(), self.lst@, lines)
        &&& ele_ok(self.e2(), self.lst@, lines)
        &&& ordered(self.e0(), self.e1())
        &&& ordered(self.e1(), self.e2())
        &&& self.last_evidence_bi matches Some(x) ==> x < lines.len()
    }

    /// A fractal was found: all three elements are there and the middle one
    /// is a top (segment up) or a bottom (segment down), above (below) the
    /// first and reaching at least as far as the third.
    pub open spec fn found(&self) -> bool {
        &&& self.ele0 is Some
        &&& self.ele1 is Some
        &&& self.ele2 is Some
        &&& self.last_evidence_bi is Some
        &&& (self.e1()->0).fx == (if self.dir == BI_DIR::UP { FX_TYPE::TOP } else { FX_TYPE::BOTTOM })
        &&& spec_fx_values(self.e0()->0, self.e1()->0, self.e2()->0, self.dir)
    }

    /// Whether a fractal was found, as `found` says.
    pub fn is_found(&self) -> (r: bool)
        ensures
            r == self.found(),
    {
        match (&self.ele0, &self.ele1, &self.ele2) {
            (Some(a), Some(b), Some(c)) => {
                let want = if self.dir == BI_DIR::UP { FX_TYPE::TOP } else { FX_TYPE::BOTTOM };
                let values = if self.dir == BI_DIR::UP {
                    a.high < b.high && c.high <= b.high && c.low < b.low
                } else {
                    a.low > b.low && c.low >= b.low && c.high > b.high
                };
                self.last_evidence_bi.is_some() && b.fx == want && values
            },
            _ => false,
        }
    }

    pub fn new(dir: BI_DIR, exclude_included: bool, lv: SEG_TYPE) -> (r: Self)
        ensures
            r.dir == dir,
            r.exclude_included == exclude_included,
            r.lv == lv,
            r.ele0 is None && r.ele1 is None && r.ele2 is None,
            r.lst@.len() == 0,
            r.last_evidence_bi is None,
            r.kl_dir == spec_kl_dir(dir),
    {
        CEigenFX {
            lv,
            dir,
            ele0: None,
            ele1: None,
            ele2: None,
            lst: Vec::new(),
            exclude_included,
            kl_dir: if dir == BI_DIR::UP { KLINE_DIR::UP } else { KLINE_DIR::DOWN },
            last_evidence_bi: None,
        }
    }

    pub fn is_down(&self) -> (r: bool)
        ensures
            r == (self.dir == BI_DIR::DOWN),
    {
        self.dir == BI_DIR::DOWN
    }

    pub fn is_up(&self) -> (r: bool)
        ensures
            r == (self.dir == BI_DIR::UP),
    {
        self.dir == BI_DIR::UP
    }

    /// Forgets all elements and lines.
    pub fn clear(&mut self)
        ensures
            final(self).ele0 is None && final(self).ele1 is None && final(self).ele2 is None,
            final(self).lst@.len() == 0,
            final(self).dir == old(self).dir,
            final(self).lv == old(self).lv,
            final(self).exclude_included == old(self).exclude_included,
            final(self).kl_dir == old(self).kl_dir,
            final(self).last_evidence_bi == old(self).last_evidence_bi,
    {
        self.ele0 = None;
        self.ele1 = None;
        self.ele2 = None;
        self.lst = Vec::new();
    }
}


/// The kind of fractal the middle element forms. Without `exclude_include`
/// both extremes must be strictly beyond the neighbours; with it, the right
/// neighbour may touch, as `allow_top_equal` allows.
pub open spec fn spec_eigen_check_fx(
    k1: EigenView,
    k2: EigenView,
    k3: EigenView,
    exclude_include: bool,
    allow_top_equal: Option<EqualMode>,
) -> FX_TYPE {
    if exclude_include {
        if k1.high < k2.high && k3.high <= k2.high && k3.low < k2.low {
            if allow_top_equal == Some(EqualMode::TopEqual) || k3.high < k2.high {
                FX_TYPE::TOP
            } else {
                FX_TYPE::UNKNOWN
            }
        } else if k1.low > k2.low && k3.low >= k2.low && k3.high > k2.high && (allow_top_equal == Some(
            EqualMode::BottomEqual,
        ) || k3.low > k2.low) {
            FX_TYPE::BOTTOM
        } else {
            FX_TYPE::UNKNOWN
        }
    } else {
        if k1.high < k2.high && k3.high < k2.high && k1.low < k2.low && k3.low < k2.low {
            FX_TYPE::TOP
        } else if k1.high > k2.high && k3.high > k2.high && k1.low > k2.low && k3.low > k2.low {
            FX_TYPE::BOTTOM
        } else {
            FX_TYPE::UNKNOWN
        }
    }
}

/// The extremes of a fractal of the characteristic sequence: for a segment
/// going up, a top whose high is above the first element's and at least the
/// third's, and whose low is above the third's; going down, the mirror.
pub open spec fn spec_fx_values(k1: EigenView, k2: EigenView, k3: EigenView, dir: BI_DIR) -> bool {
    if dir == BI_DIR::UP {
        k1.high < k2.high && k3.high <= k2.high && k3.low < k2.low
    } else {
        k1.low > k2.low && k3.low >= k2.low && k3.high > k2.high
    }
}

/// Whether a fractal leaves a gap to the first element: a top whose low is
/// above the first element's high, or a bottom whose high is below its low.
pub open spec fn spec_eigen_check_gap(k1: EigenView, k2: EigenView) -> bool {
    (k2.fx == FX_TYPE::TOP && k1.high < k2.low) || (k2.fx == FX_TYPE::BOTTOM && k1.low > k2.high)
}

/// Adding a later line of the same kind keeps an element sound.
pub proof fn lemma_eigen_added_ok(e: EigenView, b: CLine, lines: Seq<CLine>, lst: Seq<usize>)
    requires
        eigen_ok(e, lines),
        b == lines[b.idx as int],
        b.idx < lines.len(),
        forall|k: int| 0 <= k < e.lst.len() ==> #[trigger] e.lst[k] < b.idx,
        in_lst(e, lst),
        lst.contains(b.idx),
    ensures
        eigen_ok(spec_eigen_added(e, b), lines),
        in_lst(spec_eigen_added(e, b), lst),
        spec_eigen_added(e, b).lst.len() == e.lst.len() + 1,
        forall|k: int| 0 <= k < e.lst.len() ==> #[trigger] spec_eigen_added(e, b).lst[k] == e.lst[k],
{
    let e2 = spec_eigen_added(e, b);
    let n = e.lst.len();
    assert(e2.lst[n as int] == b.idx);
    assert forall|k: int, l: int| 0 <= k < l < e2.lst.len() implies #[trigger] e2.lst[k] < #[trigger] e2.lst[l] by {
        if l < n {
            assert(e.lst[k] < e.lst[l]);
        } else {
            assert(e2.lst[k] == e.lst[k]);
        }
    }
    let wh = choose|k: int| 0 <= k < e.lst.len() && #[trigger] lines[e.lst[k] as int].high == e.high;
    let wl = choose|k: int| 0 <= k < e.lst.len() && #[trigger] lines[e.lst[k] as int].low == e.low;
    assert(e2.lst[wh] == e.lst[wh]);
    assert(e2.lst[wl] == e.lst[wl]);
    if e2.high == e.high {
        assert(lines[e2.lst[wh] as int].high == e2.high);
    } else {
        assert(lines[e2.lst[n as int] as int].high == e2.high);
    }
    if e2.low == e.low {
        assert(lines[e2.lst[wl] as int].low == e2.low);
    } else {
        assert(lines[e2.lst[n as int] as int].low == e2.low);
    }
    assert forall|k: int| 0 <= k < e2.lst.len() implies #[trigger] lst.contains(e2.lst[k]) by {
        if k < n {
            assert(lst.contains(e.lst[k]));
        }
    }
}

/// A new element of a single later line is sound and comes after `a`.
pub proof fn lemma_new_eigen_ok(b: CLine, d: KLINE_DIR, lines: Seq<CLine>, lst: Seq<usize>)
    requires
        b == lines[b.idx as int],
        b.idx < lines.len(),
        lst.contains(b.idx),
        d == KLINE_DIR::UP || d == KLINE_DIR::DOWN,
    ensures
        eigen_ok(EigenView { high: b.high, low: b.low, lst: seq![b.idx], dir: d, fx: FX_TYPE::UNKNOWN, gap: false }, lines),
        in_lst(EigenView { high: b.high, low: b.low, lst: seq![b.idx], dir: d, fx: FX_TYPE::UNKNOWN, gap: false }, lst),
{
    let e = EigenView { high: b.high, low: b.low, lst: seq![b.idx], dir: d, fx: FX_TYPE::UNKNOWN, gap: false };
    assert(lines[e.lst[0] as int].high == e.high);
    assert(lines[e.lst[0] as int].low == e.low);
}

impl CEigenFX {
    fn treat_first_ele(&mut self, bi: &CLine, lines: &Vec<CLine>) -> (r: bool)
        requires
            old(self).inv(lines@),
            old(self).ele0 is None,
            bi == lines@[bi.idx as int],
            bi.idx < lines@.len(),
            old(self).lst@.contains(bi.idx),
        ensures
            !r,
            final(self).inv(lines@),
            final(self).ele0 is Some,
            final(self).ele1 is None,
            final(self).ele2 is None,
            final(self).lst@ == old(self).lst@,
            final(self).dir == old(self).dir,
            final(self).exclude_included == old(self).exclude_included,
            final(self).lv == old(self).lv,
            final(self).state() == (FxState { e0: Some(spec_new_ele(*bi, old(self).kl_dir)), ..old(self).state() }),
    {
        proof {
            lemma_new_eigen_ok(*bi, self.kl_dir, lines@, self.lst@);
        }
        self.ele0 = Some(CEigen::new(bi, self.kl_dir));
        false
    }

    /// The fractal kind the three elements form.
    fn check_fx(&self, exclude_include: bool, allow_top_equal: Option<EqualMode>) -> (r: FX_TYPE)
        requires
            self.ele0 is Some && self.ele1 is Some && self.ele2 is Some,
        ensures
            r == spec_eigen_check_fx(self.e0()->0, self.e1()->0, self.e2()->0, exclude_include, allow_top_equal),
    {
        let k1 = self.ele0.as_ref().unwrap();
        let k2 = self.ele1.as_ref().unwrap();
        let k3 = self.ele2.as_ref().unwrap();
        if exclude_include {
            if k1.high < k2.high && k3.high <= k2.high && k3.low < k2.low {
                if allow_top_equal == Some(EqualMode::TopEqual) || k3.high < k2.high {
                    return FX_TYPE::TOP;
                }
            } else if k1.low > k2.low && k3.low >= k2.low && k3.high > k2.high && (allow_top_equal == Some(
                EqualMode::BottomEqual,
            ) || k3.low > k2.low) {
                return FX_TYPE::BOTTOM;
            }
        } else {
            if k1.high < k2.high && k3.high < k2.high && k1.low < k2.low && k3.low < k2.low {
                return FX_TYPE::TOP;
            }
            if k1.high > k2.high && k3.high > k2.high && k1.low > k2.low && k3.low > k2.low {
                return FX_TYPE::BOTTOM;
            }
        }
        FX_TYPE::UNKNOWN
    }

    fn check_gap(&self) -> (r: bool)
        requires
            self.ele0 is Some && self.ele1 is Some,
        ensures
            r == spec_eigen_check_gap(self.e0()->0, self.e1()->0),
    {
        let k1 = self.ele0.as_ref().unwrap();
        let k2 = self.ele1.as_ref().unwrap();
        (k2.fx == FX_TYPE::TOP && k1.high < k2.low) || (k2.fx == FX_TYPE::BOTTOM && k1.low > k2.high)
    }

    /// Marks the middle element with its fractal kind and gap.
    fn update_fx(&mut self, allow_top_equal: Option<EqualMode>)
        requires
            old(self).ele0 is Some && old(self).ele1 is Some && old(self).ele2 is Some,
        ensures
            ({
                let fx = spec_eigen_check_fx(old(self).e0()->0, old(self).e1()->0, old(self).e2()->0, old(self).exclude_included, allow_top_equal);
                let k2 = EigenView { fx, ..old(self).e1()->0 };
                final(self).e1() == Some(EigenView { gap: spec_eigen_check_gap(old(self).e0()->0, k2), ..k2 })
            }),
            final(self).e0() == old(self).e0(),
            final(self).e2() == old(self).e2(),
            final(self).lst@ == old(self).lst@,
            final(self).dir == old(self).dir,
            final(self).kl_dir == old(self).kl_dir,
            final(self).exclude_included == old(self).exclude_included,
            final(self).last_evidence_bi == old(self).last_evidence_bi,
            final(self).lv == old(self).lv,
    {
        let fx_type = self.check_fx(self.exclude_included, allow_top_equal);
        let mut e1 = self.ele1.take().unwrap();
        e1.fx = fx_type;
        self.ele1 = Some(e1);
        let gap = self.check_gap();
        let mut e1 = self.ele1.take().unwrap();
        e1.gap = gap;
        self.ele1 = Some(e1);
    }

    /// Whether the third element really breaks the second: without
    /// `exclude_included` always; otherwise it must go beyond the last line
    /// of the second element, or the line two after it must.
    fn actual_break(&mut self, lines: &Vec<CLine>) -> (r: bool)
        requires
            old(self).inv(lines@),
            old(self).ele1 is Some && old(self).ele2 is Some,
            (old(self).e2()->0).lst.len() == 1,
        ensures
            final(self).inv(lines@),
            final(self).e0() == old(self).e0(),
            final(self).e1() == old(self).e1(),
            final(self).e2() == old(self).e2(),
            final(self).lst@ == old(self).lst@,
            final(self).dir == old(self).dir,
            final(self).exclude_included == old(self).exclude_included,
            final(self).lv == old(self).lv,
            old(self).last_evidence_bi is Some ==> final(self).last_evidence_bi is Some,
            !old(self).exclude_included ==> r && final(self).last_evidence_bi == old(self).last_evidence_bi,
            ({
                let (brk, ev) = spec_actual_break(*old(self), lines@);
                &&& r == (!old(self).exclude_included || brk || ev is Some)
                &&& final(self).last_evidence_bi == (if old(self).exclude_included && !brk && ev is Some {
                    ev
                } else {
                    old(self).last_evidence_bi
                })
            }),
    {
        if !self.exclude_included {
            return true;
        }
        let e1 = self.ele1.as_ref().unwrap();
        let e2 = self.ele2.as_ref().unwrap();
        let last1 = e1.lst[e1.lst.len() - 1];
        if (self.is_up() && e2.low < lines[last1].low) || (self.is_down() && e2.high > lines[last1].high) {
            return true;
        }
        let b = e2.lst[0];
        let n = lines.len();
        if n >= 2 && b < n - 2 {
            let nn = b + 2;
            if lines[b].is_down() && lines[nn].low < lines[b].low {
                self.last_evidence_bi = Some(nn);
                return true;
            } else if lines[b].is_up() && lines[nn].high > lines[b].high {
                self.last_evidence_bi = Some(nn);
                return true;
            }
        }
        false
    }
}


/// Whether the third element goes beyond the last line of the second
/// (below its low going up, above its high going down), and the line two
/// after the third element's line, where that one goes beyond it in its own
/// direction.
pub open spec fn spec_actual_break(fx: CEigenFX, lines: Seq<CLine>) -> (bool, Option<usize>) {
    let e1 = fx.e1()->0;
    let e2 = fx.e2()->0;
    let last1 = lines[e1.lst.last() as int];
    let brk = (fx.dir == BI_DIR::UP && e2.low < last1.low) || (fx.dir == BI_DIR::DOWN && e2.high > last1.high);
    let b = e2.lst[0] as int;
    let nn = b + 2;
    let ev = lines.len() >= 2 && b < lines.len() - 2 && (
        (lines[b].dir == BI_DIR::DOWN && lines[nn].low < lines[b].low)
        || (lines[b].dir == BI_DIR::UP && lines[nn].high > lines[b].high));
    (brk, if ev { Some(nn as usize) } else { None })
}

/// The value of a fractal search: its three elements, the lines kept and
/// the line that confirmed a fractal.
#[verifier::ext_equal]
pub struct FxState {
    pub e0: Option<EigenView>,
    pub e1: Option<EigenView>,
    pub e2: Option<EigenView>,
    pub lst: Seq<usize>,
    pub evidence: Option<usize>,
}

impl CEigenFX {
    pub open spec fn state(&self) -> FxState {
        FxState { e0: self.e0(), e1: self.e1(), e2: self.e2(), lst: self.lst@, evidence: self.last_evidence_bi }
    }
}

/// A new element of one line.
pub open spec fn spec_new_ele(b: CLine, d: KLINE_DIR) -> EigenView {
    EigenView { high: b.high, low: b.low, lst: seq![b.idx], dir: d, fx: FX_TYPE::UNKNOWN, gap: false }
}

/// The lines of `s` from `t` on, in order.
pub open spec fn spec_keep(s: Seq<usize>, t: usize) -> Seq<usize>
    decreases s.len(),
{
    if s.len() == 0 {
        Seq::empty()
    } else {
        let r = spec_keep(s.drop_last(), t);
        if s.last() >= t { r.push(s.last()) } else { r }
    }
}

/// Starting over without dropping included lines: the elements shift one
/// place left, and only the lines from the new first element on stay.
pub open spec fn spec_fx_shift(s: FxState) -> FxState {
    let t = (s.e1->0).lst[0];
    FxState { e0: s.e1, e1: s.e2, e2: None, lst: spec_keep(s.lst.subrange(1, s.lst.len() as int), t), ..s }
}

/// A line met with one element: merged into it when contained; otherwise
/// it starts the second element, and the search starts over when that one
/// does not go the segment's way.
pub open spec fn spec_fx_second(s: FxState, b: CLine, dir: BI_DIR, kl_dir: KLINE_DIR) -> (FxState, bool) {
    let e0 = s.e0->0;
    if spec_eigen_test_combine(e0.high, e0.low, b, false, None) == KLINE_DIR::COMBINE {
        (FxState { e0: Some(spec_eigen_added(e0, b)), ..s }, false)
    } else {
        let e1 = spec_new_ele(b, kl_dir);
        let s2 = FxState { e1: Some(e1), ..s };
        if (dir == BI_DIR::UP && e1.high < e0.high) || (dir == BI_DIR::DOWN && e1.low > e0.low) {
            (spec_fx_shift(s2), false)
        } else {
            (s2, false)
        }
    }
}

/// A line met with two elements, which confirms: merged into the second
/// when contained; otherwise it starts the third, the second is marked with
/// the fractal the three form, and a fractal the segment's way is found;
/// else the search starts over.
pub open spec fn spec_fx_third(s: FxState, b: CLine, dir: BI_DIR) -> (FxState, bool) {
    let s2 = FxState { evidence: Some(b.idx), ..s };
    let e0 = s.e0->0;
    let e1 = s.e1->0;
    let cd = spec_eigen_test_combine(e1.high, e1.low, b, false, None);
    if cd == KLINE_DIR::COMBINE {
        (FxState { e1: Some(spec_eigen_added(e1, b)), ..s2 }, false)
    } else {
        let e2 = spec_new_ele(b, cd);
        let fx = spec_eigen_check_fx(e0, e1, e2, false, None);
        let k2 = EigenView { fx, ..e1 };
        let e1u = EigenView { gap: spec_eigen_check_gap(e0, k2), ..k2 };
        let s3 = FxState { e1: Some(e1u), e2: Some(e2), ..s2 };
        if (dir == BI_DIR::UP && fx == FX_TYPE::TOP) || (dir == BI_DIR::DOWN && fx == FX_TYPE::BOTTOM) {
            (s3, true)
        } else {
            (spec_fx_shift(s3), false)
        }
    }
}

/// Feeding a line to a fractal search that keeps included lines combined:
/// the line is kept, then starts, joins or confirms the elements.
pub open spec fn spec_fx_add(s: FxState, b: CLine, dir: BI_DIR, kl_dir: KLINE_DIR) -> (FxState, bool) {
    let s1 = FxState { lst: s.lst.push(b.idx), ..s };
    if s.e0 is None {
        (FxState { e0: Some(spec_new_ele(b, kl_dir)), ..s1 }, false)
    } else if s.e1 is None {
        spec_fx_second(s1, b, dir, kl_dir)
    } else {
        spec_fx_third(s1, b, dir)
    }
}

/// The frame every step of adding a line keeps: direction, settings, and
/// the invariant.
pub open spec fn step_frame(old_fx: &CEigenFX, new_fx: &CEigenFX, lines: Seq<CLine>) -> bool {
    &&& new_fx.inv(lines)
    &&& new_fx.dir == old_fx.dir
    &&& new_fx.kl_dir == old_fx.kl_dir
    &&& new_fx.exclude_included == old_fx.exclude_included
    &&& new_fx.lv == old_fx.lv
}

/// Every line of `a` is one of the lines of `b`.
pub open spec fn drawn_from(a: Seq<usize>, b: Seq<usize>) -> bool {
    forall|k: int| 0 <= k < a.len() ==> #[trigger] b.contains(a[k])
}

/// What a step of adding a line gives: a fractal, or room for the next line.
pub open spec fn step_result(new_fx: &CEigenFX, r: bool, bound: int) -> bool {
    &&& r ==> new_fx.found()
    &&& !r ==> new_fx.ele2 is None
    &&& forall|k: int| 0 <= k < new_fx.lst@.len() ==> #[trigger] new_fx.lst@[k] <= bound
}

impl CEigenFX {
    /// Feeds the next line running against the segment; returns whether a
    /// fractal of the characteristic sequence is found.
    pub fn add(&mut self, bi: &CLine, lines: &Vec<CLine>) -> (r: bool)
        requires
            old(self).inv(lines@),
            bi.idx < lines@.len(),
            *bi == lines@[bi.idx as int],
            bi.dir != old(self).dir,
            old(self).ele2 is None,
            forall|k: int| 0 <= k < old(self).lst@.len() ==> #[trigger] old(self).lst@[k] < bi.idx,
        ensures
            step_frame(old(self), final(self), lines@),
            step_result(final(self), r, bi.idx as int),
            final(self).lst@.len() <= old(self).lst@.len() + 1,
            drawn_from(final(self).lst@, old(self).lst@.push(bi.idx)),
            !old(self).exclude_included ==> (final(self).state(), r) == spec_fx_add(old(self).state(), *bi, old(self).dir, old(self).kl_dir),
        decreases old(self).lst@.len() + 1, 2int,
    {
        let ghost old_lst = self.lst@;
        proof {
            if self.ele0 is Some {
                lemma_members_below(self.e0()->0, old_lst, bi.idx as int);
            }
            if self.ele1 is Some {
                lemma_members_below(self.e1()->0, old_lst, bi.idx as int);
            }
        }
        self.lst.push(bi.idx);
        proof {
            assert(self.lst@.last() == bi.idx);
            assert(self.lst@.contains(bi.idx));
            assert forall|k: int| 0 <= k < self.lst@.len() implies #[trigger] self.lst@[k] < lines@.len()
                && lines@[self.lst@[k] as int].dir != self.dir by {
                if k < old_lst.len() {
                    assert(self.lst@[k] == old_lst[k]);
                }
            }
            assert forall|k: int, l: int| 0 <= k < l < self.lst@.len() implies #[trigger] self.lst@[k] < #[trigger] self.lst@[l] by {
                assert(self.lst@[k] == old_lst[k]);
                if l < old_lst.len() {
                    assert(self.lst@[l] == old_lst[l]);
                }
            }
            lemma_in_lst_push(self.e0(), old_lst, bi.idx);
            lemma_in_lst_push(self.e1(), old_lst, bi.idx);
            lemma_in_lst_push(self.e2(), old_lst, bi.idx);
        }
        if self.ele0.is_none() {
            let r = self.treat_first_ele(bi, lines);
            proof {
                lemma_drawn_from_self(self.lst@);
            }
            r
        } else if self.ele1.is_none() {
            self.treat_second_ele(bi, lines)
        } else {
            self.treat_third_ele(bi, lines)
        }
    }

    fn treat_second_ele(&mut self, bi: &CLine, lines: &Vec<CLine>) -> (r: bool)
        requires
            old(self).inv(lines@),
            old(self).ele0 is Some,
            old(self).ele1 is None,
            old(self).ele2 is None,
            bi.idx < lines@.len(),
            *bi == lines@[bi.idx as int],
            old(self).lst@.len() > 0,
            old(self).lst@.last() == bi.idx,
            all_below(old(self).e0(), bi.idx as int),
        ensures
            step_frame(old(self), final(self), lines@),
            step_result(final(self), r, bi.idx as int),
            final(self).lst@.len() <= old(self).lst@.len(),
            drawn_from(final(self).lst@, old(self).lst@),
            !old(self).exclude_included ==> (final(self).state(), r) == spec_fx_second(old(self).state(), *bi, old(self).dir, old(self).kl_dir),
        decreases old(self).lst@.len(), 1int,
    {
        let ghost lst = self.lst@;
        let mut e0 = self.ele0.take().unwrap();
        let combine_dir = e0.try_add(bi, self.exclude_included, None);
        let e0_high = e0.high;
        let e0_low = e0.low;
        proof {
            if combine_dir == KLINE_DIR::COMBINE {
                lemma_eigen_added_ok(old(self).e0()->0, *bi, lines@, lst);
            }
        }
        self.ele0 = Some(e0);
        if combine_dir != KLINE_DIR::COMBINE {
            proof {
                lemma_new_eigen_ok(*bi, self.kl_dir, lines@, lst);
            }
            let e1 = CEigen::new(bi, self.kl_dir);
            let e1_high = e1.high;
            let e1_low = e1.low;
            self.ele1 = Some(e1);
            if (self.is_up() && e1_high < e0_high) || (self.is_down() && e1_low > e0_low) {
                return self.reset(lines, Ghost(bi.idx as int));
            }
        }
        proof {
            assert forall|k: int| 0 <= k < self.lst@.len() implies #[trigger] self.lst@[k] <= bi.idx by {
                if k < lst.len() - 1 {
                    assert(lst[k] < lst[lst.len() - 1]);
                }
            }
        }
        false
    }

    fn treat_third_ele(&mut self, bi: &CLine, lines: &Vec<CLine>) -> (r: bool)
        requires
            old(self).inv(lines@),
            old(self).ele0 is Some,
            old(self).ele1 is Some,
            old(self).ele2 is None,
            bi.idx < lines@.len(),
            *bi == lines@[bi.idx as int],
            old(self).lst@.len() > 0,
            old(self).lst@.last() == bi.idx,
            all_below(old(self).e1(), bi.idx as int),
        ensures
            step_frame(old(self), final(self), lines@),
            step_result(final(self), r, bi.idx as int),
            final(self).lst@.len() <= old(self).lst@.len(),
            drawn_from(final(self).lst@, old(self).lst@),
            !old(self).exclude_included ==> (final(self).state(), r) == spec_fx_third(old(self).state(), *bi, old(self).dir),
        decreases old(self).lst@.len(), 1int,
    {
        let ghost lst = self.lst@;
        self.last_evidence_bi = Some(bi.idx);
        let allow_top_equal = if self.exclude_included {
            Some(if bi.is_down() { EqualMode::TopEqual } else { EqualMode::BottomEqual })
        } else {
            None
        };
        let mut e1 = self.ele1.take().unwrap();
        let combine_dir = e1.try_add(bi, false, allow_top_equal);
        proof {
            if combine_dir == KLINE_DIR::COMBINE {
                lemma_eigen_added_ok(old(self).e1()->0, *bi, lines@, lst);
                let a = self.e0()->0;
                let b = spec_eigen_added(old(self).e1()->0, *bi);
                assert forall|i: int, j: int| 0 <= i < a.lst.len() && 0 <= j < b.lst.len() implies #[trigger] a.lst[i] < #[trigger] b.lst[j] by {
                    let o = old(self).e1()->0;
                    if j < o.lst.len() {
                        assert(b.lst[j] == o.lst[j]);
                        assert(a.lst[i] < o.lst[j]);
                    } else {
                        assert(a.lst[i] < o.lst[0]);
                        assert(o.lst[0] < bi.idx);
                    }
                }
            }
        }
        self.ele1 = Some(e1);
        if combine_dir == KLINE_DIR::COMBINE {
            proof {
                assert forall|k: int| 0 <= k < self.lst@.len() implies #[trigger] self.lst@[k] <= bi.idx by {
                    if k < lst.len() - 1 {
                        assert(lst[k] < lst[lst.len() - 1]);
                    }
                }
            }
            return false;
        }
        proof {
            lemma_new_eigen_ok(*bi, combine_dir, lines@, lst);
        }
        self.ele2 = Some(CEigen::new(bi, combine_dir));
        if !self.actual_break(lines) {
            return self.reset(lines, Ghost(bi.idx as int));
        }
        self.update_fx(allow_top_equal);
        let fx = self.ele1.as_ref().unwrap().fx;
        let is_fx = (self.is_up() && fx == FX_TYPE::TOP) || (self.is_down() && fx == FX_TYPE::BOTTOM);
        if is_fx {
            proof {
                assert forall|k: int| 0 <= k < self.lst@.len() implies #[trigger] self.lst@[k] <= bi.idx by {
                    if k < lst.len() - 1 {
                        assert(lst[k] < lst[lst.len() - 1]);
                    }
                }
            }
            true
        } else {
            self.reset(lines, Ghost(bi.idx as int))
        }
    }

    /// Starts over from the second line kept: with `exclude_included`, the
    /// lines after the first are fed again; otherwise the elements shift
    /// left and the lines before the new first element are dropped.
    pub fn reset(&mut self, lines: &Vec<CLine>, Ghost(bound): Ghost<int>) -> (r: bool)
        requires
            old(self).inv(lines@),
            old(self).lst@.len() > 0,
            old(self).ele1 is Some,
            forall|k: int| 0 <= k < old(self).lst@.len() ==> #[trigger] old(self).lst@[k] <= bound,
        ensures
            step_frame(old(self), final(self), lines@),
            step_result(final(self), r, bound),
            final(self).lst@.len() < old(self).lst@.len(),
            drawn_from(final(self).lst@, old(self).lst@),
            !old(self).exclude_included ==> !r && final(self).state() == spec_fx_shift(old(self).state()),
        decreases old(self).lst@.len(), 0int,
    {
        let ghost lst = self.lst@;
        let n = self.lst.len();
        if self.exclude_included {
            let mut tmp: Vec<usize> = Vec::new();
            let mut k: usize = 1;
            while k < n
                invariant
                    1 <= k <= n,
                    n == lst.len(),
                    self.lst@ == lst,
                    tmp@ == lst.subrange(1, k as int),
                decreases n - k,
            {
                tmp.push(self.lst[k]);
                k = k + 1;
                proof {
                    assert(tmp@ =~= lst.subrange(1, k as int));
                }
            }
            self.clear();
            let mut j: usize = 0;
            while j < tmp.len()
                invariant
                    1 <= n,
                    tmp@ == lst.subrange(1, n as int),
                    n == lst.len(),
                    n == old(self).lst@.len(),
                    lst_ok(lst, old(self).dir, lines@),
                    forall|k: int| 0 <= k < lst.len() ==> #[trigger] lst[k] <= bound,
                    j <= tmp@.len(),
                    step_frame(old(self), self, lines@),
                    old(self).exclude_included,
                    self.ele2 is None,
                    self.lst@.len() <= j,
                    drawn_from(self.lst@, lst),
                    lst == old(self).lst@,
                    forall|k: int| 0 <= k < self.lst@.len() ==> #[trigger] self.lst@[k] <= tmp@[j - 1],
                decreases tmp@.len() - j,
            {
                let x = tmp[j];
                proof {
                    assert(tmp@[j as int] == lst[j + 1]);
                    assert(lst[j + 1] < lines@.len());
                    assert forall|k: int| 0 <= k < self.lst@.len() implies #[trigger] self.lst@[k] < x by {
                        assert(tmp@[j - 1] == lst[j as int]);
                        assert(lst[j as int] < lst[j + 1]);
                    }
                    assert(lines@[x as int].idx == x);
                }
                let ghost cur = self.lst@;
                let found = self.add(&lines[x], lines);
                proof {
                    assert(lst.contains(x)) by {
                        assert(lst[j + 1] == x);
                    }
                    lemma_drawn_from_push(self.lst@, cur, x, lst);
                }
                if found {
                    proof {
                        assert(x <= bound);
                    }
                    return true;
                }
                j = j + 1;
            }
            proof {
                assert forall|k: int| 0 <= k < self.lst@.len() implies #[trigger] self.lst@[k] <= bound by {
                    assert(tmp@[j - 1] == lst[j as int]);
                }
            }
            false
        } else {
            let t = self.ele1.as_ref().unwrap().lst[0];
            let mut new_lst: Vec<usize> = Vec::new();
            let mut k: usize = 1;
            while k < n
                invariant
                    1 <= k <= n,
                    n == lst.len(),
                    self.lst@ == lst,
                    lst_ok(lst, self.dir, lines@),
                    forall|m: int| 0 <= m < new_lst@.len() ==> #[trigger] lst.contains(new_lst@[m]) && new_lst@[m] >= t,
                    forall|m: int| 0 <= m < new_lst@.len() ==> #[trigger] new_lst@[m] <= lst[k - 1],
                    forall|m: int, l: int| 0 <= m < l < new_lst@.len() ==> #[trigger] new_lst@[m] < #[trigger] new_lst@[l],
                    forall|j: int| 1 <= j < k && lst[j] >= t ==> #[trigger] new_lst@.contains(lst[j]),
                    new_lst@ == spec_keep(lst.subrange(1, k as int), t),
                decreases n - k,
            {
                let x = self.lst[k];
                let ghost before = new_lst@;
                proof {
                    assert(lst.subrange(1, k + 1).drop_last() =~= lst.subrange(1, k as int));
                    assert(lst.subrange(1, k + 1).last() == x);
                }
                if x >= t {
                    new_lst.push(x);
                    proof {
                        assert(new_lst@.last() == x);
                        assert forall|j: int| 1 <= j < k + 1 && lst[j] >= t implies #[trigger] new_lst@.contains(lst[j]) by {
                            if j < k {
                                assert(before.contains(lst[j]));
                                let w = choose|w: int| 0 <= w < before.len() && before[w] == lst[j];
                                assert(new_lst@[w] == lst[j]);
                            } else {
                                assert(new_lst@[before.len() as int] == lst[j]);
                            }
                        }
                        assert forall|m: int| 0 <= m < new_lst@.len() implies #[trigger] lst.contains(new_lst@[m]) && new_lst@[m] >= t by {
                            if m < before.len() {
                                assert(new_lst@[m] == before[m]);
                            } else {
                                assert(lst[k as int] == x);
                            }
                        }
                        assert forall|m: int| 0 <= m < new_lst@.len() implies #[trigger] new_lst@[m] <= lst[k as int] by {
                            if m < before.len() {
                                assert(new_lst@[m] == before[m]);
                                assert(lst[k - 1] < lst[k as int]);
                            }
                        }
                        assert forall|m: int, l: int| 0 <= m < l < new_lst@.len() implies #[trigger] new_lst@[m] < #[trigger] new_lst@[l] by {
                            assert(new_lst@[m] == before[m]);
                            if l < before.len() {
                                assert(new_lst@[l] == before[l]);
                            } else {
                                assert(before[m] <= lst[k - 1]);
                                assert(lst[k - 1] < lst[k as int]);
                            }
                        }
                    }
                } else {
                    proof {
                        assert forall|m: int| 0 <= m < new_lst@.len() implies #[trigger] new_lst@[m] <= lst[k as int] by {
                            assert(lst[k - 1] < lst[k as int]);
                        }
                    }
                }
                k = k + 1;
            }
            proof {
                assert(lst.subrange(1, n as int) =~= lst.subrange(1, lst.len() as int));
            }
            let ghost old_e0 = self.e0();
            let ghost old_e1 = self.e1();
            let ghost old_e2 = self.e2();
            self.ele0 = self.ele1.take();
            self.ele1 = self.ele2.take();
            self.ele2 = None;
            let ghost nl = new_lst@;
            self.lst = new_lst;
            proof {
                let e0 = old_e0->0;
                let e1 = old_e1->0;
                assert(lst.contains(e0.lst[0]));
                let w0 = choose|w: int| 0 <= w < lst.len() && lst[w] == e0.lst[0];
                assert forall|m: int| 0 <= m < e1.lst.len() implies #[trigger] nl.contains(e1.lst[m]) by {
                    assert(lst.contains(e1.lst[m]));
                    let w = choose|w: int| 0 <= w < lst.len() && lst[w] == e1.lst[m];
                    assert(e0.lst[0] < e1.lst[m]);
                    if w == 0 {
                        assert(lst[0] <= lst[w0]);
                    }
                    if m > 0 {
                        assert(e1.lst[0] < e1.lst[m]);
                    }
                    assert(lst[w] >= t);
                }
                if old_e2 is Some {
                    let e2 = old_e2->0;
                    assert forall|m: int| 0 <= m < e2.lst.len() implies #[trigger] nl.contains(e2.lst[m]) by {
                        assert(lst.contains(e2.lst[m]));
                        let w = choose|w: int| 0 <= w < lst.len() && lst[w] == e2.lst[m];
                        assert(e1.lst[0] < e2.lst[m]);
                        assert(e0.lst[0] < e1.lst[0]);
                        if w == 0 {
                            assert(lst[0] <= lst[w0]);
                        }
                        assert(lst[w] >= t);
                    }
                }
                assert forall|m: int| 0 <= m < nl.len() implies #[trigger] nl[m] < lines@.len()
                    && lines@[nl[m] as int].dir != self.dir by {
                    assert(lst.contains(nl[m]));
                    let w = choose|w: int| 0 <= w < lst.len() && lst[w] == nl[m];
                }
                assert forall|m: int| 0 <= m < nl.len() implies #[trigger] nl[m] <= bound by {
                    assert(lst.contains(nl[m]));
                    let w = choose|w: int| 0 <= w < lst.len() && lst[w] == nl[m];
                }
                if nl.len() >= n {
                    assert(!nl.contains(lst[0])) by {
                        if nl.contains(lst[0]) {
                            let w = choose|w: int| 0 <= w < nl.len() && nl[w] == lst[0];
                            assert(lst[0] < t) by {
                                assert(lst.contains(e0.lst[0]));
                                assert(lst[0] <= lst[w0]);
                                assert(e0.lst[0] < e1.lst[0]);
                            }
                            assert(lst.contains(nl[w]) && nl[w] >= t);
                        }
                    }
                    lemma_increasing_len(nl, lst);
                }
            }
            false
        }
    }
}

/// A line of the reverse sequence goes past the value where the segment
/// would end: a down line below it, an up line above it.
pub open spec fn crosses_thred(b: CLine, thred: i64) -> bool {
    (b.dir == BI_DIR::DOWN && b.low < thred) || (b.dir == BI_DIR::UP && b.high > thred)
}

/// Line `j` is one of those scanned from `begin` on, every other line.
pub open spec fn scanned_from(begin: int, j: int) -> bool {
    begin <= j && (j - begin) % 2 == 0
}

/// What a scan of the reverse sequence from `begin` may answer: no only
/// when a scanned line passed the value, open only when none did.
pub open spec fn revert_outcome_ok(r: Option<bool>, lines: Seq<CLine>, begin: int, thred: i64) -> bool {
    &&& r == Some(false) ==> exists|j: int| scanned_from(begin, j) && j < lines.len() && #[trigger] crosses_thred(lines[j], thred)
    &&& r is None ==> forall|j: int| scanned_from(begin, j) && j < lines.len() ==> !crosses_thred(lines[j], thred)
}

/// A fractal search with nothing yet.
pub open spec fn spec_fx_empty() -> FxState {
    FxState { e0: None, e1: None, e2: None, lst: Seq::empty(), evidence: None }
}

/// The scan of the reverse sequence from line `i` on, every other line, fed
/// to search `s` the way `dir`: a fractal found says yes; a line passing
/// `thred` says no; the second element passing `brk` says yes; running out
/// of lines leaves it open.
pub open spec fn spec_revert_scan(
    s: FxState,
    dir: BI_DIR,
    lines: Seq<CLine>,
    i: int,
    thred: i64,
    brk: i64,
) -> Option<bool>
    decreases lines.len() - i,
{
    if i < 0 || i >= lines.len() {
        None
    } else {
        let b = lines[i];
        let (s2, found) = spec_fx_add(s, b, dir, spec_kl_dir(dir));
        if found {
            Some(true)
        } else if crosses_thred(b, thred) {
            Some(false)
        } else if s2.e1 is Some && ((b.dir == BI_DIR::DOWN && (s2.e1->0).high > brk) || (b.dir == BI_DIR::UP
            && (s2.e1->0).low < brk)) {
            Some(true)
        } else if i + 2 >= lines.len() {
            None
        } else {
            spec_revert_scan(s2, dir, lines, i + 2, thred, brk)
        }
    }
}

proof fn lemma_revert_step(s: FxState, dir: BI_DIR, lines: Seq<CLine>, i: int, thred: i64, brk: i64)
    requires
        0 <= i < lines.len(),
    ensures
        ({
            let pr = spec_fx_add(s, lines[i], dir, spec_kl_dir(dir));
            let b = lines[i];
            spec_revert_scan(s, dir, lines, i, thred, brk) == (if pr.1 {
                Some(true)
            } else if crosses_thred(b, thred) {
                Some(false)
            } else if pr.0.e1 is Some && ((b.dir == BI_DIR::DOWN && (pr.0.e1->0).high > brk) || (b.dir == BI_DIR::UP
                && (pr.0.e1->0).low < brk)) {
                Some(true)
            } else if i + 2 >= lines.len() {
                None
            } else {
                spec_revert_scan(pr.0, dir, lines, i + 2, thred, brk)
            })
        }),
{
}

/// Whether a found fractal may end the segment: without a gap it may;
/// with one, as the scan of the reverse sequence from the second line after
/// the segment's end says, against the end's value and the first element's
/// far extreme.
pub open spec fn spec_can_be_end(s: FxState, dir: BI_DIR, lines: Seq<CLine>) -> Option<bool> {
    let e1 = s.e1->0;
    if !e1.gap {
        Some(true)
    } else {
        let p = (spec_eigen_peak(e1, lines, lines[e1.lst[0] as int].dir != BI_DIR::UP))->0 as int;
        let brk = if dir == BI_DIR::UP { (s.e0->0).low } else { (s.e0->0).high };
        spec_revert_scan(spec_fx_empty(), spec_revert_bi_dir(lines[p + 1].dir), lines, p + 1, lines[p - 1].end_val, brk)
    }
}

/// In a well-formed list, lines two apart run the same way.
pub proof fn lemma_same_dir_two_apart(lines: Seq<CLine>, i: int)
    requires
        lines_wf(lines),
        0 <= i,
        i + 2 < lines.len(),
    ensures
        lines[i + 2].dir == lines[i].dir,
{
    assert(lines[i + 1].dir != lines[i].dir);
    assert(lines[(i + 1) + 1].dir != lines[i + 1].dir);
}

impl CEigenFX {
    /// The stroke that ends the segment: the one before the peak line of the
    /// middle element.
    pub fn get_peak_bi_idx(&self, lines: &Vec<CLine>) -> (r: usize)
        requires
            self.inv(lines@),
            self.ele0 is Some,
            self.ele1 is Some,
            (self.e1()->0).fx != FX_TYPE::UNKNOWN,
        ensures
            r + 1 == (spec_eigen_peak(self.e1()->0, lines@, lines@[(self.e1()->0).lst[0] as int].dir != BI_DIR::UP))->0,
    {
        let e1 = self.ele1.as_ref().unwrap();
        proof {
            let e0 = self.e0()->0;
            assert forall|k: int| 0 <= k < e1@.lst.len() implies #[trigger] e1@.lst[k] >= 1 by {
                assert(e0.lst[0] < e1@.lst[k]);
            }
        }
        e1.get_peak_bi_idx(lines)
    }

    /// Whether every line kept, and the line that confirmed the fractal, are
    /// sure.
    pub fn all_bi_is_sure(&self, lines: &Vec<CLine>) -> (r: bool)
        requires
            self.inv(lines@),
            self.last_evidence_bi is Some,
        ensures
            r == ((forall|k: int| 0 <= k < self.lst@.len() ==> #[trigger] lines@[self.lst@[k] as int].is_sure)
                && lines@[self.last_evidence_bi->0 as int].is_sure),
    {
        let mut k: usize = 0;
        while k < self.lst.len()
            invariant
                self.inv(lines@),
                k <= self.lst@.len(),
                forall|m: int| 0 <= m < k ==> #[trigger] lines@[self.lst@[m] as int].is_sure,
            decreases self.lst@.len() - k,
        {
            if !lines[self.lst[k]].is_sure {
                return false;
            }
            k = k + 1;
        }
        lines[self.last_evidence_bi.unwrap()].is_sure
    }

    /// Whether the segment may end at the fractal. Without a gap it may.
    /// With a gap, the lines after the peak are scanned for a fractal the
    /// other way: one found, or the reverse sequence's second element
    /// passing the first element's far extreme, says yes; a line passing the
    /// segment's end value says no; running out of lines leaves it open.
    pub fn can_be_end(&mut self, lines: &Vec<CLine>) -> (r: Option<bool>)
        requires
            old(self).inv(lines@),
            old(self).found(),
        ensures
            *final(self) == *old(self),
            !(old(self).e1()->0).gap ==> r == Some(true),
            (old(self).e1()->0).gap ==> ({
                let p = (spec_eigen_peak(old(self).e1()->0, lines@, lines@[(old(self).e1()->0).lst[0] as int].dir != BI_DIR::UP))->0;
                revert_outcome_ok(r, lines@, p + 1, lines@[p - 1].end_val)
            }),
            r == spec_can_be_end(old(self).state(), old(self).dir, lines@),
    {
        if self.ele1.as_ref().unwrap().gap {
            let end_bi_idx = self.get_peak_bi_idx(lines);
            proof {
                let e1 = self.e1()->0;
                let e2 = self.e2()->0;
                lemma_eigen_peak_some(e1, lines@, lines@[e1.lst[0] as int].dir != BI_DIR::UP);
                let j = choose|j: int| 0 <= j < e1.lst.len() && e1.lst[j] == end_bi_idx + 1;
                assert(e1.lst[j] < e2.lst[0]);
                assert(e2.lst[0] < lines@.len());
            }
            let thred_value = lines[end_bi_idx].end_val;
            let break_thred = if self.is_up() {
                self.ele0.as_ref().unwrap().low
            } else {
                self.ele0.as_ref().unwrap().high
            };
            let r = self.find_revert_fx(lines, end_bi_idx + 2, thred_value, break_thred);
            proof {
                let e1 = old(self).e1()->0;
                let p = (spec_eigen_peak(e1, lines@, lines@[e1.lst[0] as int].dir != BI_DIR::UP))->0;
                assert(p == end_bi_idx + 1);
                assert(thred_value == lines@[p - 1].end_val);
                assert((end_bi_idx + 2) as int == p + 1);
            }
            r
        } else {
            Some(true)
        }
    }

    /// Scans every other line from `begin_idx` with a fresh characteristic
    /// sequence the other way, combining included lines.
    fn find_revert_fx(&mut self, lines: &Vec<CLine>, begin_idx: usize, thred_value: i64, break_thred: i64) -> (r: Option<bool>)
        requires
            lines_wf(lines@),
            begin_idx < lines@.len(),
        ensures
            *final(self) == *old(self),
            revert_outcome_ok(r, lines@, begin_idx as int, thred_value),
            r == spec_revert_scan(spec_fx_empty(), spec_revert_bi_dir(lines@[begin_idx as int].dir), lines@, begin_idx as int, thred_value, break_thred),
    {
        let first_bi_dir = lines[begin_idx].dir;
        let mut eigen_fx = CEigenFX::new(revert_bi_dir(&first_bi_dir), false, self.lv);
        let ghost rdir = eigen_fx.dir;
        let ghost goal = spec_revert_scan(spec_fx_empty(), rdir, lines@, begin_idx as int, thred_value, break_thred);
        proof {
            assert(eigen_fx.state() =~= spec_fx_empty());
        }
        let n = lines.len();
        let mut i = begin_idx;
        loop
            invariant
                !eigen_fx.exclude_included,
                eigen_fx.dir == rdir,
                rdir == spec_revert_bi_dir(lines@[begin_idx as int].dir),
                goal == spec_revert_scan(eigen_fx.state(), rdir, lines@, i as int, thred_value, break_thred),
                goal == spec_revert_scan(spec_fx_empty(), rdir, lines@, begin_idx as int, thred_value, break_thred),
                lines_wf(lines@),
                n == lines@.len(),
                begin_idx <= i < n,
                scanned_from(begin_idx as int, i as int),
                lines@[i as int].dir == first_bi_dir,
                eigen_fx.inv(lines@),
                eigen_fx.dir != first_bi_dir,
                eigen_fx.ele2 is None,
                forall|k: int| 0 <= k < eigen_fx.lst@.len() ==> #[trigger] eigen_fx.lst@[k] < i,
                forall|j: int| scanned_from(begin_idx as int, j) && j < i ==> !crosses_thred(lines@[j], thred_value),
            decreases n - i,
        {
            let bi = &lines[i];
            proof {
                assert(lines@[i as int].idx == i);
            }
            let ghost st = eigen_fx.state();
            let found = eigen_fx.add(bi, lines);
            proof {
                let pr = spec_fx_add(st, lines@[i as int], rdir, spec_kl_dir(rdir));
                assert((eigen_fx.state(), found) == pr);
                assert(eigen_fx.state() == pr.0 && found == pr.1);
                lemma_revert_step(st, rdir, lines@, i as int, thred_value, break_thred);
            }
            if found {
                return Some(true);
            }
            if (bi.is_down() && bi.low < thred_value) || (bi.is_up() && bi.high > thred_value) {
                proof {
                    assert(crosses_thred(lines@[i as int], thred_value));
                }
                return Some(false);
            }
            if eigen_fx.ele1.is_some() {
                let e1 = eigen_fx.ele1.as_ref().unwrap();
                if (bi.is_down() && e1.high > break_thred) || (bi.is_up() && e1.low < break_thred) {
                    return Some(true);
                }
            }
            if n - i <= 2 {
                proof {
                    assert forall|j: int| scanned_from(begin_idx as int, j) && j < lines@.len() implies !crosses_thred(lines@[j], thred_value) by {
                        if j > i {
                            assert(j >= i + 2);
                        }
                    }
                }
                return None;
            }
            proof {
                lemma_same_dir_two_apart(lines@, i as int);
                assert forall|j: int| scanned_from(begin_idx as int, j) && j < i + 2 implies !crosses_thred(lines@[j], thred_value) by {
                    if j > i {
                        assert(j >= i + 2);
                    }
                }
            }
            i = i + 2;
        }
    }
}

/// A strictly increasing list drawn from a strictly increasing list that
/// misses its first item is shorter than it.
pub proof fn lemma_increasing_len(a: Seq<usize>, b: Seq<usize>)
    requires
        b.len() > 0,
        forall|m: int, l: int| 0 <= m < l < a.len() ==> #[trigger] a[m] < #[trigger] a[l],
        forall|m: int, l: int| 0 <= m < l < b.len() ==> #[trigger] b[m] < #[trigger] b[l],
        forall|m: int| 0 <= m < a.len() ==> #[trigger] b.contains(a[m]),
        !a.contains(b[0]),
    ensures
        a.len() < b.len(),
{
    // Map each item of a to its position in b: positions strictly increase
    // and never hit 0.
    let pos = |m: int| choose|w: int| 0 <= w < b.len() && b[w] == a[m];
    assert forall|m: int| 0 <= m < a.len() implies 1 <= #[trigger] pos(m) < b.len() && b[pos(m)] == a[m] by {
        assert(b.contains(a[m]));
        if pos(m) == 0 {
            assert(a.contains(b[0]));
        }
    }
    assert forall|m: int| 0 <= m < a.len() implies #[trigger] pos(m) >= m + 1 by {
        lemma_pos_grows(a, b, pos, m);
    }
    if a.len() >= b.len() {
        assert(pos(a.len() - 1) >= a.len());
    }
}

proof fn lemma_pos_grows(a: Seq<usize>, b: Seq<usize>, pos: spec_fn(int) -> int, m: int)
    requires
        0 <= m < a.len(),
        forall|x: int, l: int| 0 <= x < l < a.len() ==> #[trigger] a[x] < #[trigger] a[l],
        forall|x: int, l: int| 0 <= x < l < b.len() ==> #[trigger] b[x] < #[trigger] b[l],
        forall|x: int| 0 <= x < a.len() ==> 1 <= #[trigger] pos(x) < b.len() && b[pos(x)] == a[x],
    ensures
        pos(m) >= m + 1,
    decreases m,
{
    if m > 0 {
        lemma_pos_grows(a, b, pos, m - 1);
        let p = pos(m - 1);
        let q = pos(m);
        assert(a[m - 1] < a[m]);
        if q <= p {
            if q < p {
                assert(b[q] < b[p]);
            }
        }
    }
}

pub proof fn lemma_drawn_from_self(a: Seq<usize>)
    ensures
        drawn_from(a, a),
{
    assert forall|k: int| 0 <= k < a.len() implies #[trigger] a.contains(a[k]) by {
        assert(a[k] == a[k]);
    }
}

/// Lines drawn from some kept lines and one more, all among `big`, are
/// drawn from `big`.
pub proof fn lemma_drawn_from_push(a: Seq<usize>, cur: Seq<usize>, x: usize, big: Seq<usize>)
    requires
        drawn_from(a, cur.push(x)),
        drawn_from(cur, big),
        big.contains(x),
    ensures
        drawn_from(a, big),
{
    assert forall|k: int| 0 <= k < a.len() implies #[trigger] big.contains(a[k]) by {
        assert(cur.push(x).contains(a[k]));
        let w = choose|w: int| 0 <= w < cur.push(x).len() && cur.push(x)[w] == a[k];
        if w < cur.len() {
            assert(cur[w] == a[k]);
            assert(big.contains(cur[w]));
        }
    }
}

/// Appending a line to the kept lines keeps each element's lines among them.
pub proof fn lemma_in_lst_push(e: Option<EigenView>, lst: Seq<usize>, x: usize)
    ensures
        (e matches Some(v) && in_lst(v, lst)) ==> in_lst(e->0, lst.push(x)),
{
    if e is Some && in_lst(e->0, lst) {
        let v = e->0;
        assert forall|k: int| 0 <= k < v.lst.len() implies #[trigger] lst.push(x).contains(v.lst[k]) by {
            assert(lst.contains(v.lst[k]));
            let w = choose|w: int| 0 <= w < lst.len() && lst[w] == v.lst[k];
            assert(lst.push(x)[w] == v.lst[k]);
        }
    }
}

/// Each line of an element kept among lines that all lie below `x` lies below `x`.
pub proof fn lemma_members_below(e: EigenView, lst: Seq<usize>, x: int)
    requires
        in_lst(e, lst),
        forall|k: int| 0 <= k < lst.len() ==> #[trigger] lst[k] < x,
    ensures
        forall|k: int| 0 <= k < e.lst.len() ==> #[trigger] e.lst[k] < x,
{
    assert forall|k: int| 0 <= k < e.lst.len() implies #[trigger] e.lst[k] < x by {
        assert(lst.contains(e.lst[k]));
        let w = choose|w: int| 0 <= w < lst.len() && lst[w] == e.lst[k];
    }
}

/// Every line of the element, if any, lies below `x`.
pub open spec fn all_below(e: Option<EigenView>, x: int) -> bool {
    e matches Some(v) ==> forall|k: int| 0 <= k < v.lst.len() ==> #[trigger] v.lst[k] < x
}

} // verus!

use vstd::prelude::*;
use crate::enums::{EqualMode, BI_DIR, FX_TYPE, KLINE_DIR};
use crate::line::CLine;

verus! {

/// One element of a characteristic sequence: strokes combined while one
/// contains the other, with their combined extremes.
#[derive(Debug, Clone)]
pub struct CEigen {
    pub high: i64,
    pub low: i64,
    pub lst: Vec<usize>,
    pub dir: KLINE_DIR,
    pub fx: FX_TYPE,
    pub gap: bool,
}

/// The mathematical value of an element.
#[verifier::ext_equal]
pub struct EigenView {
    pub high: i64,
    pub low: i64,
    pub lst: Seq<usize>,
    pub dir: KLINE_DIR,
    pub fx: FX_TYPE,
    pub gap: bool,
}

impl View for CEigen {
    type V = EigenView;

    open spec fn view(&self) -> EigenView {
        EigenView { high: self.high, low: self.low, lst: self.lst@, dir: self.dir, fx: self.fx, gap: self.gap }
    }
}

/// How a line relates to an element: contained in it combines; containing
/// it is included (or combines), save the equal-extreme exceptions; else the
/// line goes up or down.
pub open spec fn spec_eigen_test_combine(
    high: i64,
    low: i64,
    item: CLine,
    exclude_included: bool,
    allow_top_equal: Option<EqualMode>,
) -> KLINE_DIR {
    if high >= item.high && low <= item.low {
        KLINE_DIR::COMBINE
    } else if high <= item.high && low >= item.low {
        if allow_top_equal == Some(EqualMode::TopEqual) && high == item.high && low > item.low {
            KLINE_DIR::DOWN
        } else if allow_top_equal == Some(EqualMode::BottomEqual) && low == item.low && high < item.high {
            KLINE_DIR::UP
        } else if exclude_included {
            KLINE_DIR::INCLUDED
        } else {
            KLINE_DIR::COMBINE
        }
    } else if high > item.high {
        KLINE_DIR::DOWN
    } else {
        KLINE_DIR::UP
    }
}

/// The element after a line is merged: going up it keeps the higher
/// extremes, going down the lower ones; a flat line at the extreme changes
/// nothing.
pub open spec fn spec_eigen_added(e: EigenView, b: CLine) -> EigenView {
    let changes = if e.dir == KLINE_DIR::UP {
        b.high != b.low || b.high != e.high
    } else {
        b.high != b.low || b.low != e.low
    };
    let high = if !changes { e.high } else if e.dir == KLINE_DIR::UP {
        if e.high >= b.high { e.high } else { b.high }
    } else {
        if e.high <= b.high { e.high } else { b.high }
    };
    let low = if !changes { e.low } else if e.dir == KLINE_DIR::UP {
        if e.low >= b.low { e.low } else { b.low }
    } else {
        if e.low <= b.low { e.low } else { b.low }
    };
    EigenView { high, low, lst: e.lst.push(b.idx), ..e }
}

/// An element is sound over the lines: it holds lines in increasing order,
/// and some of them reach its high and its low.
pub open spec fn eigen_ok(e: EigenView, lines: Seq<CLine>) -> bool {
    &&& e.lst.len() >= 1
    &&& forall|k: int| 0 <= k < e.lst.len() ==> #[trigger] e.lst[k] < lines.len()
    &&& forall|k: int, l: int| 0 <= k < l < e.lst.len() ==> #[trigger] e.lst[k] < #[trigger] e.lst[l]
    &&& exists|k: int| 0 <= k < e.lst.len() && #[trigger] lines[e.lst[k] as int].high == e.high
    &&& exists|k: int| 0 <= k < e.lst.len() && #[trigger] lines[e.lst[k] as int].low == e.low
    &&& e.dir == KLINE_DIR::UP || e.dir == KLINE_DIR::DOWN
}

/// The last line of the element reaching its high (or its low).
pub open spec fn spec_eigen_peak_from(e: EigenView, lines: Seq<CLine>, k: int, is_high: bool) -> Option<usize>
    decreases k + 1,
{
    if k < 0 {
        None
    } else if (is_high && lines[e.lst[k] as int].high == e.high) || (!is_high && lines[e.lst[k] as int].low == e.low) {
        Some(e.lst[k])
    } else {
        spec_eigen_peak_from(e, lines, k - 1, is_high)
    }
}

pub open spec fn spec_eigen_peak(e: EigenView, lines: Seq<CLine>, is_high: bool) -> Option<usize> {
    spec_eigen_peak_from(e, lines, e.lst.len() - 1, is_high)
}

proof fn lemma_eigen_peak_found(e: EigenView, lines: Seq<CLine>, k: int, is_high: bool, w: int)
    requires
        0 <= w <= k < e.lst.len(),
        (is_high && lines[e.lst[w] as int].high == e.high) || (!is_high && lines[e.lst[w] as int].low == e.low),
    ensures
        spec_eigen_peak_from(e, lines, k, is_high) matches Some(x) && exists|j: int| w <= j <= k && e.lst[j] == x,
    decreases k + 1,
{
    if !((is_high && lines[e.lst[k] as int].high == e.high) || (!is_high && lines[e.lst[k] as int].low == e.low)) {
        lemma_eigen_peak_found(e, lines, k - 1, is_high, w);
    }
}

pub proof fn lemma_eigen_peak_some(e: EigenView, lines: Seq<CLine>, is_high: bool)
    requires
        eigen_ok(e, lines),
    ensures
        spec_eigen_peak(e, lines, is_high) matches Some(x) && exists|j: int| 0 <= j < e.lst.len() && e.lst[j] == x,
{
    if is_high {
        let w = choose|k: int| 0 <= k < e.lst.len() && #[trigger] lines[e.lst[k] as int].high == e.high;
        lemma_eigen_peak_found(e, lines, e.lst.len() - 1, true, w);
    } else {
        let w = choose|k: int| 0 <= k < e.lst.len() && #[trigger] lines[e.lst[k] as int].low == e.low;
        lemma_eigen_peak_found(e, lines, e.lst.len() - 1, false, w);
    }
}

impl CEigen {
    pub fn new(bi: &CLine, dir: KLINE_DIR) -> (r: Self)
        ensures
            r@ == (EigenView { high: bi.high, low: bi.low, lst: seq![bi.idx], dir, fx: FX_TYPE::UNKNOWN, gap: false }),
    {
        let mut lst = Vec::new();
        lst.push(bi.idx);
        CEigen { high: bi.high, low: bi.low, lst, dir, fx: FX_TYPE::UNKNOWN, gap: false }
    }

    pub fn test_combine(&self, item: &CLine, exclude_included: bool, allow_top_equal: Option<EqualMode>) -> (r: KLINE_DIR)
        ensures
            r == spec_eigen_test_combine(self.high, self.low, *item, exclude_included, allow_top_equal),
    {
        if self.high >= item.high && self.low <= item.low {
            return KLINE_DIR::COMBINE;
        }
        if self.high <= item.high && self.low >= item.low {
            if allow_top_equal == Some(EqualMode::TopEqual) && self.high == item.high && self.low > item.low {
                return KLINE_DIR::DOWN;
            }
            if allow_top_equal == Some(EqualMode::BottomEqual) && self.low == item.low && self.high < item.high {
                return KLINE_DIR::UP;
            }
            return if exclude_included {
                KLINE_DIR::INCLUDED
            } else {
                KLINE_DIR::COMBINE
            };
        }
        if self.high > item.high {
            KLINE_DIR::DOWN
        } else {
            KLINE_DIR::UP
        }
    }

    /// Merges the line when it combines, and says how it relates.
    pub fn try_add(&mut self, bi: &CLine, exclude_included: bool, allow_top_equal: Option<EqualMode>) -> (r: KLINE_DIR)
        requires
            old(self).dir == KLINE_DIR::UP || old(self).dir == KLINE_DIR::DOWN,
        ensures
            r == spec_eigen_test_combine(old(self).high, old(self).low, *bi, exclude_included, allow_top_equal),
            r == KLINE_DIR::COMBINE ==> final(self)@ == spec_eigen_added(old(self)@, *bi),
            r != KLINE_DIR::COMBINE ==> final(self)@ == old(self)@,
    {
        let dir = self.test_combine(bi, exclude_included, allow_top_equal);
        if dir == KLINE_DIR::COMBINE {
            self.lst.push(bi.idx);
            if self.dir == KLINE_DIR::UP {
                if bi.high != bi.low || bi.high != self.high {
                    let h = if self.high >= bi.high { self.high } else { bi.high };
                    let l = if self.low >= bi.low { self.low } else { bi.low };
                    self.high = h;
                    self.low = l;
                }
            } else {
                if bi.high != bi.low || bi.low != self.low {
                    let h = if self.high <= bi.high { self.high } else { bi.high };
                    let l = if self.low <= bi.low { self.low } else { bi.low };
                    self.high = h;
                    self.low = l;
                }
            }
        }
        dir
    }

    /// The last line of the element reaching its high (or low).
    pub fn get_peak_klu(&self, is_high: bool, lines: &Vec<CLine>) -> (r: usize)
        requires
            eigen_ok(self@, lines@),
        ensures
            Some(r) == spec_eigen_peak(self@, lines@, is_high),
            exists|j: int| 0 <= j < self@.lst.len() && self@.lst[j] == r,
    {
        proof {
            lemma_eigen_peak_some(self@, lines@, is_high);
        }
        let mut k = self.lst.len();
        while k > 0
            invariant
                eigen_ok(self@, lines@),
                k <= self@.lst.len(),
                spec_eigen_peak(self@, lines@, is_high) == spec_eigen_peak_from(self@, lines@, k - 1, is_high),
                spec_eigen_peak(self@, lines@, is_high) is Some,
            decreases k,
        {
            k = k - 1;
            let x = self.lst[k];
            if (is_high && lines[x].high == self.high) || (!is_high && lines[x].low == self.low) {
                return x;
            }
        }
        0
    }

    /// The stroke just before the peak line of a fractal element: where the
    /// segment ends.
    pub fn get_peak_bi_idx(&self, lines: &Vec<CLine>) -> (r: usize)
        requires
            eigen_ok(self@, lines@),
            self.fx != FX_TYPE::UNKNOWN,
            forall|k: int| 0 <= k < self@.lst.len() ==> #[trigger] self@.lst[k] >= 1,
        ensures
            r + 1 == (spec_eigen_peak(self@, lines@, lines@[self@.lst[0] as int].dir != BI_DIR::UP))->0,
    {
        let is_high = lines[self.lst[0]].dir != BI_DIR::UP;
        let p = self.get_peak_klu(is_high, lines);
        p - 1
    }
}

} // verus!

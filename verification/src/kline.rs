use vstd::prelude::*;
use crate::enums::{FX_CHECK_METHOD, FX_TYPE, KLINE_DIR};
use crate::func_util::{has_overlap, spec_has_overlap};
use crate::kline_unit::CKLineUnit;

verus! {

/// A combined K-line: consecutive bars merged while one contains the other.
/// `lst` holds the indices of its bars in the list of bars.
#[derive(Debug)]
pub struct CKLine {
    pub idx: usize,
    pub fx: FX_TYPE,
    pub time_begin: i64,
    pub time_end: i64,
    pub low: i64,
    pub high: i64,
    pub dir: KLINE_DIR,
    pub lst: Vec<usize>,
}

/// The mathematical value of a combined K-line.
pub struct KLineView {
    pub idx: usize,
    pub fx: FX_TYPE,
    pub time_begin: i64,
    pub time_end: i64,
    pub low: i64,
    pub high: i64,
    pub dir: KLINE_DIR,
    pub lst: Seq<usize>,
}

impl View for CKLine {
    type V = KLineView;

    open spec fn view(&self) -> KLineView {
        KLineView {
            idx: self.idx,
            fx: self.fx,
            time_begin: self.time_begin,
            time_end: self.time_end,
            low: self.low,
            high: self.high,
            dir: self.dir,
            lst: self.lst@,
        }
    }
}

/// A new combined K-line made of one bar.
pub open spec fn spec_new_klc(u: CKLineUnit, idx: usize, dir: KLINE_DIR) -> KLineView {
    KLineView {
        idx,
        fx: FX_TYPE::UNKNOWN,
        time_begin: u.time,
        time_end: u.time,
        low: u.low,
        high: u.high,
        dir,
        lst: seq![u.idx],
    }
}

/// How a bar relates to a combined K-line: one containing the other combines,
/// otherwise the bar goes up (both extremes higher) or down.
pub open spec fn spec_klc_test_combine(high: i64, low: i64, u: CKLineUnit) -> KLINE_DIR {
    if (high >= u.high && low <= u.low) || (high <= u.high && low >= u.low) {
        KLINE_DIR::COMBINE
    } else if high > u.high && low > u.low {
        KLINE_DIR::DOWN
    } else {
        KLINE_DIR::UP
    }
}

pub open spec fn max_i(a: i64, b: i64) -> i64 {
    if a >= b { a } else { b }
}

pub open spec fn min_i(a: i64, b: i64) -> i64 {
    if a <= b { a } else { b }
}

/// The high of a combined K-line after a bar is merged into it: going up it
/// keeps the higher highs and lows, going down the lower ones; a flat bar at
/// the current extreme changes nothing.
pub open spec fn spec_combined_high(k: KLineView, u: CKLineUnit) -> i64 {
    if k.dir == KLINE_DIR::UP {
        if u.high != u.low || u.high != k.high { max_i(k.high, u.high) } else { k.high }
    } else {
        if u.high != u.low || u.low != k.low { min_i(k.high, u.high) } else { k.high }
    }
}

pub open spec fn spec_combined_low(k: KLineView, u: CKLineUnit) -> i64 {
    if k.dir == KLINE_DIR::UP {
        if u.high != u.low || u.high != k.high { max_i(k.low, u.low) } else { k.low }
    } else {
        if u.high != u.low || u.low != k.low { min_i(k.low, u.low) } else { k.low }
    }
}

/// A combined K-line after a bar is merged into it.
pub open spec fn spec_add_to_klc(k: KLineView, u: CKLineUnit) -> KLineView {
    KLineView {
        idx: k.idx,
        fx: k.fx,
        time_begin: k.time_begin,
        time_end: u.time,
        low: spec_combined_low(k, u),
        high: spec_combined_high(k, u),
        dir: k.dir,
        lst: k.lst.push(u.idx),
    }
}

/// The fractal that `cur` forms between `pre` and `next`.
pub open spec fn spec_fx3(pre: KLineView, cur: KLineView, next: KLineView) -> FX_TYPE {
    if pre.high < cur.high && next.high < cur.high && pre.low < cur.low && next.low < cur.low {
        FX_TYPE::TOP
    } else if pre.high > cur.high && next.high > cur.high && pre.low > cur.low && next.low > cur.low {
        FX_TYPE::BOTTOM
    } else {
        FX_TYPE::UNKNOWN
    }
}

impl CKLine {
    pub fn new(kl_unit: &CKLineUnit, idx: usize, dir: KLINE_DIR) -> (r: Self)
        ensures
            r@ == spec_new_klc(*kl_unit, idx, dir),
    {
        let mut lst = Vec::new();
        lst.push(kl_unit.idx);
        CKLine {
            idx,
            fx: FX_TYPE::UNKNOWN,
            time_begin: kl_unit.time,
            time_end: kl_unit.time,
            low: kl_unit.low,
            high: kl_unit.high,
            dir,
            lst,
        }
    }

    pub fn test_combine(&self, item: &CKLineUnit) -> (r: KLINE_DIR)
        ensures
            r == spec_klc_test_combine(self.high, self.low, *item),
    {
        if (self.high >= item.high && self.low <= item.low) || (self.high <= item.high && self.low
            >= item.low) {
            return KLINE_DIR::COMBINE;
        }
        if self.high > item.high && self.low > item.low {
            return KLINE_DIR::DOWN;
        }
        KLINE_DIR::UP
    }

    pub fn add(&mut self, unit_kl: usize)
        ensures
            final(self)@ == (KLineView { lst: old(self)@.lst.push(unit_kl), ..old(self)@ }),
    {
        self.lst.push(unit_kl);
    }

    pub fn set_fx(&mut self, fx: FX_TYPE)
        ensures
            final(self)@ == (KLineView { fx, ..old(self)@ }),
    {
        self.fx = fx;
    }

    /// Merges the bar when it combines with this K-line, and says how the bar
    /// relates to it.
    pub fn try_add(&mut self, bar: &CKLineUnit) -> (r: KLINE_DIR)
        requires
            old(self).dir == KLINE_DIR::UP || old(self).dir == KLINE_DIR::DOWN,
        ensures
            r == spec_klc_test_combine(old(self).high, old(self).low, *bar),
            r == KLINE_DIR::COMBINE ==> final(self)@ == spec_add_to_klc(old(self)@, *bar),
            r != KLINE_DIR::COMBINE ==> final(self)@ == old(self)@,
    {
        let dir = self.test_combine(bar);
        if dir == KLINE_DIR::COMBINE {
            self.lst.push(bar.idx);
            if self.dir == KLINE_DIR::UP {
                if bar.high != bar.low || bar.high != self.high {
                    let h = if self.high >= bar.high { self.high } else { bar.high };
                    let l = if self.low >= bar.low { self.low } else { bar.low };
                    self.high = h;
                    self.low = l;
                }
            } else {
                if bar.high != bar.low || bar.low != self.low {
                    let h = if self.high <= bar.high { self.high } else { bar.high };
                    let l = if self.low <= bar.low { self.low } else { bar.low };
                    self.high = h;
                    self.low = l;
                }
            }
            self.time_end = bar.time;
        }
        dir
    }

    /// Marks this K-line a top or a bottom fractal when it is one between
    /// `pre` and `next`; otherwise leaves its mark.
    pub fn update_fx(&mut self, pre: &CKLine, next: &CKLine)
        ensures
            spec_fx3(pre@, old(self)@, next@) != FX_TYPE::UNKNOWN ==> final(self)@ == (KLineView {
                fx: spec_fx3(pre@, old(self)@, next@),
                ..old(self)@
            }),
            spec_fx3(pre@, old(self)@, next@) == FX_TYPE::UNKNOWN ==> final(self)@ == old(self)@,
    {
        if pre.high < self.high && next.high < self.high && pre.low < self.low && next.low < self.low {
            self.fx = FX_TYPE::TOP;
        } else if pre.high > self.high && next.high > self.high && pre.low > self.low && next.low
            > self.low {
            self.fx = FX_TYPE::BOTTOM;
        }
    }
}

} // verus!

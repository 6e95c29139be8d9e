use vstd::prelude::*;
use crate::enums::{FX_CHECK_METHOD, FX_TYPE, KLINE_DIR};
use crate::func_util::{has_overlap, spec_has_overlap};
use crate::kline::{
    spec_add_to_klc, spec_fx3, spec_klc_test_combine, spec_new_klc, CKLine, KLineView,
};
use crate::kline_unit::CKLineUnit;

verus! {

/// Index of the first bar of a combined K-line.
pub open spec fn klc_first(k: KLineView) -> int {
    k.lst[0] as int
}

/// Index of the last bar of a combined K-line.
pub open spec fn klc_last(k: KLineView) -> int {
    k.lst[k.lst.len() - 1] as int
}

/// Each bar knows its own index and has consistent prices.
pub open spec fn units_wf(units: Seq<CKLineUnit>) -> bool {
    forall|u: int| 0 <= u < units.len() ==> (#[trigger] units[u]).idx == u && units[u].valid()
}

/// Some bar of the combined K-line reaches its high, and some its low.
pub open spec fn klc_high_reached(k: KLineView, units: Seq<CKLineUnit>) -> bool {
    exists|u: int| klc_first(k) <= u <= klc_last(k) && (#[trigger] units[u]).high == k.high
}

pub open spec fn klc_low_reached(k: KLineView, units: Seq<CKLineUnit>) -> bool {
    exists|u: int| klc_first(k) <= u <= klc_last(k) && (#[trigger] units[u]).low == k.low
}

/// A combined K-line holds a run of consecutive bars inside the list, a low
/// not above its high, the times of its first and last bars, and extremes that
/// its bars reach.
pub open spec fn klc_ok(ks: Seq<KLineView>, units: Seq<CKLineUnit>, i: int) -> bool {
    let k = ks[i];
    &&& k.idx == i
    &&& k.lst.len() >= 1
    &&& forall|j: int| 0 <= j < k.lst.len() ==> #[trigger] k.lst[j] == k.lst[0] + j
    &&& 0 <= klc_first(k) <= klc_last(k) < units.len()
    &&& k.low <= k.high
    &&& k.time_begin == units[klc_first(k)].time
    &&& k.time_end == units[klc_last(k)].time
    &&& klc_high_reached(k, units)
    &&& klc_low_reached(k, units)
}

/// The K-line `cur` goes up from `pre` (both extremes strictly higher) or down
/// (both strictly lower): neighbours never contain one another.
pub open spec fn dir_ok(pre: KLineView, cur: KLineView) -> bool {
    ||| cur.dir == KLINE_DIR::UP && cur.high > pre.high && cur.low > pre.low
    ||| cur.dir == KLINE_DIR::DOWN && cur.high < pre.high && cur.low < pre.low
}

pub open spec fn link_ok(ks: Seq<KLineView>, i: int) -> bool {
    &&& klc_first(ks[i]) == klc_last(ks[i - 1]) + 1
    &&& dir_ok(ks[i - 1], ks[i])
}

pub open spec fn fx_ok(ks: Seq<KLineView>, i: int) -> bool {
    ks[i].fx == spec_fx3(ks[i - 1], ks[i], ks[i + 1])
}

/// The invariant of a list of combined K-lines over its bars: the combined
/// K-lines partition the bars in order, each goes strictly up or down from the
/// one before, and every inner one carries the fractal it forms with its
/// neighbours.
pub open spec fn klcs_wf(ks: Seq<KLineView>, units: Seq<CKLineUnit>) -> bool {
    &&& units_wf(units)
    &&& (ks.len() == 0 <==> units.len() == 0)
    &&& forall|i: int| 0 <= i < ks.len() ==> #[trigger] klc_ok(ks, units, i)
    &&& ks.len() > 0 ==> {
        &&& klc_first(ks[0]) == 0
        &&& klc_last(ks[ks.len() - 1]) == units.len() - 1
        &&& ks[0].dir == KLINE_DIR::UP
        &&& ks[0].fx == FX_TYPE::UNKNOWN
        &&& ks[ks.len() - 1].fx == FX_TYPE::UNKNOWN
    }
    &&& forall|i: int| 0 < i < ks.len() ==> #[trigger] link_ok(ks, i)
    &&& forall|i: int| 0 < i < ks.len() - 1 ==> #[trigger] fx_ok(ks, i)
}

/// The bars of one period and the combined K-lines built from them.
pub struct CKLineList {
    pub lst: Vec<CKLine>,
    pub units: Vec<CKLineUnit>,
}

/// The combined K-lines once bar `u` is added to `ks`, and whether a new one
/// was started after an existing one: the first bar starts the first
/// K-line, going up; a bar that contains, or is contained in, the last
/// K-line is merged into it; any other bar starts a new K-line in its
/// direction, which settles the fractal of the one before.
pub open spec fn spec_klcs_after(ks: Seq<KLineView>, u: CKLineUnit) -> (Seq<KLineView>, bool) {
    let n = ks.len();
    if n == 0 {
        (seq![spec_new_klc(u, 0, KLINE_DIR::UP)], false)
    } else {
        let d = spec_klc_test_combine(ks[n - 1].high, ks[n - 1].low, u);
        if d == KLINE_DIR::COMBINE {
            (ks.update(n - 1, spec_add_to_klc(ks[n - 1], u)), false)
        } else {
            (
                ks.update(
                    n - 1,
                    KLineView {
                        fx: if n >= 2 { spec_fx3(ks[n - 2], ks[n - 1], spec_new_klc(u, n as usize, d)) } else { ks[n - 1].fx },
                        ..ks[n - 1]
                    },
                ).push(spec_new_klc(u, n as usize, d)),
                true,
            )
        }
    }
}

impl CKLineList {
    /// The combined K-lines as values.
    pub open spec fn klcs(&self) -> Seq<KLineView> {
        self.lst@.map_values(|k: CKLine| k@)
    }

    pub open spec fn wf(&self) -> bool {
        klcs_wf(self.klcs(), self.units@)
    }

    pub fn new() -> (r: Self)
        ensures
            r.wf(),
            r.klcs().len() == 0,
            r.units@.len() == 0,
    {
        CKLineList { lst: Vec::new(), units: Vec::new() }
    }

    /// The fractal the last but one K-line forms with its neighbours.
    fn check_fx(pre: &CKLine, cur: &CKLine, next: &CKLine) -> (r: FX_TYPE)
        ensures
            r == spec_fx3(pre@, cur@, next@),
    {
        if pre.high < cur.high && next.high < cur.high && pre.low < cur.low && next.low < cur.low {
            return FX_TYPE::TOP;
        }
        if pre.high > cur.high && next.high > cur.high && pre.low > cur.low && next.low > cur.low {
            return FX_TYPE::BOTTOM;
        }
        FX_TYPE::UNKNOWN
    }

    /// Adds the next bar (which gets the next index): it is merged into the
    /// last combined K-line when one contains the other, and starts a new one
    /// otherwise, which settles the fractal of the one before. Returns whether
    /// a new combined K-line was started after an existing one.
    pub fn update_candle(&mut self, klu: CKLineUnit) -> (r: bool)
        requires
            old(self).wf(),
            klu.valid(),
            old(self).units@.len() < usize::MAX - 1,
        ensures
            final(self).wf(),
            ({
                let u = CKLineUnit { idx: old(self).units@.len() as usize, ..klu };
                let ks = old(self).klcs();
                let n = ks.len();
                &&& final(self).units@ == old(self).units@.push(u)
                &&& n == 0 ==> !r && final(self).klcs() == seq![spec_new_klc(u, 0, KLINE_DIR::UP)]
                &&& n > 0 ==> {
                    let d = spec_klc_test_combine(ks[n - 1].high, ks[n - 1].low, u);
                    &&& r == (d != KLINE_DIR::COMBINE)
                    &&& d == KLINE_DIR::COMBINE ==> final(self).klcs() == ks.update(
                        n - 1,
                        spec_add_to_klc(ks[n - 1], u),
                    )
                    &&& d != KLINE_DIR::COMBINE ==> final(self).klcs() == ks.update(
                        n - 1,
                        KLineView {
                            fx: if n >= 2 { spec_fx3(ks[n - 2], ks[n - 1], spec_new_klc(u, n as usize, d)) } else { ks[n - 1].fx },
                            ..ks[n - 1]
                        },
                    ).push(spec_new_klc(u, n as usize, d))
                }
            }),
            (final(self).klcs(), r) == spec_klcs_after(
                old(self).klcs(),
                CKLineUnit { idx: old(self).units@.len() as usize, ..klu },
            ),
    {
        let ghost old_ks = self.klcs();
        let ghost old_units = self.units@;
        let mut klu = klu;
        klu.idx = self.units.len();
        self.units.push(klu);
        proof {
            lemma_units_push(old_units, klu);
        }
        if self.lst.len() == 0 {
            let k = CKLine::new(&klu, 0, KLINE_DIR::UP);
            self.lst.push(k);
            proof {
                assert(self.klcs() =~= seq![spec_new_klc(klu, 0, KLINE_DIR::UP)]);
                let ks = self.klcs();
                assert(klc_high_reached(ks[0], self.units@)) by {
                    assert(self.units@[0].high == ks[0].high);
                }
                assert(klc_low_reached(ks[0], self.units@)) by {
                    assert(self.units@[0].low == ks[0].low);
                }
                assert(klc_ok(ks, self.units@, 0));
            }
            return false;
        }
        let n = self.lst.len();
        let mut last = self.lst.pop().unwrap();
        proof {
            assert(old_ks[n - 1] == last@);
            assert(klc_ok(old_ks, old_units, n - 1));
            if n > 1 {
                assert(link_ok(old_ks, n - 1));
            }
        }
        let d = last.try_add(&klu);
        if d == KLINE_DIR::COMBINE {
            self.lst.push(last);
            proof {
                let ks = self.klcs();
                assert(ks =~= old_ks.update(n - 1, spec_add_to_klc(old_ks[n - 1], klu)));
                lemma_combine_wf(old_ks, old_units, klu);
            }
            return false;
        }
        let new_klc = CKLine::new(&klu, n, d);
        if n >= 2 {
            let fx = Self::check_fx(&self.lst[n - 2], &last, &new_klc);
            last.fx = fx;
        }
        self.lst.push(last);
        self.lst.push(new_klc);
        proof {
            let ks = self.klcs();
            let target = old_ks.update(
                n - 1,
                KLineView {
                    fx: if n >= 2 { spec_fx3(old_ks[n - 2], old_ks[n - 1], spec_new_klc(klu, n as usize, d)) } else { old_ks[n - 1].fx },
                    ..old_ks[n - 1]
                },
            ).push(spec_new_klc(klu, n as usize, d));
            assert(ks =~= target);
            lemma_klc_count(old_ks, old_units, n - 1);
            lemma_new_klc_wf(old_ks, old_units, klu, d);
        }
        true
    }
}


/// The highest high among bars lo..=hi.
pub open spec fn range_max_high(units: Seq<CKLineUnit>, lo: int, hi: int) -> i64
    decreases hi - lo,
{
    if hi <= lo {
        units[lo].high
    } else {
        let m = range_max_high(units, lo, hi - 1);
        if m >= units[hi].high { m } else { units[hi].high }
    }
}

/// The lowest low among bars lo..=hi.
pub open spec fn range_min_low(units: Seq<CKLineUnit>, lo: int, hi: int) -> i64
    decreases hi - lo,
{
    if hi <= lo {
        units[lo].low
    } else {
        let m = range_min_low(units, lo, hi - 1);
        if m <= units[hi].low { m } else { units[hi].low }
    }
}

/// The highest high of the bars of combined K-line i.
pub open spec fn spec_klu_max_high(ks: Seq<KLineView>, units: Seq<CKLineUnit>, i: int) -> i64 {
    range_max_high(units, klc_first(ks[i]), klc_last(ks[i]))
}

/// The lowest low of the bars of combined K-line i.
pub open spec fn spec_klu_min_low(ks: Seq<KLineView>, units: Seq<CKLineUnit>, i: int) -> i64 {
    range_min_low(units, klc_first(ks[i]), klc_last(ks[i]))
}

/// Whether combined K-line i leaves a gap to the next one: their bars' ranges
/// do not even touch.
pub open spec fn spec_has_gap_with_next(ks: Seq<KLineView>, units: Seq<CKLineUnit>, i: int) -> bool {
    i + 1 < ks.len() && !spec_has_overlap(
        spec_klu_min_low(ks, units, i) as int,
        spec_klu_max_high(ks, units, i) as int,
        spec_klu_min_low(ks, units, i + 1) as int,
        spec_klu_max_high(ks, units, i + 1) as int,
        true,
    )
}

/// Whether the fractal at K-line i and the opposite one at K-line j are far
/// enough apart to bound a stroke, under the given method. With `for_virtual`,
/// j need not be a fractal yet but must point the right way.
pub open spec fn spec_check_fx_valid(
    ks: Seq<KLineView>,
    i: int,
    j: int,
    method: FX_CHECK_METHOD,
    for_virtual: bool,
) -> bool {
    let cur = ks[i];
    let pre = ks[i - 1];
    let next = ks[i + 1];
    let item2 = ks[j];
    let pre2 = ks[j - 1];
    if cur.fx == FX_TYPE::TOP {
        if for_virtual && item2.dir != KLINE_DIR::DOWN {
            false
        } else {
            let item2_high: i64 = match method {
                FX_CHECK_METHOD::HALF => max_i64(pre2.high, item2.high),
                FX_CHECK_METHOD::LOSS => item2.high,
                _ => if for_virtual {
                    max_i64(pre2.high, item2.high)
                } else {
                    max_i64(max_i64(pre2.high, item2.high), ks[j + 1].high)
                },
            };
            let self_low: i64 = match method {
                FX_CHECK_METHOD::HALF => min_i64(cur.low, next.low),
                FX_CHECK_METHOD::LOSS => cur.low,
                _ => min_i64(min_i64(pre.low, cur.low), next.low),
            };
            if method == FX_CHECK_METHOD::TOTALLY {
                cur.low > item2_high
            } else {
                cur.high > item2_high && item2.low < self_low
            }
        }
    } else {
        if for_virtual && item2.dir != KLINE_DIR::UP {
            false
        } else {
            let item2_low: i64 = match method {
                FX_CHECK_METHOD::HALF => min_i64(pre2.low, item2.low),
                FX_CHECK_METHOD::LOSS => item2.low,
                _ => if for_virtual {
                    min_i64(pre2.low, item2.low)
                } else {
                    min_i64(min_i64(pre2.low, item2.low), ks[j + 1].low)
                },
            };
            let cur_high: i64 = match method {
                FX_CHECK_METHOD::HALF => max_i64(cur.high, next.high),
                FX_CHECK_METHOD::LOSS => cur.high,
                _ => max_i64(max_i64(pre.high, cur.high), next.high),
            };
            if method == FX_CHECK_METHOD::TOTALLY {
                cur.high < item2_low
            } else {
                cur.low < item2_low && item2.high > cur_high
            }
        }
    }
}

pub open spec fn max_i64(a: i64, b: i64) -> i64 {
    if a >= b { a } else { b }
}

pub open spec fn min_i64(a: i64, b: i64) -> i64 {
    if a <= b { a } else { b }
}

/// What `check_fx_valid` needs: i is a fractal with neighbours on both sides,
/// j lies after it, and, unless `for_virtual`, j is the opposite fractal.
pub open spec fn check_fx_valid_pre(
    ks: Seq<KLineView>,
    i: int,
    j: int,
    method: FX_CHECK_METHOD,
    for_virtual: bool,
) -> bool {
    &&& 1 <= i
    &&& i + 1 < ks.len()
    &&& i < j < ks.len()
    &&& ks[i].fx == FX_TYPE::TOP || ks[i].fx == FX_TYPE::BOTTOM
    &&& !for_virtual ==> (ks[i].fx == FX_TYPE::TOP ==> ks[j].fx == FX_TYPE::BOTTOM)
    &&& !for_virtual ==> (ks[i].fx == FX_TYPE::BOTTOM ==> ks[j].fx == FX_TYPE::TOP)
    &&& (!for_virtual && (method == FX_CHECK_METHOD::STRICT || method == FX_CHECK_METHOD::TOTALLY))
        ==> j + 1 < ks.len()
}

fn max2(a: i64, b: i64) -> (r: i64)
    ensures
        r == max_i64(a, b),
{
    if a >= b { a } else { b }
}

fn min2(a: i64, b: i64) -> (r: i64)
    ensures
        r == min_i64(a, b),
{
    if a <= b { a } else { b }
}

impl CKLineList {
    pub fn len(&self) -> (r: usize)
        ensures
            r == self.klcs().len(),
    {
        self.lst.len()
    }

    /// The highest high among the bars of combined K-line i.
    pub fn get_klu_max_high(&self, i: usize) -> (r: i64)
        requires
            self.wf(),
            i < self.klcs().len(),
        ensures
            r == spec_klu_max_high(self.klcs(), self.units@, i as int),
    {
        let ghost ks = self.klcs();
        proof {
            assert(klc_ok(ks, self.units@, i as int));
        }
        let k = &self.lst[i];
        let first = k.lst[0];
        let last = k.lst[k.lst.len() - 1];
        let mut m = self.units[first].high;
        let mut u = first;
        while u < last
            invariant
                ks == self.klcs(),
                ks[i as int] == self.lst@[i as int]@,
                first as int == klc_first(ks[i as int]),
                last as int == klc_last(ks[i as int]),
                first <= u <= last,
                last < self.units@.len(),
                m == range_max_high(self.units@, first as int, u as int),
            decreases last - u,
        {
            u = u + 1;
            if self.units[u].high > m {
                m = self.units[u].high;
            }
        }
        m
    }

    /// The lowest low among the bars of combined K-line i.
    pub fn get_klu_min_low(&self, i: usize) -> (r: i64)
        requires
            self.wf(),
            i < self.klcs().len(),
        ensures
            r == spec_klu_min_low(self.klcs(), self.units@, i as int),
    {
        let ghost ks = self.klcs();
        proof {
            assert(klc_ok(ks, self.units@, i as int));
        }
        let k = &self.lst[i];
        let first = k.lst[0];
        let last = k.lst[k.lst.len() - 1];
        let mut m = self.units[first].low;
        let mut u = first;
        while u < last
            invariant
                ks == self.klcs(),
                ks[i as int] == self.lst@[i as int]@,
                first as int == klc_first(ks[i as int]),
                last as int == klc_last(ks[i as int]),
                first <= u <= last,
                last < self.units@.len(),
                m == range_min_low(self.units@, first as int, u as int),
            decreases last - u,
        {
            u = u + 1;
            if self.units[u].low < m {
                m = self.units[u].low;
            }
        }
        m
    }

    /// Whether combined K-line i leaves a gap to the next one.
    pub fn has_gap_with_next(&self, i: usize) -> (r: bool)
        requires
            self.wf(),
            i < self.klcs().len(),
        ensures
            r == spec_has_gap_with_next(self.klcs(), self.units@, i as int),
    {
        if i < self.lst.len() - 1 {
            !has_overlap(
                self.get_klu_min_low(i),
                self.get_klu_max_high(i),
                self.get_klu_min_low(i + 1),
                self.get_klu_max_high(i + 1),
                true,
            )
        } else {
            false
        }
    }

    /// Whether the fractal at K-line i and the one at K-line j may bound a
    /// stroke (see `spec_check_fx_valid`).
    pub fn check_fx_valid(&self, i: usize, j: usize, method: FX_CHECK_METHOD, for_virtual: bool) -> (r: bool)
        requires
            check_fx_valid_pre(self.klcs(), i as int, j as int, method, for_virtual),
        ensures
            r == spec_check_fx_valid(self.klcs(), i as int, j as int, method, for_virtual),
    {
        let _n = self.lst.len();
        let cur = &self.lst[i];
        let pre = &self.lst[i - 1];
        let next = &self.lst[i + 1];
        let item2 = &self.lst[j];
        let pre2 = &self.lst[j - 1];
        if cur.fx == FX_TYPE::TOP {
            if for_virtual && item2.dir != KLINE_DIR::DOWN {
                return false;
            }
            let (item2_high, self_low) = match method {
                FX_CHECK_METHOD::HALF => (max2(pre2.high, item2.high), min2(cur.low, next.low)),
                FX_CHECK_METHOD::LOSS => (item2.high, cur.low),
                FX_CHECK_METHOD::STRICT | FX_CHECK_METHOD::TOTALLY => {
                    let item2_high = if for_virtual {
                        max2(pre2.high, item2.high)
                    } else {

                        max2(max2(pre2.high, item2.high), self.lst[j + 1].high)
                    };
                    let self_low = min2(min2(pre.low, cur.low), next.low);
                    (item2_high, self_low)
                },
            };
            if method == FX_CHECK_METHOD::TOTALLY {
                cur.low > item2_high
            } else {
                cur.high > item2_high && item2.low < self_low
            }
        } else {
            if for_virtual && item2.dir != KLINE_DIR::UP {
                return false;
            }
            let (item2_low, cur_high) = match method {
                FX_CHECK_METHOD::HALF => (min2(pre2.low, item2.low), max2(cur.high, next.high)),
                FX_CHECK_METHOD::LOSS => (item2.low, cur.high),
                FX_CHECK_METHOD::STRICT | FX_CHECK_METHOD::TOTALLY => {
                    let item2_low = if for_virtual {
                        min2(pre2.low, item2.low)
                    } else {
                        min2(min2(pre2.low, item2.low), self.lst[j + 1].low)
                    };
                    let cur_high = max2(max2(pre.high, cur.high), next.high);
                    (item2_low, cur_high)
                },
            };
            if method == FX_CHECK_METHOD::TOTALLY {
                cur.high < item2_low
            } else {
                cur.low < item2_low && item2.high > cur_high
            }
        }
    }

    /// The last bar of combined K-line i whose high (or low, when `is_high`
    /// is false) equals the K-line's high (low).
    pub fn get_peak_klu(&self, i: usize, is_high: bool) -> (r: Option<usize>)
        requires
            self.wf(),
            i < self.klcs().len(),
        ensures
            r == spec_peak_klu(self.klcs(), self.units@, i as int, is_high),
            r is Some,
    {
        if is_high {
            self.get_high_peak_klu(i)
        } else {
            self.get_low_peak_klu(i)
        }
    }

    pub fn get_high_peak_klu(&self, i: usize) -> (r: Option<usize>)
        requires
            self.wf(),
            i < self.klcs().len(),
        ensures
            r == spec_peak_klu(self.klcs(), self.units@, i as int, true),
            r is Some,
    {
        let ghost ks = self.klcs();
        proof {
            assert(klc_ok(ks, self.units@, i as int));
        }
        let ulen = self.units.len();
        proof {
            lemma_peak_klu_exists(ks, self.units@, i as int, true);
        }
        let k = &self.lst[i];
        let first = k.lst[0];
        let mut u = k.lst[k.lst.len() - 1] + 1;
        while u > first
            invariant
                ks == self.klcs(),
                ks[i as int] == self.lst@[i as int]@,
                first as int == klc_first(ks[i as int]),
                first <= u <= klc_last(ks[i as int]) + 1,
                ulen == self.units@.len(),
                klc_last(ks[i as int]) < self.units@.len(),
                k.high == ks[i as int].high,
                spec_peak_from(self.units@, first as int, klc_last(ks[i as int]), k.high, true)
                    == spec_peak_from(self.units@, first as int, u - 1, k.high, true),
            decreases u,
        {
            u = u - 1;
            if self.units[u].high == k.high {
                return Some(u);
            }
        }
        None
    }

    pub fn get_low_peak_klu(&self, i: usize) -> (r: Option<usize>)
        requires
            self.wf(),
            i < self.klcs().len(),
        ensures
            r == spec_peak_klu(self.klcs(), self.units@, i as int, false),
            r is Some,
    {
        let ghost ks = self.klcs();
        proof {
            assert(klc_ok(ks, self.units@, i as int));
        }
        let ulen = self.units.len();
        proof {
            lemma_peak_klu_exists(ks, self.units@, i as int, false);
        }
        let k = &self.lst[i];
        let first = k.lst[0];
        let mut u = k.lst[k.lst.len() - 1] + 1;
        while u > first
            invariant
                ks == self.klcs(),
                ks[i as int] == self.lst@[i as int]@,
                first as int == klc_first(ks[i as int]),
                first <= u <= klc_last(ks[i as int]) + 1,
                ulen == self.units@.len(),
                klc_last(ks[i as int]) < self.units@.len(),
                k.low == ks[i as int].low,
                spec_peak_from(self.units@, first as int, klc_last(ks[i as int]), k.low, false)
                    == spec_peak_from(self.units@, first as int, u - 1, k.low, false),
            decreases u,
        {
            u = u - 1;
            if self.units[u].low == k.low {
                return Some(u);
            }
        }
        None
    }
}

/// Searching bars hi, hi-1, ..., lo for the first whose high (or low) equals v.
pub open spec fn spec_peak_from(units: Seq<CKLineUnit>, lo: int, hi: int, v: i64, is_high: bool) -> Option<usize>
    decreases hi - lo + 1,
{
    if hi < lo {
        None
    } else if (is_high && units[hi].high == v) || (!is_high && units[hi].low == v) {
        Some(hi as usize)
    } else {
        spec_peak_from(units, lo, hi - 1, v, is_high)
    }
}

/// The last bar of combined K-line i reaching its high (or its low).
pub open spec fn spec_peak_klu(ks: Seq<KLineView>, units: Seq<CKLineUnit>, i: int, is_high: bool) -> Option<usize> {
    spec_peak_from(units, klc_first(ks[i]), klc_last(ks[i]), if is_high { ks[i].high } else { ks[i].low }, is_high)
}

proof fn lemma_peak_from_some(units: Seq<CKLineUnit>, lo: int, hi: int, v: i64, is_high: bool, w: int)
    requires
        lo <= w <= hi,
        0 <= lo,
        hi < usize::MAX,
        (is_high && units[w].high == v) || (!is_high && units[w].low == v),
    ensures
        spec_peak_from(units, lo, hi, v, is_high) matches Some(x) && lo <= x <= hi && w <= x,
    decreases hi - lo + 1,
{
    if !((is_high && units[hi].high == v) || (!is_high && units[hi].low == v)) {
        lemma_peak_from_some(units, lo, hi - 1, v, is_high, w);
    }
}

proof fn lemma_peak_klu_exists(ks: Seq<KLineView>, units: Seq<CKLineUnit>, i: int, is_high: bool)
    requires
        0 <= i < ks.len(),
        klc_ok(ks, units, i),
        units.len() <= usize::MAX,
    ensures
        spec_peak_klu(ks, units, i, is_high) is Some,
        spec_peak_klu(ks, units, i, is_high) matches Some(x) && klc_first(ks[i]) <= x <= klc_last(ks[i]),
{
    let k = ks[i];
    if is_high {
        let w = choose|x: int| klc_first(k) <= x <= klc_last(k) && (#[trigger] units[x]).high == k.high;
        lemma_peak_from_some(units, klc_first(k), klc_last(k), k.high, true, w);
    } else {
        let w = choose|x: int| klc_first(k) <= x <= klc_last(k) && (#[trigger] units[x]).low == k.low;
        lemma_peak_from_some(units, klc_first(k), klc_last(k), k.low, false, w);
    }
}

/// The bar where a combined K-line peaks is one of its own bars.
pub proof fn lemma_peak_klu_in(ks: Seq<KLineView>, units: Seq<CKLineUnit>, i: int, is_high: bool)
    requires
        klcs_wf(ks, units),
        0 <= i < ks.len(),
        units.len() <= usize::MAX,
    ensures
        spec_peak_klu(ks, units, i, is_high) matches Some(x) && x < units.len(),
{
    assert(klc_ok(ks, units, i));
    lemma_peak_klu_exists(ks, units, i, is_high);
}

/// The i-th combined K-line ends at bar i or later.
pub proof fn lemma_klc_count(ks: Seq<KLineView>, units: Seq<CKLineUnit>, i: int)
    requires
        klcs_wf(ks, units),
        0 <= i < ks.len(),
    ensures
        klc_last(ks[i]) >= i,
        klc_first(ks[i]) >= i,
    decreases i,
{
    assert(klc_ok(ks, units, i));
    if i > 0 {
        lemma_klc_count(ks, units, i - 1);
        assert(link_ok(ks, i));
    }
}

proof fn lemma_units_push(units: Seq<CKLineUnit>, u: CKLineUnit)
    requires
        units_wf(units),
        u.idx == units.len(),
        u.valid(),
    ensures
        units_wf(units.push(u)),
{
    assert forall|v: int| 0 <= v < units.push(u).len() implies (#[trigger] units.push(u)[v]).idx == v
        && units.push(u)[v].valid() by {
        if v < units.len() {
            assert(units.push(u)[v] == units[v]);
        }
    }
}

/// A combined K-line of the old bars keeps its shape once a bar is appended.
proof fn lemma_klc_ok_extend(ks: Seq<KLineView>, ks2: Seq<KLineView>, units: Seq<CKLineUnit>, u: CKLineUnit, i: int)
    requires
        0 <= i < ks.len(),
        i < ks2.len(),
        ks2[i] == ks[i],
        klc_ok(ks, units, i),
    ensures
        klc_ok(ks2, units.push(u), i),
{
    let k = ks[i];
    let units2 = units.push(u);
    let wh = choose|x: int| klc_first(k) <= x <= klc_last(k) && (#[trigger] units[x]).high == k.high;
    let wl = choose|x: int| klc_first(k) <= x <= klc_last(k) && (#[trigger] units[x]).low == k.low;
    assert(units2[wh] == units[wh]);
    assert(units2[wl] == units[wl]);
    assert(units2[klc_first(k)] == units[klc_first(k)]);
    assert(units2[klc_last(k)] == units[klc_last(k)]);
}

proof fn lemma_combine_wf(ks: Seq<KLineView>, units: Seq<CKLineUnit>, u: CKLineUnit)
    requires
        klcs_wf(ks, units),
        ks.len() > 0,
        u.idx == units.len(),
        u.valid(),
        ks[ks.len() - 1].dir == KLINE_DIR::UP || ks[ks.len() - 1].dir == KLINE_DIR::DOWN,
        spec_klc_test_combine(ks[ks.len() - 1].high, ks[ks.len() - 1].low, u) == KLINE_DIR::COMBINE,
    ensures
        klcs_wf(ks.update(ks.len() - 1, spec_add_to_klc(ks[ks.len() - 1], u)), units.push(u)),
{
    let n = ks.len() as int;
    let k = ks[n - 1];
    let k2 = spec_add_to_klc(k, u);
    let ks2 = ks.update(n - 1, k2);
    let units2 = units.push(u);
    lemma_units_push(units, u);
    assert(klc_ok(ks, units, n - 1));
    assert forall|i: int| 0 <= i < ks2.len() implies #[trigger] klc_ok(ks2, units2, i) by {
        if i < n - 1 {
            assert(klc_ok(ks, units, i));
            lemma_klc_ok_extend(ks, ks2, units, u, i);
        } else {
            assert(forall|j: int| 0 <= j < k2.lst.len() ==> #[trigger] k2.lst[j] == k2.lst[0] + j) by {
                assert forall|j: int| 0 <= j < k2.lst.len() implies #[trigger] k2.lst[j] == k2.lst[0] + j by {
                    if j < k.lst.len() {
                        assert(k2.lst[j] == k.lst[j]);
                    }
                }
            }
            assert(klc_last(k2) == units.len());
            assert(units2[klc_first(k)] == units[klc_first(k)]);
            let wh = choose|x: int| klc_first(k) <= x <= klc_last(k) && (#[trigger] units[x]).high == k.high;
            let wl = choose|x: int| klc_first(k) <= x <= klc_last(k) && (#[trigger] units[x]).low == k.low;
            assert(units2[wh] == units[wh]);
            assert(units2[wl] == units[wl]);
            assert(units2[units.len() as int] == u);
            assert(klc_high_reached(k2, units2));
            assert(klc_low_reached(k2, units2));
        }
    }
    assert forall|i: int| 0 < i < ks2.len() implies #[trigger] link_ok(ks2, i) by {
        assert(link_ok(ks, i));
    }
    assert forall|i: int| 0 < i < ks2.len() - 1 implies #[trigger] fx_ok(ks2, i) by {
        assert(fx_ok(ks, i));
        if i == n - 2 {
            assert(link_ok(ks, n - 1));
        }
    }
}

proof fn lemma_new_klc_wf(ks: Seq<KLineView>, units: Seq<CKLineUnit>, u: CKLineUnit, d: KLINE_DIR)
    requires
        klcs_wf(ks, units),
        ks.len() > 0,
        u.idx == units.len(),
        u.valid(),
        d == spec_klc_test_combine(ks[ks.len() - 1].high, ks[ks.len() - 1].low, u),
        d != KLINE_DIR::COMBINE,
        ks.len() < usize::MAX,
    ensures
        ({
            let n = ks.len();
            klcs_wf(
                ks.update(
                    n - 1,
                    KLineView {
                        fx: if n >= 2 { spec_fx3(ks[n - 2], ks[n - 1], spec_new_klc(u, n as usize, d)) } else { ks[n - 1].fx },
                        ..ks[n - 1]
                    },
                ).push(spec_new_klc(u, n as usize, d)),
                units.push(u),
            )
        }),
{
    let n = ks.len() as int;
    let k = ks[n - 1];
    let nk = spec_new_klc(u, n as usize, d);
    let k1 = KLineView {
        fx: if n >= 2 { spec_fx3(ks[n - 2], ks[n - 1], nk) } else { ks[n - 1].fx },
        ..ks[n - 1]
    };
    let ks2 = ks.update(n - 1, k1).push(nk);
    let units2 = units.push(u);
    lemma_units_push(units, u);
    assert(klc_ok(ks, units, n - 1));
    assert forall|i: int| 0 <= i < ks2.len() implies #[trigger] klc_ok(ks2, units2, i) by {
        if i < n - 1 {
            assert(klc_ok(ks, units, i));
            lemma_klc_ok_extend(ks, ks2, units, u, i);
        } else if i == n - 1 {
            let wh = choose|x: int| klc_first(k) <= x <= klc_last(k) && (#[trigger] units[x]).high == k.high;
            let wl = choose|x: int| klc_first(k) <= x <= klc_last(k) && (#[trigger] units[x]).low == k.low;
            assert(units2[wh] == units[wh]);
            assert(units2[wl] == units[wl]);
            assert(units2[klc_first(k)] == units[klc_first(k)]);
            assert(units2[klc_last(k)] == units[klc_last(k)]);
            assert(klc_high_reached(k1, units2));
            assert(klc_low_reached(k1, units2));
            assert(ks2[i] == k1);
            assert(k1.lst == k.lst);
            assert(forall|j: int| 0 <= j < k.lst.len() ==> #[trigger] k.lst[j] == k.lst[0] + j);
        } else {
            assert(units2[units.len() as int] == u);
            assert(ks2[i] == nk);
            assert(klc_high_reached(nk, units2));
            assert(klc_low_reached(nk, units2));
            assert(forall|j: int| 0 <= j < nk.lst.len() ==> #[trigger] nk.lst[j] == nk.lst[0] + j);
            assert(klc_first(nk) == units.len());
        }
    }
    assert forall|i: int| 0 < i < ks2.len() implies #[trigger] link_ok(ks2, i) by {
        if i < n {
            assert(link_ok(ks, i));
        }
    }
    assert forall|i: int| 0 < i < ks2.len() - 1 implies #[trigger] fx_ok(ks2, i) by {
        if i < n - 1 {
            assert(fx_ok(ks, i));
        }
    }
}

} // verus!

use vstd::prelude::*;
use crate::enums::{BI_DIR, ZsCombineMode};
use crate::func_util::{has_overlap, spec_has_overlap};
use crate::line::CLine;
use crate::seg::CSeg;

verus! {

/// A pivot (zhongshu): the price range that a run of lines, from `begin_bi`
/// to `end_bi`, all pass through; `begin` and `end` are the bars where it
/// starts and ends, `peak_low`/`peak_high` the extremes of its lines.
pub struct CZS {
    pub is_sure: bool,
    pub sub_zs_lst: Vec<CZS>,
    pub begin: Option<usize>,
    pub begin_bi: Option<usize>,
    pub low: i64,
    pub high: i64,
    pub mid: i64,
    pub end: Option<usize>,
    pub end_bi: Option<usize>,
    pub peak_high: i64,
    pub peak_low: i64,
    pub bi_in: Option<usize>,
    pub bi_out: Option<usize>,
    pub bi_lst: Vec<usize>,
}

/// The value of a pivot, of its sub-pivots only how many there are.
#[verifier::ext_equal]
pub struct ZsView {
    pub is_sure: bool,
    pub begin: Option<usize>,
    pub begin_bi: Option<usize>,
    pub low: i64,
    pub high: i64,
    pub mid: i64,
    pub end: Option<usize>,
    pub end_bi: Option<usize>,
    pub peak_high: i64,
    pub peak_low: i64,
    pub bi_in: Option<usize>,
    pub bi_out: Option<usize>,
    pub bi_lst: Seq<usize>,
    pub sub_zs_count: nat,
}

impl CZS {
    pub open spec fn zv(&self) -> ZsView {
        ZsView {
            is_sure: self.is_sure,
            begin: self.begin,
            begin_bi: self.begin_bi,
            low: self.low,
            high: self.high,
            mid: self.mid,
            end: self.end,
            end_bi: self.end_bi,
            peak_high: self.peak_high,
            peak_low: self.peak_low,
            bi_in: self.bi_in,
            bi_out: self.bi_out,
            bi_lst: self.bi_lst@,
            sub_zs_count: self.sub_zs_lst@.len(),
        }
    }
}

/// The highest low of the first `n` lines.
pub open spec fn spec_max_low(s: Seq<CLine>, n: int) -> i64
    decreases n,
{
    if n <= 0 {
        i64::MIN
    } else {
        let m = spec_max_low(s, n - 1);
        if s[n - 1].low > m { s[n - 1].low } else { m }
    }
}

/// The lowest high of the first `n` lines.
pub open spec fn spec_min_high(s: Seq<CLine>, n: int) -> i64
    decreases n,
{
    if n <= 0 {
        i64::MAX
    } else {
        let m = spec_min_high(s, n - 1);
        if s[n - 1].high < m { s[n - 1].high } else { m }
    }
}

/// The lowest low of the first `n` lines.
pub open spec fn spec_min_low(s: Seq<CLine>, n: int) -> i64
    decreases n,
{
    if n <= 0 {
        i64::MAX
    } else {
        let m = spec_min_low(s, n - 1);
        if s[n - 1].low < m { s[n - 1].low } else { m }
    }
}

/// The highest high of the first `n` lines.
pub open spec fn spec_max_high(s: Seq<CLine>, n: int) -> i64
    decreases n,
{
    if n <= 0 {
        i64::MIN
    } else {
        let m = spec_max_high(s, n - 1);
        if s[n - 1].high > m { s[n - 1].high } else { m }
    }
}

/// The lowest low is no higher than the highest low, and the lowest high no
/// higher than the highest high.
pub proof fn lemma_extremes_order(s: Seq<CLine>, n: int)
    requires
        n >= 1,
    ensures
        spec_min_low(s, n) <= spec_max_low(s, n),
        spec_min_high(s, n) <= spec_max_high(s, n),
    decreases n,
{
    if n > 1 {
        lemma_extremes_order(s, n - 1);
    }
}

pub open spec fn min64(a: i64, b: i64) -> i64 {
    if a <= b { a } else { b }
}

pub open spec fn max64(a: i64, b: i64) -> i64 {
    if a >= b { a } else { b }
}

/// The middle of a range, rounded towards zero.
pub open spec fn spec_mid(low: i64, high: i64) -> i64 {
    let s = low as int + high as int;
    (if s >= 0 { s / 2 } else { -((-s) / 2) }) as i64
}

fn mid_of(low: i64, high: i64) -> (r: i64)
    ensures
        r == spec_mid(low, high),
{
    let s: i128 = low as i128 + high as i128;
    if s >= 0 {
        (s / 2) as i64
    } else {
        (-((-s) / 2)) as i64
    }
}

impl CZS {
    /// A pivot of the given lines: its range is where all of them overlap
    /// (highest low to lowest high), it starts where the first line starts
    /// and ends where the last ends. Without lines it is empty.
    pub fn new(lst: Option<Vec<CLine>>, is_sure: bool) -> (r: Self)
        ensures
            r.is_sure == is_sure,
            r.sub_zs_lst@.len() == 0,
            r.bi_in is None,
            r.bi_out is None,
            r.bi_lst@.len() == 0,
            lst matches Some(l) ==> (l@.len() > 0 ==> r.zv() == spec_zs_of(l@, is_sure)),
            match lst {
                Some(l) if l@.len() > 0 => {
                    &&& r.begin == Some(l@[0].begin_klu)
                    &&& r.begin_bi == Some(l@[0].idx)
                    &&& r.low == spec_max_low(l@, l@.len() as int)
                    &&& r.high == spec_min_high(l@, l@.len() as int)
                    &&& r.mid == spec_mid(r.low, r.high)
                    &&& r.end == Some(l@.last().end_klu)
                    &&& r.end_bi == Some(l@.last().idx)
                    &&& r.peak_low == spec_min_low(l@, l@.len() as int)
                    &&& r.peak_high == spec_max_high(l@, l@.len() as int)
                },
                _ => {
                    &&& r.begin is None && r.begin_bi is None && r.end is None && r.end_bi is None
                    &&& r.low == 0 && r.high == 0 && r.mid == 0
                    &&& r.peak_high == i64::MIN && r.peak_low == i64::MAX
                },
            },
    {
        let mut zs = CZS {
            is_sure,
            sub_zs_lst: Vec::new(),
            begin: None,
            begin_bi: None,
            low: 0,
            high: 0,
            mid: 0,
            end: None,
            end_bi: None,
            peak_high: i64::MIN,
            peak_low: i64::MAX,
            bi_in: None,
            bi_out: None,
            bi_lst: Vec::new(),
        };
        if let Some(l) = lst {
            if l.len() > 0 {
                zs.begin = Some(l[0].begin_klu);
                zs.begin_bi = Some(l[0].idx);
                zs.update_zs_range(&l);
                let mut i: usize = 0;
                while i < l.len()
                    invariant
                        i <= l@.len(),
                        l@.len() > 0,
                        zs.is_sure == is_sure,
                        zs.sub_zs_lst@.len() == 0,
                        zs.bi_in is None && zs.bi_out is None && zs.bi_lst@.len() == 0,
                        zs.begin == Some(l@[0].begin_klu),
                        zs.begin_bi == Some(l@[0].idx),
                        zs.low == spec_max_low(l@, l@.len() as int),
                        zs.high == spec_min_high(l@, l@.len() as int),
                        zs.mid == spec_mid(zs.low, zs.high),
                        i > 0 ==> zs.end == Some(l@[i - 1].end_klu) && zs.end_bi == Some(l@[i - 1].idx),
                        zs.peak_low == spec_min_low(l@, i as int),
                        zs.peak_high == spec_max_high(l@, i as int),
                    decreases l@.len() - i,
                {
                    zs.update_zs_end(&l[i]);
                    i = i + 1;
                }
            }
        }
        zs
    }

    /// Sets the range to where all the given lines overlap.
    pub fn update_zs_range(&mut self, lst: &Vec<CLine>)
        requires
            lst@.len() > 0,
        ensures
            final(self).low == spec_max_low(lst@, lst@.len() as int),
            final(self).high == spec_min_high(lst@, lst@.len() as int),
            final(self).mid == spec_mid(final(self).low, final(self).high),
            final(self).is_sure == old(self).is_sure,
            final(self).sub_zs_lst@ == old(self).sub_zs_lst@,
            final(self).begin == old(self).begin,
            final(self).begin_bi == old(self).begin_bi,
            final(self).end == old(self).end,
            final(self).end_bi == old(self).end_bi,
            final(self).peak_high == old(self).peak_high,
            final(self).peak_low == old(self).peak_low,
            final(self).bi_in == old(self).bi_in,
            final(self).bi_out == old(self).bi_out,
            final(self).bi_lst@ == old(self).bi_lst@,
    {
        let mut low: i64 = i64::MIN;
        let mut high: i64 = i64::MAX;
        let mut i: usize = 0;
        while i < lst.len()
            invariant
                i <= lst@.len(),
                low == spec_max_low(lst@, i as int),
                high == spec_min_high(lst@, i as int),
            decreases lst@.len() - i,
        {
            if lst[i].low > low {
                low = lst[i].low;
            }
            if lst[i].high < high {
                high = lst[i].high;
            }
            i = i + 1;
        }
        self.low = low;
        self.high = high;
        self.mid = mid_of(low, high);
    }

    /// Whether the pivot is made of a single line.
    pub fn is_one_bi_zs(&self) -> (r: bool)
        ensures
            r == spec_one_bi(*self),
    {
        match (self.begin_bi, self.end_bi) {
            (Some(b), Some(e)) => b == e,
            _ => false,
        }
    }

    /// Makes `item` the pivot's last line.
    pub fn update_zs_end(&mut self, item: &CLine)
        ensures
            final(self).end == Some(item.end_klu),
            final(self).end_bi == Some(item.idx),
            final(self).peak_low == min64(old(self).peak_low, item.low),
            final(self).peak_high == max64(old(self).peak_high, item.high),
            final(self).is_sure == old(self).is_sure,
            final(self).sub_zs_lst@ == old(self).sub_zs_lst@,
            final(self).begin == old(self).begin,
            final(self).begin_bi == old(self).begin_bi,
            final(self).low == old(self).low,
            final(self).high == old(self).high,
            final(self).mid == old(self).mid,
            final(self).bi_in == old(self).bi_in,
            final(self).bi_out == old(self).bi_out,
            final(self).bi_lst@ == old(self).bi_lst@,
    {
        self.end = Some(item.end_klu);
        self.end_bi = Some(item.idx);
        if item.low < self.peak_low {
            self.peak_low = item.low;
        }
        if item.high > self.peak_high {
            self.peak_high = item.high;
        }
    }

    /// Whether a line reaches into the pivot's range.
    pub fn in_range(&self, item: &CLine) -> (r: bool)
        ensures
            r == spec_has_overlap(self.low as int, self.high as int, item.low as int, item.high as int, false),
    {
        has_overlap(self.low, self.high, item.low, item.high, false)
    }

    /// Whether the pivot starts inside the segment.
    pub fn is_inside(&self, seg: &CSeg) -> (r: bool)
        requires
            self.begin_bi is Some,
        ensures
            r == (seg.start_bi <= self.begin_bi->0 <= seg.end_bi),
    {
        let b = self.begin_bi.unwrap();
        seg.start_bi <= b && b <= seg.end_bi
    }

    /// Copies the pivot's position, range, extremes and lines in and out.
    pub fn init_from_zs(&mut self, zs: &CZS)
        ensures
            final(self).begin == zs.begin,
            final(self).end == zs.end,
            final(self).low == zs.low,
            final(self).high == zs.high,
            final(self).peak_high == zs.peak_high,
            final(self).peak_low == zs.peak_low,
            final(self).begin_bi == zs.begin_bi,
            final(self).end_bi == zs.end_bi,
            final(self).bi_in == zs.bi_in,
            final(self).bi_out == zs.bi_out,
            final(self).is_sure == old(self).is_sure,
            final(self).mid == old(self).mid,
            final(self).sub_zs_lst@ == old(self).sub_zs_lst@,
            final(self).bi_lst@ == old(self).bi_lst@,
    {
        self.begin = zs.begin;
        self.end = zs.end;
        self.low = zs.low;
        self.high = zs.high;
        self.peak_high = zs.peak_high;
        self.peak_low = zs.peak_low;
        self.begin_bi = zs.begin_bi;
        self.end_bi = zs.end_bi;
        self.bi_in = zs.bi_in;
        self.bi_out = zs.bi_out;
    }

    /// A copy without sub-pivots or lines.
    pub fn make_copy(&self) -> (r: CZS)
        ensures
            r.is_sure == self.is_sure,
            r.sub_zs_lst@.len() == 0,
            r.bi_lst@.len() == 0,
            r.begin == self.begin,
            r.end == self.end,
            r.low == self.low,
            r.high == self.high,
            r.mid == 0,
            r.peak_high == self.peak_high,
            r.peak_low == self.peak_low,
            r.begin_bi == self.begin_bi,
            r.end_bi == self.end_bi,
            r.bi_in == self.bi_in,
            r.bi_out == self.bi_out,
            r.zv() == spec_zs_copy(self.zv()),
    {
        let mut copy = CZS::new(None, self.is_sure);
        copy.init_from_zs(self);
        copy
    }

    /// Merges the next pivot into this one: the range and extremes widen to
    /// cover both, the end moves to the other's; both are kept as
    /// sub-pivots.
    pub fn do_combine(&mut self, zs2: &CZS)
        ensures
            final(self).low == min64(old(self).low, zs2.low),
            final(self).high == max64(old(self).high, zs2.high),
            final(self).peak_low == min64(old(self).peak_low, zs2.peak_low),
            final(self).peak_high == max64(old(self).peak_high, zs2.peak_high),
            final(self).end == zs2.end,
            final(self).bi_out == zs2.bi_out,
            final(self).end_bi == zs2.end_bi,
            final(self).begin == old(self).begin,
            final(self).begin_bi == old(self).begin_bi,
            final(self).bi_in == old(self).bi_in,
            final(self).is_sure == old(self).is_sure,
            final(self).mid == old(self).mid,
            final(self).bi_lst@ == old(self).bi_lst@,
            final(self).sub_zs_lst@.len() == (if old(self).sub_zs_lst@.len() == 0 { 2 } else { old(self).sub_zs_lst@.len() + 1 }),
            spec_subs_combined(*old(self), *zs2, final(self).sub_zs_lst@),
    {
        if self.sub_zs_lst.len() == 0 {
            let c = self.make_copy();
            self.sub_zs_lst.push(c);
        }
        let c2 = zs2.make_copy();
        self.sub_zs_lst.push(c2);
        if zs2.low < self.low {
            self.low = zs2.low;
        }
        if zs2.high > self.high {
            self.high = zs2.high;
        }
        if zs2.peak_low < self.peak_low {
            self.peak_low = zs2.peak_low;
        }
        if zs2.peak_high > self.peak_high {
            self.peak_high = zs2.peak_high;
        }
        self.end = zs2.end;
        self.bi_out = zs2.bi_out;
        self.end_bi = zs2.end_bi;
    }

    /// Merges the next pivot if it is more than one line, starts in the same
    /// segment, and overlaps this one: by range (touching counts) or, by
    /// peaks, strictly.
    pub fn combine(&mut self, zs2: &CZS, combine_mode: ZsCombineMode, lines: &Vec<CLine>) -> (r: bool)
        requires
            old(self).begin_bi matches Some(b) && b < lines@.len(),
            zs2.begin_bi matches Some(b) && b < lines@.len(),
        ensures
            r == spec_can_combine(*old(self), *zs2, combine_mode, lines@),
            r ==> final(self).low == min64(old(self).low, zs2.low) && final(self).high == max64(old(self).high, zs2.high)
                && final(self).peak_low == min64(old(self).peak_low, zs2.peak_low)
                && final(self).peak_high == max64(old(self).peak_high, zs2.peak_high)
                && final(self).end_bi == zs2.end_bi && final(self).end == zs2.end
                && final(self).begin_bi == old(self).begin_bi && final(self).bi_out == zs2.bi_out
                && final(self).bi_in == old(self).bi_in && final(self).bi_lst@ == old(self).bi_lst@,
            !r ==> *final(self) == *old(self),
            r == spec_can_combine_v(old(self).zv(), zs2.zv(), combine_mode, lines@),
            r ==> final(self).zv() == spec_zs_combined(old(self).zv(), zs2.zv()),
            r ==> spec_subs_combined(*old(self), *zs2, final(self).sub_zs_lst@),
    {
        if zs2.is_one_bi_zs() {
            return false;
        }
        if lines[self.begin_bi.unwrap()].seg_idx != lines[zs2.begin_bi.unwrap()].seg_idx {
            return false;
        }
        match combine_mode {
            ZsCombineMode::Zs => {
                if !has_overlap(self.low, self.high, zs2.low, zs2.high, true) {
                    return false;
                }
                self.do_combine(zs2);
                true
            },
            ZsCombineMode::Peak => {
                if has_overlap(self.peak_low, self.peak_high, zs2.peak_low, zs2.peak_high, false) {
                    self.do_combine(zs2);
                    true
                } else {
                    false
                }
            },
        }
    }

    /// Extends the pivot by a line reaching into its range; a one-line pivot
    /// first narrows its range to where both lines overlap.
    pub fn try_add_to_end(&mut self, item: &CLine, lines: &Vec<CLine>) -> (r: bool)
        requires
            old(self).begin_bi matches Some(b) && b < lines@.len(),
        ensures
            r == spec_has_overlap(old(self).low as int, old(self).high as int, item.low as int, item.high as int, false),
            !r ==> *final(self) == *old(self),
            r ==> final(self).end_bi == Some(item.idx) && final(self).end == Some(item.end_klu)
                && final(self).begin_bi == old(self).begin_bi && final(self).bi_in == old(self).bi_in
                && final(self).bi_out == old(self).bi_out && final(self).bi_lst@ == old(self).bi_lst@,
            r ==> final(self).peak_low == min64(old(self).peak_low, item.low) && final(self).peak_high == max64(
                old(self).peak_high,
                item.high,
            ),
            r && !spec_one_bi(*old(self)) ==> final(self).low == old(self).low && final(self).high == old(self).high,
            r && spec_one_bi(*old(self)) ==> ({
                let b = lines@[old(self).begin_bi->0 as int];
                final(self).low == max64(b.low, item.low) && final(self).high == min64(b.high, item.high)
            }),
            r ==> final(self).zv() == spec_zs_extended(old(self).zv(), *item, lines@),
    {
        if !self.in_range(item) {
            return false;
        }
        if self.is_one_bi_zs() {
            let mut two: Vec<CLine> = Vec::new();
            two.push(lines[self.begin_bi.unwrap()]);
            two.push(*item);
            self.update_zs_range(&two);
            proof {
                assert(two@[0] == lines@[old(self).begin_bi->0 as int]);
                assert(two@[1] == *item);
                reveal_with_fuel(spec_max_low, 3);
                reveal_with_fuel(spec_min_high, 3);
            }
        }
        self.update_zs_end(item);
        true
    }

    /// Whether the line after the pivot (or `end_bi`, if given) breaks out of
    /// its range: a down line below the low, an up line above the high.
    pub fn end_bi_break(&self, end_bi: Option<CLine>, lines: &Vec<CLine>) -> (r: bool)
        requires
            end_bi is Some || (self.bi_out matches Some(b) && b < lines@.len()),
        ensures
            r == ({
                let b = match end_bi {
                    Some(x) => x,
                    None => lines@[self.bi_out->0 as int],
                };
                (b.dir == BI_DIR::DOWN && b.low < self.low) || (b.dir == BI_DIR::UP && b.high > self.high)
            }),
    {
        let b = match end_bi {
            Some(x) => x,
            None => lines[self.bi_out.unwrap()],
        };
        (b.is_down() && b.low < self.low) || (b.is_up() && b.high > self.high)
    }

    /// Whether no line of the pivot up to `end_bi_idx` goes beyond the line
    /// out of it, and then how close their ends come to its end: the
    /// smallest distance, which divided by the out line's end value gives
    /// the rate (`None` when no line is counted: an infinite rate).
    pub fn out_bi_is_peak(&self, end_bi_idx: usize, lines: &Vec<CLine>) -> (r: (bool, Option<i128>))
        requires
            self.bi_lst@.len() > 0,
            self.bi_out matches Some(b) ==> b < lines@.len(),
            forall|k: int| 0 <= k < self.bi_lst@.len() ==> #[trigger] self.bi_lst@[k] < lines@.len(),
        ensures
            self.bi_out is None ==> r == (false, None::<i128>),
            self.bi_out is Some ==> (r.0 <==> (forall|k: int| 0 <= k < spec_peak_prefix(self.bi_lst@, end_bi_idx as int, self.bi_lst@.len() as int)
                ==> !#[trigger] goes_beyond(lines@[self.bi_lst@[k] as int], lines@[self.bi_out->0 as int]))),
            self.bi_out is Some && r.0 ==> r.1 == spec_min_dist(
                lines@,
                self.bi_lst@,
                lines@[self.bi_out->0 as int],
                spec_peak_prefix(self.bi_lst@, end_bi_idx as int, self.bi_lst@.len() as int),
            ),
            !r.0 ==> r.1 is None,
    {
        if self.bi_out.is_none() {
            return (false, None);
        }
        let out = lines[self.bi_out.unwrap()];
        let mut best: Option<i128> = None;
        let mut k: usize = 0;
        let n = self.bi_lst.len();
        while k < n && self.bi_lst[k] <= end_bi_idx
            invariant
                n == self.bi_lst@.len(),
                k <= n,
                out == lines@[self.bi_out->0 as int],
                forall|m: int| 0 <= m < self.bi_lst@.len() ==> #[trigger] self.bi_lst@[m] < lines@.len(),
                spec_peak_prefix(self.bi_lst@, end_bi_idx as int, k as int) == k,
                forall|m: int| 0 <= m < k ==> !#[trigger] goes_beyond(lines@[self.bi_lst@[m] as int], out),
                best == spec_min_dist(lines@, self.bi_lst@, out, k as int),
            decreases n - k,
        {
            let b = lines[self.bi_lst[k]];
            if (out.is_down() && b.low < out.low) || (out.is_up() && b.high > out.high) {
                proof {
                    assert(spec_peak_prefix(self.bi_lst@, end_bi_idx as int, k + 1) == k + 1);
                    lemma_peak_prefix_grows(self.bi_lst@, end_bi_idx as int, k + 1, n as int);
                    assert(goes_beyond(lines@[self.bi_lst@[k as int] as int], out));
                }
                return (false, None);
            }
            let d: i128 = b.end_val as i128 - out.end_val as i128;
            let d = if d >= 0 { d } else { -d };
            best = match best {
                Some(x) => if d < x { Some(d) } else { Some(x) },
                None => Some(d),
            };
            k = k + 1;
        }
        proof {
            if k < n {
                lemma_peak_prefix_stop(self.bi_lst@, end_bi_idx as int, k as int, n as int);
            }
        }
        (true, best)
    }

    pub fn get_bi_in(&self) -> (r: usize)
        requires
            self.bi_in is Some,
        ensures
            Some(r) == self.bi_in,
    {
        self.bi_in.unwrap()
    }

    pub fn get_bi_out(&self) -> (r: usize)
        requires
            self.bi_out is Some,
        ensures
            Some(r) == self.bi_out,
    {
        self.bi_out.unwrap()
    }

    pub fn set_bi_in(&mut self, bi: usize)
        ensures
            *final(self) == (CZS { bi_in: Some(bi), ..*old(self) }),
    {
        self.bi_in = Some(bi);
    }

    pub fn set_bi_out(&mut self, bi: usize)
        ensures
            *final(self) == (CZS { bi_out: Some(bi), ..*old(self) }),
    {
        self.bi_out = Some(bi);
    }

    /// Records the lines `lo..hi` as the pivot's lines.
    pub fn set_bi_lst(&mut self, lo: usize, hi: usize)
        requires
            lo <= hi,
        ensures
            final(self).bi_lst@.len() == hi - lo,
            forall|k: int| 0 <= k < hi - lo ==> #[trigger] final(self).bi_lst@[k] == lo + k,
            final(self).begin_bi == old(self).begin_bi,
            final(self).end_bi == old(self).end_bi,
            final(self).bi_in == old(self).bi_in,
            final(self).bi_out == old(self).bi_out,
            final(self).low == old(self).low,
            final(self).high == old(self).high,
            final(self).end == old(self).end,
            final(self).begin == old(self).begin,
            final(self).peak_low == old(self).peak_low,
            final(self).peak_high == old(self).peak_high,
            final(self).is_sure == old(self).is_sure,
            final(self).mid == old(self).mid,
            final(self).sub_zs_lst == old(self).sub_zs_lst,
    {
        let mut v: Vec<usize> = Vec::new();
        let mut i = lo;
        while i < hi
            invariant
                lo <= i <= hi,
                v@.len() == i - lo,
                forall|k: int| 0 <= k < v@.len() ==> #[trigger] v@[k] == lo + k,
            decreases hi - i,
        {
            v.push(i);
            i = i + 1;
        }
        self.bi_lst = v;
    }
}

/// The pivot is made of a single line.
/// A pivot of lines `ls`: where they all overlap, from the first line's
/// start to the last line's end, with their extremes.
pub open spec fn spec_zs_of(ls: Seq<CLine>, is_sure: bool) -> ZsView {
    let n = ls.len() as int;
    let low = spec_max_low(ls, n);
    let high = spec_min_high(ls, n);
    ZsView {
        is_sure,
        begin: Some(ls[0].begin_klu),
        begin_bi: Some(ls[0].idx),
        low,
        high,
        mid: spec_mid(low, high),
        end: Some(ls.last().end_klu),
        end_bi: Some(ls.last().idx),
        peak_high: spec_max_high(ls, n),
        peak_low: spec_min_low(ls, n),
        bi_in: None,
        bi_out: None,
        bi_lst: Seq::empty(),
        sub_zs_count: 0,
    }
}

/// A copy of a pivot: without sub-pivots or lines, and no middle.
pub open spec fn spec_zs_copy(z: ZsView) -> ZsView {
    ZsView { mid: 0, bi_lst: Seq::empty(), sub_zs_count: 0, ..z }
}

/// The sub-pivots `f` of pivot `a` once `b` is merged into it: those it
/// had (a copy of itself when it had none), then a copy of `b`.
pub open spec fn spec_subs_combined(a: CZS, b: CZS, f: Seq<CZS>) -> bool {
    let old = a.sub_zs_lst@;
    let k: int = if old.len() == 0 { 1 } else { old.len() as int };
    &&& f.len() == k + 1
    &&& old.len() == 0 ==> f[0].zv() == spec_zs_copy(a.zv())
    &&& forall|i: int| 0 <= i < old.len() ==> #[trigger] f[i] == old[i]
    &&& f[k].zv() == spec_zs_copy(b.zv())
}

/// A pivot with the next one merged into it; both become its sub-pivots
/// (itself only when it had none yet).
pub open spec fn spec_zs_combined(a: ZsView, b: ZsView) -> ZsView {
    ZsView {
        low: min64(a.low, b.low),
        high: max64(a.high, b.high),
        peak_low: min64(a.peak_low, b.peak_low),
        peak_high: max64(a.peak_high, b.peak_high),
        end: b.end,
        bi_out: b.bi_out,
        end_bi: b.end_bi,
        sub_zs_count: if a.sub_zs_count == 0 { 2 } else { a.sub_zs_count + 1 },
        ..a
    }
}

/// A pivot extended by line `item`: a one-line pivot first narrows its
/// range to where its line and `item` overlap.
pub open spec fn spec_zs_extended(a: ZsView, item: CLine, lines: Seq<CLine>) -> ZsView {
    let one = a.begin_bi is Some && a.end_bi is Some && a.begin_bi == a.end_bi;
    let b = lines[a.begin_bi->0 as int];
    let low = if one { max64(b.low, item.low) } else { a.low };
    let high = if one { min64(b.high, item.high) } else { a.high };
    ZsView {
        low,
        high,
        mid: if one { spec_mid(low, high) } else { a.mid },
        end: Some(item.end_klu),
        end_bi: Some(item.idx),
        peak_low: min64(a.peak_low, item.low),
        peak_high: max64(a.peak_high, item.high),
        ..a
    }
}

/// Whether two pivots may be merged, by their values.
pub open spec fn spec_can_combine_v(a: ZsView, b: ZsView, mode: ZsCombineMode, lines: Seq<CLine>) -> bool {
    &&& !(b.begin_bi is Some && b.end_bi is Some && b.begin_bi == b.end_bi)
    &&& lines[a.begin_bi->0 as int].seg_idx == lines[b.begin_bi->0 as int].seg_idx
    &&& match mode {
        ZsCombineMode::Zs => spec_has_overlap(a.low as int, a.high as int, b.low as int, b.high as int, true),
        ZsCombineMode::Peak => spec_has_overlap(a.peak_low as int, a.peak_high as int, b.peak_low as int, b.peak_high as int, false),
    }
}

pub open spec fn spec_one_bi(z: CZS) -> bool {
    z.begin_bi is Some && z.end_bi is Some && z.begin_bi == z.end_bi
}

/// Whether two pivots may be merged: the second spans more than one line,
/// both start in the same segment, and they overlap as the mode says.
pub open spec fn spec_can_combine(a: CZS, b: CZS, mode: ZsCombineMode, lines: Seq<CLine>) -> bool {
    &&& !spec_one_bi(b)
    &&& lines[a.begin_bi->0 as int].seg_idx == lines[b.begin_bi->0 as int].seg_idx
    &&& match mode {
        ZsCombineMode::Zs => spec_has_overlap(a.low as int, a.high as int, b.low as int, b.high as int, true),
        ZsCombineMode::Peak => spec_has_overlap(a.peak_low as int, a.peak_high as int, b.peak_low as int, b.peak_high as int, false),
    }
}

/// Once the count falls behind, it stays where it stopped.
pub proof fn lemma_peak_prefix_stop(lst: Seq<usize>, end: int, k: int, m: int)
    requires
        0 <= k < m <= lst.len(),
        spec_peak_prefix(lst, end, k) == k,
        lst[k] > end,
    ensures
        spec_peak_prefix(lst, end, m) == k,
    decreases m,
{
    if m > k + 1 {
        lemma_peak_prefix_stop(lst, end, k, m - 1);
    }
}

/// The count never shrinks and is at most `m`; once at `k` it is at least
/// `k` later on.
pub proof fn lemma_peak_prefix_grows(lst: Seq<usize>, end: int, k: int, m: int)
    requires
        0 <= k <= m,
        spec_peak_prefix(lst, end, k) == k,
    ensures
        spec_peak_prefix(lst, end, m) >= k,
    decreases m,
{
    if m > k {
        lemma_peak_prefix_grows(lst, end, k, m - 1);
        lemma_peak_prefix_le(lst, end, m - 1);
    }
}

pub proof fn lemma_peak_prefix_le(lst: Seq<usize>, end: int, m: int)
    requires
        0 <= m,
    ensures
        spec_peak_prefix(lst, end, m) <= m,
    decreases m,
{
    if m > 0 {
        lemma_peak_prefix_le(lst, end, m - 1);
    }
}

/// A line of the pivot goes beyond the line out of it.
pub open spec fn goes_beyond(b: CLine, out: CLine) -> bool {
    (out.dir == BI_DIR::DOWN && b.low < out.low) || (out.dir == BI_DIR::UP && b.high > out.high)
}

/// How far the end of line `b` is from the end of `out`.
pub open spec fn spec_end_dist(b: CLine, out: CLine) -> i128 {
    let d = b.end_val as int - out.end_val as int;
    (if d >= 0 { d } else { -d }) as i128
}

/// The smallest distance of the ends of the first `n` lines of `bi_lst` from
/// the end of `out`; `None` for no line.
pub open spec fn spec_min_dist(lines: Seq<CLine>, bi_lst: Seq<usize>, out: CLine, n: int) -> Option<i128>
    decreases n,
{
    if n <= 0 {
        None
    } else {
        let d = spec_end_dist(lines[bi_lst[n - 1] as int], out);
        match spec_min_dist(lines, bi_lst, out, n - 1) {
            None => Some(d),
            Some(x) => Some(if d < x { d } else { x }),
        }
    }
}

/// How many of the first `k` lines of the pivot come before the first one
/// past `end`.
pub open spec fn spec_peak_prefix(lst: Seq<usize>, end: int, k: int) -> int
    decreases k,
{
    if k <= 0 {
        0
    } else {
        let p = spec_peak_prefix(lst, end, k - 1);
        if p == k - 1 && lst[k - 1] <= end { k } else { p }
    }
}

} // verus!

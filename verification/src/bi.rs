use vstd::prelude::*;
use crate::enums::{BI_DIR, BI_TYPE, FX_TYPE};
use crate::exception::{CChanException, ErrCode};
use crate::text::{int_text, spec_int_text};
use crate::kline::KLineView;
use crate::kline_list::{klc_first, klc_last, klc_ok, spec_peak_klu, CKLineList};

verus! {

/// A stroke (bi) between two combined K-lines, given by their indices.
#[derive(Debug)]
pub struct CBi {
    pub idx: usize,
    pub begin_klc: usize,
    pub end_klc: usize,
    pub dir: BI_DIR,
    pub bi_type: BI_TYPE,
    pub is_sure: bool,
    pub sure_end: Vec<usize>,
    pub seg_idx: Option<usize>,
}

/// The mathematical value of a stroke.
pub struct BiView {
    pub idx: usize,
    pub begin_klc: usize,
    pub end_klc: usize,
    pub dir: BI_DIR,
    pub is_sure: bool,
    pub sure_end: Seq<usize>,
    pub seg_idx: Option<usize>,
    pub bi_type: BI_TYPE,
}

impl View for CBi {
    type V = BiView;

    open spec fn view(&self) -> BiView {
        BiView {
            idx: self.idx,
            begin_klc: self.begin_klc,
            end_klc: self.end_klc,
            dir: self.dir,
            is_sure: self.is_sure,
            sure_end: self.sure_end@,
            seg_idx: self.seg_idx,
            bi_type: self.bi_type,
        }
    }
}

/// The direction a stroke starting at a fractal takes: up from a bottom,
/// down from a top.
pub open spec fn spec_dir_of_fx(fx: FX_TYPE) -> Option<BI_DIR> {
    match fx {
        FX_TYPE::BOTTOM => Some(BI_DIR::UP),
        FX_TYPE::TOP => Some(BI_DIR::DOWN),
        FX_TYPE::UNKNOWN => None,
    }
}

/// A stroke's ends agree with its direction: an up stroke starts below the
/// high of its end, a down stroke above its low.
pub open spec fn spec_bi_check(ks: Seq<KLineView>, b: int, e: int, dir: BI_DIR) -> bool {
    if dir == BI_DIR::DOWN {
        ks[b].high > ks[e].low
    } else {
        ks[b].low < ks[e].high
    }
}

/// A stroke may be built from K-line b to K-line e: b is a fractal whose kind
/// gives the direction, and the ends agree with it.
pub open spec fn spec_bi_valid(ks: Seq<KLineView>, b: int, e: int) -> bool {
    &&& 0 <= b < ks.len()
    &&& 0 <= e < ks.len()
    &&& spec_dir_of_fx(ks[b].fx) is Some
    &&& spec_bi_check(ks, b, e, spec_dir_of_fx(ks[b].fx)->0)
}

pub open spec fn spec_begin_val(ks: Seq<KLineView>, b: BiView) -> i64 {
    if b.dir == BI_DIR::UP { ks[b.begin_klc as int].low } else { ks[b.begin_klc as int].high }
}

pub open spec fn spec_end_val(ks: Seq<KLineView>, b: BiView) -> i64 {
    if b.dir == BI_DIR::UP { ks[b.end_klc as int].high } else { ks[b.end_klc as int].low }
}

pub open spec fn spec_bi_high(ks: Seq<KLineView>, b: BiView) -> i64 {
    if b.dir == BI_DIR::UP { ks[b.end_klc as int].high } else { ks[b.begin_klc as int].high }
}

pub open spec fn spec_bi_low(ks: Seq<KLineView>, b: BiView) -> i64 {
    if b.dir == BI_DIR::UP { ks[b.begin_klc as int].low } else { ks[b.end_klc as int].low }
}

/// The bar at which a stroke starts: the low of its first K-line going up,
/// the high going down.
pub open spec fn spec_begin_klu(ks: Seq<KLineView>, units: Seq<crate::kline_unit::CKLineUnit>, b: BiView) -> usize {
    spec_peak_klu(ks, units, b.begin_klc as int, b.dir != BI_DIR::UP)->0
}

/// The bar at which a stroke ends: the high of its last K-line going up, the
/// low going down.
pub open spec fn spec_end_klu(ks: Seq<KLineView>, units: Seq<crate::kline_unit::CKLineUnit>, b: BiView) -> usize {
    spec_peak_klu(ks, units, b.end_klc as int, b.dir == BI_DIR::UP)->0
}

impl CBi {
    /// Builds a stroke from K-line `begin_klc` to `end_klc`; the kind of the
    /// starting fractal gives its direction.
    pub fn new(begin_klc: usize, end_klc: usize, idx: usize, is_sure: bool, kl: &CKLineList) -> (r: Self)
        requires
            spec_bi_valid(kl.klcs(), begin_klc as int, end_klc as int),
        ensures
            r@ == (BiView {
                idx,
                begin_klc,
                end_klc,
                dir: spec_dir_of_fx(kl.klcs()[begin_klc as int].fx)->0,
                is_sure,
                sure_end: Seq::empty(),
                seg_idx: None,
                bi_type: BI_TYPE::STRICT,
            }),
            r.bi_type == BI_TYPE::STRICT,
    {
        let mut bi = CBi {
            idx,
            begin_klc,
            end_klc,
            dir: BI_DIR::UP,
            bi_type: BI_TYPE::STRICT,
            is_sure,
            sure_end: Vec::new(),
            seg_idx: None,
        };
        let res = bi.set(begin_klc, end_klc, kl);
        match res {
            Ok(()) => {},
            Err(_) => {
                assert(false);
            },
        }
        bi
    }

    /// Stroke index of the segment this stroke belongs to.
    pub fn set_seg_idx(&mut self, idx: usize)
        ensures
            final(self)@ == (BiView { seg_idx: Some(idx), ..old(self)@ }),
            final(self).bi_type == old(self).bi_type,
    {
        self.seg_idx = Some(idx);
    }

    pub fn is_down(&self) -> (r: bool)
        ensures
            r == (self.dir == BI_DIR::DOWN),
    {
        self.dir == BI_DIR::DOWN
    }

    pub fn is_up(&self) -> (r: bool)
        ensures
            r == (self.dir == BI_DIR::UP),
    {
        self.dir == BI_DIR::UP
    }

    /// Checks that the ends agree with the direction.
    pub fn check(&self, kl: &CKLineList) -> (r: Result<(), CChanException>)
        requires
            self.begin_klc < kl.klcs().len(),
            self.end_klc < kl.klcs().len(),
        ensures
            r is Ok <==> spec_bi_check(kl.klcs(), self.begin_klc as int, self.end_klc as int, self.dir),
            r matches Err(e) ==> e.errcode == ErrCode::BiErr,
            r matches Err(e) ==> e.msg@ == spec_int_text(self.idx as int) + ":"@ + spec_int_text(
                kl.klcs()[self.begin_klc as int].time_begin as int,
            ) + "~"@ + spec_int_text(kl.klcs()[self.end_klc as int].time_end as int) + " 笔的方向和收尾位置不一致!"@,
    {
        let b = &kl.lst[self.begin_klc];
        let e = &kl.lst[self.end_klc];
        if self.is_down() {
            if b.high <= e.low {
                return Err(CChanException::new(bi_error_message(self.idx, b.time_begin, e.time_end), ErrCode::BiErr));
            }
        } else if b.low >= e.high {
            return Err(CChanException::new(bi_error_message(self.idx, b.time_begin, e.time_end), ErrCode::BiErr));
        }
        Ok(())
    }

    /// Sets both ends; the direction comes from the starting fractal. Fails
    /// when the start is no fractal or the ends disagree with the direction.
    pub fn set(&mut self, begin_klc: usize, end_klc: usize, kl: &CKLineList) -> (r: Result<(), CChanException>)
        requires
            begin_klc < kl.klcs().len(),
            end_klc < kl.klcs().len(),
        ensures
            r is Ok <==> spec_bi_valid(kl.klcs(), begin_klc as int, end_klc as int),
            r matches Err(e) ==> e.errcode == ErrCode::BiErr,
            final(self).begin_klc == begin_klc,
            final(self).end_klc == end_klc,
            spec_dir_of_fx(kl.klcs()[begin_klc as int].fx) matches Some(d) ==> final(self).dir == d,
            spec_dir_of_fx(kl.klcs()[begin_klc as int].fx) is None ==> final(self).dir == old(self).dir,
            final(self).idx == old(self).idx,
            final(self).is_sure == old(self).is_sure,
            final(self).sure_end@ == old(self).sure_end@,
            final(self).seg_idx == old(self).seg_idx,
            final(self).bi_type == old(self).bi_type,
    {
        self.begin_klc = begin_klc;
        self.end_klc = end_klc;
        let fx = kl.lst[begin_klc].fx;
        self.dir = match fx {
            FX_TYPE::BOTTOM => BI_DIR::UP,
            FX_TYPE::TOP => BI_DIR::DOWN,
            _ => {
                return Err(CChanException::new(String::from_str("ERROR DIRECTION when creating bi"), ErrCode::BiErr));
            },
        };
        self.check(kl)
    }

    pub fn get_begin_val(&self, kl: &CKLineList) -> (r: i64)
        requires
            self.begin_klc < kl.klcs().len(),
        ensures
            r == spec_begin_val(kl.klcs(), self@),
    {
        if self.is_up() {
            kl.lst[self.begin_klc].low
        } else {
            kl.lst[self.begin_klc].high
        }
    }

    pub fn get_end_val(&self, kl: &CKLineList) -> (r: i64)
        requires
            self.end_klc < kl.klcs().len(),
        ensures
            r == spec_end_val(kl.klcs(), self@),
    {
        if self.is_up() {
            kl.lst[self.end_klc].high
        } else {
            kl.lst[self.end_klc].low
        }
    }

    pub fn high(&self, kl: &CKLineList) -> (r: i64)
        requires
            self.begin_klc < kl.klcs().len(),
            self.end_klc < kl.klcs().len(),
        ensures
            r == spec_bi_high(kl.klcs(), self@),
    {
        if self.is_up() {
            kl.lst[self.end_klc].high
        } else {
            kl.lst[self.begin_klc].high
        }
    }

    pub fn low(&self, kl: &CKLineList) -> (r: i64)
        requires
            self.begin_klc < kl.klcs().len(),
            self.end_klc < kl.klcs().len(),
        ensures
            r == spec_bi_low(kl.klcs(), self@),
    {
        if self.is_up() {
            kl.lst[self.begin_klc].low
        } else {
            kl.lst[self.end_klc].low
        }
    }

    /// The price distance between the stroke's two ends.
    pub fn amp(&self, kl: &CKLineList) -> (r: i128)
        requires
            self.begin_klc < kl.klcs().len(),
            self.end_klc < kl.klcs().len(),
        ensures
            r >= 0,
            r == spec_end_val(kl.klcs(), self@) - spec_begin_val(kl.klcs(), self@) || r == spec_begin_val(
                kl.klcs(),
                self@,
            ) - spec_end_val(kl.klcs(), self@),
    {
        let d = self.get_end_val(kl) as i128 - self.get_begin_val(kl) as i128;
        if d >= 0 {
            d
        } else {
            -d
        }
    }

    /// The bar where the stroke starts.
    pub fn get_begin_klu(&self, kl: &CKLineList) -> (r: usize)
        requires
            kl.wf(),
            self.begin_klc < kl.klcs().len(),
        ensures
            r == spec_begin_klu(kl.klcs(), kl.units@, self@),
    {
        let p = kl.get_peak_klu(self.begin_klc, !self.is_up());
        match p {
            Some(u) => u,
            None => 0,
        }
    }

    /// The bar where the stroke ends.
    pub fn get_end_klu(&self, kl: &CKLineList) -> (r: usize)
        requires
            kl.wf(),
            self.end_klc < kl.klcs().len(),
        ensures
            r == spec_end_klu(kl.klcs(), kl.units@, self@),
    {
        let p = kl.get_peak_klu(self.end_klc, self.is_up());
        match p {
            Some(u) => u,
            None => 0,
        }
    }

    /// Number of combined K-lines the stroke spans, both ends included.
    pub fn get_klc_cnt(&self) -> (r: usize)
        requires
            self.begin_klc <= self.end_klc,
            self.end_klc < usize::MAX,
        ensures
            r == self.end_klc - self.begin_klc + 1,
    {
        self.end_klc - self.begin_klc + 1
    }

    /// Replaces the end by a provisional one, remembering the current end.
    pub fn update_virtual_end(&mut self, new_klc: usize, kl: &CKLineList)
        requires
            new_klc < kl.klcs().len(),
            old(self).begin_klc < kl.klcs().len(),
            spec_bi_check(kl.klcs(), old(self).begin_klc as int, new_klc as int, old(self).dir),
        ensures
            final(self)@ == (BiView {
                end_klc: new_klc,
                is_sure: false,
                sure_end: old(self)@.sure_end.push(old(self).end_klc),
                ..old(self)@
            }),
            final(self).bi_type == old(self).bi_type,
    {
        let end = self.end_klc;
        self.append_sure_end(end);
        self.update_new_end(new_klc, kl);
        self.is_sure = false;
    }

    /// Goes back to a sure end and forgets the remembered ends.
    pub fn restore_from_virtual_end(&mut self, sure_end: usize, kl: &CKLineList)
        requires
            sure_end < kl.klcs().len(),
            old(self).begin_klc < kl.klcs().len(),
            spec_bi_check(kl.klcs(), old(self).begin_klc as int, sure_end as int, old(self).dir),
        ensures
            final(self)@ == (BiView { end_klc: sure_end, is_sure: true, sure_end: Seq::empty(), ..old(self)@ }),
            final(self).bi_type == old(self).bi_type,
    {
        self.is_sure = true;
        self.update_new_end(sure_end, kl);
        self.sure_end.clear();
    }

    /// Remembers a sure end of the stroke.
    pub fn append_sure_end(&mut self, klc: usize)
        ensures
            final(self)@ == (BiView { sure_end: old(self)@.sure_end.push(klc), ..old(self)@ }),
            final(self).bi_type == old(self).bi_type,
    {
        self.sure_end.push(klc);
    }

    /// Moves the end to another K-line.
    pub fn update_new_end(&mut self, new_klc: usize, kl: &CKLineList)
        requires
            new_klc < kl.klcs().len(),
            old(self).begin_klc < kl.klcs().len(),
            spec_bi_check(kl.klcs(), old(self).begin_klc as int, new_klc as int, old(self).dir),
        ensures
            final(self)@ == (BiView { end_klc: new_klc, ..old(self)@ }),
            final(self).bi_type == old(self).bi_type,
    {
        self.end_klc = new_klc;
        let r = self.check(kl);
        match r {
            Ok(()) => {},
            Err(_) => {
                assert(false);
            },
        }
    }
}

/// Describes a stroke whose ends disagree with its direction.
fn bi_error_message(idx: usize, begin_time: i64, end_time: i64) -> (r: String)
    ensures
        r@ == spec_int_text(idx as int) + ":"@ + spec_int_text(begin_time as int) + "~"@ + spec_int_text(
            end_time as int,
        ) + " 笔的方向和收尾位置不一致!"@,
{
    let mut s = int_text(idx as i128);
    s.append(":");
    let t0 = int_text(begin_time as i128);
    s.append(t0.as_str());
    s.append("~");
    let t1 = int_text(end_time as i128);
    s.append(t1.as_str());
    s.append(" 笔的方向和收尾位置不一致!");
    s
}

} // verus!

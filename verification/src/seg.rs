use vstd::prelude::*;
use std::collections::VecDeque;
use crate::eigen_fx::CEigenFX;
use crate::enums::BI_DIR;
use crate::exception::{CChanException, ErrCode};
use crate::text::{int_text, spec_int_text};
use crate::line::{lines_wf, CLine};

verus! {

/// A segment: a run of lines (strokes, or segments one level down) from
/// `start_bi` to `end_bi`, both included, given by their indices.
pub struct CSeg {
    pub idx: usize,
    pub start_bi: usize,
    pub end_bi: usize,
    pub is_sure: bool,
    pub dir: BI_DIR,
    pub zs_lst: VecDeque<usize>,
    pub eigen_fx: Option<CEigenFX>,
    pub seg_idx: Option<usize>,
    pub reason: String,
    pub ele_inside_is_sure: bool,
}

/// A sure segment must have its end beyond its start in its direction: a
/// down segment may not end above where it began, an up one not below.
pub open spec fn spec_seg_values_ok(lines: Seq<CLine>, start: int, end: int, dir: BI_DIR) -> bool {
    if dir == BI_DIR::DOWN {
        lines[start].begin_val >= lines[end].end_val
    } else {
        lines[start].begin_val <= lines[end].end_val
    }
}

/// A sure segment may start at the first line, or with a line running its
/// own end line's way.
pub open spec fn spec_seg_dirs_ok(lines: Seq<CLine>, start: int, end: int, is_sure: bool) -> bool {
    start == 0 || lines[start].dir == lines[end].dir || !is_sure
}

/// A segment of fewer than three lines is never sure.
pub open spec fn spec_seg_sure(start: int, end: int, is_sure: bool) -> bool {
    is_sure && end - start >= 2
}

/// The direction given, or else that of the end line.
pub open spec fn spec_seg_dir(lines: Seq<CLine>, end: int, seg_dir: Option<BI_DIR>) -> BI_DIR {
    match seg_dir {
        Some(d) => d,
        None => lines[end].dir,
    }
}

/// Whether a segment can be made: the line directions agree, and a sure one
/// ends beyond its start.
pub open spec fn spec_seg_new_ok(
    lines: Seq<CLine>,
    start: int,
    end: int,
    is_sure: bool,
    seg_dir: Option<BI_DIR>,
) -> bool {
    &&& spec_seg_dirs_ok(lines, start, end, is_sure)
    &&& spec_seg_sure(start, end, is_sure) ==> spec_seg_values_ok(lines, start, end, spec_seg_dir(lines, end, seg_dir))
}

impl CSeg {
    /// Makes the segment of lines `start_bi..=end_bi`. It is sure only if asked
    /// and at least three lines long; its direction is `seg_dir` or that of
    /// the end line. A sure segment whose start line runs against its end
    /// line, or whose end is not beyond its start, is refused.
    pub fn new(
        idx: usize,
        start_bi: usize,
        end_bi: usize,
        is_sure: bool,
        seg_dir: Option<BI_DIR>,
        reason: &str,
        lines: &Vec<CLine>,
    ) -> (r: Result<CSeg, CChanException>)
        requires
            lines_wf(lines@),
            start_bi <= end_bi < lines@.len(),
        ensures
            r is Ok <==> spec_seg_new_ok(lines@, start_bi as int, end_bi as int, is_sure, seg_dir),
            !spec_seg_dirs_ok(lines@, start_bi as int, end_bi as int, is_sure) ==> (r matches Err(e)
                && e.errcode == ErrCode::CommonError),
            spec_seg_dirs_ok(lines@, start_bi as int, end_bi as int, is_sure) && r is Err ==> (r matches Err(e)
                && e.errcode == ErrCode::SegEndValueErr),
            r matches Ok(s) ==> {
                &&& s.idx == idx
                &&& s.start_bi == start_bi
                &&& s.end_bi == end_bi
                &&& s.is_sure == spec_seg_sure(start_bi as int, end_bi as int, is_sure)
                &&& s.dir == spec_seg_dir(lines@, end_bi as int, seg_dir)
                &&& s.zs_lst@.len() == 0
                &&& s.eigen_fx is None
                &&& s.seg_idx is None
                &&& s.reason@ == reason@
                &&& !s.ele_inside_is_sure
            },
    {
        if !(start_bi == 0 || lines[start_bi].dir == lines[end_bi].dir || !is_sure) {
            return Err(CChanException::new(
                "start_bi and end_bi direction mismatch".to_owned(),
                ErrCode::CommonError,
            ));
        }
        let is_sure = if end_bi - start_bi < 2 {
            false
        } else {
            is_sure
        };
        let dir = match seg_dir {
            Some(d) => d,
            None => lines[end_bi].dir,
        };
        let seg = CSeg {
            idx,
            start_bi,
            end_bi,
            is_sure,
            dir,
            zs_lst: VecDeque::new(),
            eigen_fx: None,
            seg_idx: None,
            reason: reason.to_owned(),
            ele_inside_is_sure: false,
        };
        match seg.check(lines) {
            Ok(()) => Ok(seg),
            Err(e) => Err(e),
        }
    }

    pub fn set_seg_idx(&mut self, idx: usize)
        ensures
            *final(self) == (CSeg { seg_idx: Some(idx), ..*old(self) }),
            final(self).seg_idx == Some(idx),
            final(self).idx == old(self).idx,
            final(self).start_bi == old(self).start_bi,
            final(self).end_bi == old(self).end_bi,
            final(self).is_sure == old(self).is_sure,
            final(self).dir == old(self).dir,
            final(self).zs_lst@ == old(self).zs_lst@,
            final(self).eigen_fx == old(self).eigen_fx,
            final(self).ele_inside_is_sure == old(self).ele_inside_is_sure,
    {
        self.seg_idx = Some(idx);
    }

    /// A sure segment must end beyond its start and span at least three
    /// lines; an unsure one always passes.
    pub fn check(&self, lines: &Vec<CLine>) -> (r: Result<(), CChanException>)
        requires
            self.start_bi <= self.end_bi < lines@.len(),
        ensures
            r is Ok <==> (!self.is_sure || (spec_seg_values_ok(lines@, self.start_bi as int, self.end_bi as int, self.dir)
                && self.end_bi - self.start_bi >= 2)),
            r matches Err(e) ==> (e.errcode == if !spec_seg_values_ok(lines@, self.start_bi as int, self.end_bi as int, self.dir) {
                ErrCode::SegEndValueErr
            } else {
                ErrCode::SegLenErr
            }),
            r matches Err(e) ==> e.msg@ == (if !spec_seg_values_ok(lines@, self.start_bi as int, self.end_bi as int, self.dir) {
                if self.dir == BI_DIR::DOWN {
                    "下降线段起始点应该高于结束点! idx="@ + spec_int_text(self.idx as int)
                } else {
                    "上升线段起始点应该低于结束点! idx="@ + spec_int_text(self.idx as int)
                }
            } else {
                "线段("@ + spec_int_text(self.start_bi as int) + "-"@ + spec_int_text(self.end_bi as int)
                    + ")长度不能小于2! idx="@ + spec_int_text(self.idx as int)
            }),
    {
        if !self.is_sure {
            return Ok(());
        }
        let start_val = lines[self.start_bi].begin_val;
        let end_val = lines[self.end_bi].end_val;
        if self.is_down() {
            if start_val < end_val {
                return Err(CChanException::new(seg_down_value_message(self.idx), ErrCode::SegEndValueErr));
            }
        } else if start_val > end_val {
            return Err(CChanException::new(seg_up_value_message(self.idx), ErrCode::SegEndValueErr));
        }
        if self.end_bi - self.start_bi < 2 {
            return Err(CChanException::new(
                seg_len_message(self.start_bi, self.end_bi, self.idx),
                ErrCode::SegLenErr,
            ));
        }
        Ok(())
    }

    /// Records a pivot inside the segment, in front of the others.
    pub fn add_zs(&mut self, zs: usize)
        ensures
            final(self).zs_lst@ == seq![zs] + old(self).zs_lst@,
            final(self).eigen_fx == old(self).eigen_fx,
            final(self).start_bi == old(self).start_bi,
            final(self).end_bi == old(self).end_bi,
            final(self).is_sure == old(self).is_sure,
            final(self).dir == old(self).dir,
            final(self).idx == old(self).idx,
            final(self).ele_inside_is_sure == old(self).ele_inside_is_sure,
            final(self).seg_idx == old(self).seg_idx,
            final(self).reason == old(self).reason,
    {
        self.zs_lst.push_front(zs);
    }

    pub fn clear_zs_lst(&mut self)
        ensures
            final(self).zs_lst@.len() == 0,
            final(self).eigen_fx == old(self).eigen_fx,
            final(self).start_bi == old(self).start_bi,
            final(self).end_bi == old(self).end_bi,
            final(self).is_sure == old(self).is_sure,
            final(self).dir == old(self).dir,
            final(self).idx == old(self).idx,
            final(self).ele_inside_is_sure == old(self).ele_inside_is_sure,
            final(self).seg_idx == old(self).seg_idx,
            final(self).reason == old(self).reason,
    {
        self.zs_lst = VecDeque::new();
    }

    /// Number of lines in the segment.
    pub fn cal_bi_cnt(&self) -> (r: usize)
        requires
            self.start_bi <= self.end_bi < usize::MAX,
        ensures
            r == self.end_bi - self.start_bi + 1,
    {
        self.end_bi - self.start_bi + 1
    }

    pub fn is_down(&self) -> (r: bool)
        ensures
            r == (self.dir == BI_DIR::DOWN),
    {
        self.dir == BI_DIR::DOWN
    }

    pub fn is_up(&self) -> (r: bool)
        ensures
            r == (self.dir == BI_DIR::UP),
    {
        self.dir == BI_DIR::UP
    }

    /// The low: that of the end bar going down, of the start bar going up.
    pub fn low(&self, lines: &Vec<CLine>) -> (r: i64)
        requires
            self.start_bi < lines@.len(),
            self.end_bi < lines@.len(),
        ensures
            r == spec_seg_low(lines@, self.start_bi as int, self.end_bi as int, self.dir),
    {
        if self.is_down() {
            lines[self.end_bi].end_klu_low
        } else {
            lines[self.start_bi].begin_klu_low
        }
    }

    /// The high: that of the end bar going up, of the start bar going down.
    pub fn high(&self, lines: &Vec<CLine>) -> (r: i64)
        requires
            self.start_bi < lines@.len(),
            self.end_bi < lines@.len(),
        ensures
            r == spec_seg_high(lines@, self.start_bi as int, self.end_bi as int, self.dir),
    {
        if self.is_up() {
            lines[self.end_bi].end_klu_high
        } else {
            lines[self.start_bi].begin_klu_high
        }
    }

    pub fn get_end_val(&self, lines: &Vec<CLine>) -> (r: i64)
        requires
            self.end_bi < lines@.len(),
        ensures
            r == lines@[self.end_bi as int].end_val,
    {
        lines[self.end_bi].end_val
    }

    pub fn get_begin_val(&self, lines: &Vec<CLine>) -> (r: i64)
        requires
            self.start_bi < lines@.len(),
        ensures
            r == lines@[self.start_bi as int].begin_val,
    {
        lines[self.start_bi].begin_val
    }

    /// The distance between the values at both ends.
    pub fn amp(&self, lines: &Vec<CLine>) -> (r: i128)
        requires
            self.start_bi < lines@.len(),
            self.end_bi < lines@.len(),
        ensures
            r >= 0,
            r == lines@[self.end_bi as int].end_val - lines@[self.start_bi as int].begin_val
                || r == lines@[self.start_bi as int].begin_val - lines@[self.end_bi as int].end_val,
    {
        let d = self.get_end_val(lines) as i128 - self.get_begin_val(lines) as i128;
        if d >= 0 {
            d
        } else {
            -d
        }
    }

    /// The bar where the segment ends.
    pub fn get_end_klu(&self, lines: &Vec<CLine>) -> (r: usize)
        requires
            self.end_bi < lines@.len(),
        ensures
            r == lines@[self.end_bi as int].end_klu,
    {
        lines[self.end_bi].end_klu
    }

    /// The bar where the segment starts.
    pub fn get_begin_klu(&self, lines: &Vec<CLine>) -> (r: usize)
        requires
            self.start_bi < lines@.len(),
        ensures
            r == lines@[self.start_bi as int].begin_klu,
    {
        lines[self.start_bi].begin_klu
    }

    /// Number of bars from the start bar to the end bar, both included.
    pub fn get_klu_cnt(&self, lines: &Vec<CLine>) -> (r: usize)
        requires
            self.start_bi < lines@.len(),
            self.end_bi < lines@.len(),
            lines@[self.start_bi as int].begin_klu <= lines@[self.end_bi as int].end_klu < usize::MAX,
        ensures
            r == lines@[self.end_bi as int].end_klu - lines@[self.start_bi as int].begin_klu + 1,
    {
        self.get_end_klu(lines) - self.get_begin_klu(lines) + 1
    }

    /// The segment seen as a line of the next level up.
    pub fn to_line(&self, lines: &Vec<CLine>) -> (r: CLine)
        requires
            self.start_bi < lines@.len(),
            self.end_bi < lines@.len(),
        ensures
            r == spec_seg_line(lines@, self.idx, self.start_bi as int, self.end_bi as int, self.dir, self.is_sure, self.seg_idx),
    {
        let s = &lines[self.start_bi];
        let e = &lines[self.end_bi];
        CLine {
            idx: self.idx,
            dir: self.dir,
            high: self.high(lines),
            low: self.low(lines),
            begin_val: s.begin_val,
            end_val: e.end_val,
            is_sure: self.is_sure,
            begin_klu: s.begin_klu,
            end_klu: e.end_klu,
            begin_klu_high: s.begin_klu_high,
            begin_klu_low: s.begin_klu_low,
            end_klu_high: e.end_klu_high,
            end_klu_low: e.end_klu_low,
            seg_idx: self.seg_idx,
        }
    }
}

/// What a segment shows to the level above: its index, direction, and how
/// many lines it holds.
pub trait SegLine {
    fn seg_line_idx(&self) -> usize;

    fn seg_line_dir(&self) -> BI_DIR;

    fn seg_line_get_bi_list_len(&self) -> usize;
}

impl SegLine for CSeg {
    fn seg_line_idx(&self) -> (r: usize)
        ensures
            r == self.idx,
    {
        self.idx
    }

    fn seg_line_dir(&self) -> (r: BI_DIR)
        ensures
            r == self.dir,
    {
        self.dir
    }

    /// The lines `start_bi..=end_bi`; none when the end lies before the
    /// start.
    fn seg_line_get_bi_list_len(&self) -> (r: usize)
        ensures
            self.start_bi <= self.end_bi < usize::MAX ==> r == self.end_bi - self.start_bi + 1,
            self.start_bi > self.end_bi ==> r == 0,
    {
        if self.start_bi > self.end_bi {
            0
        } else if self.end_bi - self.start_bi < usize::MAX {
            self.end_bi - self.start_bi + 1
        } else {
            usize::MAX
        }
    }
}

pub open spec fn spec_seg_low(lines: Seq<CLine>, start: int, end: int, dir: BI_DIR) -> i64 {
    if dir == BI_DIR::DOWN { lines[end].end_klu_low } else { lines[start].begin_klu_low }
}

pub open spec fn spec_seg_high(lines: Seq<CLine>, start: int, end: int, dir: BI_DIR) -> i64 {
    if dir == BI_DIR::UP { lines[end].end_klu_high } else { lines[start].begin_klu_high }
}

/// What the next level up reads of a segment.
pub open spec fn spec_seg_line(
    lines: Seq<CLine>,
    idx: usize,
    start: int,
    end: int,
    dir: BI_DIR,
    is_sure: bool,
    seg_idx: Option<usize>,
) -> CLine {
    CLine {
        idx,
        dir,
        high: spec_seg_high(lines, start, end, dir),
        low: spec_seg_low(lines, start, end, dir),
        begin_val: lines[start].begin_val,
        end_val: lines[end].end_val,
        is_sure,
        begin_klu: lines[start].begin_klu,
        end_klu: lines[end].end_klu,
        begin_klu_high: lines[start].begin_klu_high,
        begin_klu_low: lines[start].begin_klu_low,
        end_klu_high: lines[end].end_klu_high,
        end_klu_low: lines[end].end_klu_low,
        seg_idx,
    }
}

/// Formats the message for a sure down segment ending above its start.
fn seg_down_value_message(idx: usize) -> (r: String)
    ensures
        r@ == "下降线段起始点应该高于结束点! idx="@ + spec_int_text(idx as int),
{
    let mut s = "下降线段起始点应该高于结束点! idx=".to_owned();
    let t0 = int_text(idx as i128);
    s.append(t0.as_str());
    s
}

/// Formats the message for a sure up segment ending below its start.
fn seg_up_value_message(idx: usize) -> (r: String)
    ensures
        r@ == "上升线段起始点应该低于结束点! idx="@ + spec_int_text(idx as int),
{
    let mut s = "上升线段起始点应该低于结束点! idx=".to_owned();
    let t0 = int_text(idx as i128);
    s.append(t0.as_str());
    s
}

/// Formats the message for a sure segment of fewer than three lines.
fn seg_len_message(start: usize, end: usize, idx: usize) -> (r: String)
    ensures
        r@ == "线段("@ + spec_int_text(start as int) + "-"@ + spec_int_text(end as int) + ")长度不能小于2! idx="@
            + spec_int_text(idx as int),
{
    let mut s = "线段(".to_owned();
    let t0 = int_text(start as i128);
    s.append(t0.as_str());
    s.append("-");
    let t1 = int_text(end as i128);
    s.append(t1.as_str());
    s.append(")长度不能小于2! idx=");
    let t2 = int_text(idx as i128);
    s.append(t2.as_str());
    s
}

} // verus!

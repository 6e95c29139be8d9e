use vstd::prelude::*;
use crate::enums::BI_DIR;

verus! {

/// What segments and pivots read of a stroke, or of a segment when segments
/// of segments are built: its index, direction, extremes, values at both
/// ends, the bars where it starts and ends and those bars' own extremes, and
/// the segment it was found to belong to.
#[derive(Debug, Clone, Copy, PartialEq, Eq, Structural)]
pub struct CLine {
    pub idx: usize,
    pub dir: BI_DIR,
    pub high: i64,
    pub low: i64,
    pub begin_val: i64,
    pub end_val: i64,
    pub is_sure: bool,
    pub begin_klu: usize,
    pub end_klu: usize,
    pub begin_klu_high: i64,
    pub begin_klu_low: i64,
    pub end_klu_high: i64,
    pub end_klu_low: i64,
    pub seg_idx: Option<usize>,
}

impl CLine {
    pub fn is_up(&self) -> (r: bool)
        ensures
            r == (self.dir == BI_DIR::UP),
    {
        self.dir == BI_DIR::UP
    }

    pub fn is_down(&self) -> (r: bool)
        ensures
            r == (self.dir == BI_DIR::DOWN),
    {
        self.dir == BI_DIR::DOWN
    }
}

/// A list of lines as the layers above read it: each knows its index, the
/// directions alternate.
pub open spec fn lines_wf(lines: Seq<CLine>) -> bool {
    &&& forall|i: int| 0 <= i < lines.len() ==> (#[trigger] lines[i]).idx == i
    &&& forall|i: int| 0 <= i < lines.len() - 1 ==> #[trigger] lines[i + 1].dir != lines[i].dir
}

} // verus!

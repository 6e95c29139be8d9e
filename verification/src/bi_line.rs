use vstd::prelude::*;
use crate::bi::{
    spec_begin_klu, spec_begin_val, spec_bi_high, spec_bi_low, spec_end_klu, spec_end_val, BiView,
    CBi,
};
use crate::bi_list::{bi_at_ok, bis_wf, CBiList};
use crate::enums::{BI_DIR, FX_TYPE};
use crate::kline::KLineView;
use crate::kline_list::{lemma_peak_klu_in, CKLineList};
use crate::kline_unit::CKLineUnit;
use crate::line::{lines_wf, CLine};

verus! {

/// What the layers above read of a stroke.
pub open spec fn spec_bi_line(ks: Seq<KLineView>, units: Seq<CKLineUnit>, b: BiView) -> CLine {
    let bk = spec_begin_klu(ks, units, b);
    let ek = spec_end_klu(ks, units, b);
    CLine {
        idx: b.idx,
        dir: b.dir,
        high: spec_bi_high(ks, b),
        low: spec_bi_low(ks, b),
        begin_val: spec_begin_val(ks, b),
        end_val: spec_end_val(ks, b),
        is_sure: b.is_sure,
        begin_klu: bk,
        end_klu: ek,
        begin_klu_high: units[bk as int].high,
        begin_klu_low: units[bk as int].low,
        end_klu_high: units[ek as int].high,
        end_klu_low: units[ek as int].low,
        seg_idx: b.seg_idx,
    }
}

/// The lines of all strokes, in order.
pub open spec fn spec_bi_lines(ks: Seq<KLineView>, units: Seq<CKLineUnit>, bis: Seq<BiView>) -> Seq<CLine> {
    Seq::new(bis.len(), |i: int| spec_bi_line(ks, units, bis[i]))
}

/// Two strokes in a row run opposite ways: a stroke ends at the fractal the
/// next one starts from.
pub proof fn lemma_bis_alternate(ks: Seq<KLineView>, bis: Seq<BiView>, free: Seq<usize>, i: int)
    requires
        bis_wf(ks, bis, free),
        0 <= i < bis.len() - 1,
    ensures
        bis[i + 1].dir != bis[i].dir,
{
    assert(bi_at_ok(ks, bis, i));
    assert(bi_at_ok(ks, bis, i + 1));
    let e = ks[bis[i].end_klc as int].fx;
    if bis[i].dir == BI_DIR::UP {
        assert(e == FX_TYPE::TOP);
    } else {
        assert(e == FX_TYPE::BOTTOM);
    }
}

impl CBi {
    /// The stroke as a line.
    pub fn to_line(&self, kl: &CKLineList) -> (r: CLine)
        requires
            kl.wf(),
            self.begin_klc < kl.klcs().len(),
            self.end_klc < kl.klcs().len(),
        ensures
            r == spec_bi_line(kl.klcs(), kl.units@, self@),
    {
        let bk = self.get_begin_klu(kl);
        let ek = self.get_end_klu(kl);
        let ulen = kl.units.len();
        proof {
            assert(kl.units@.len() == ulen);
            lemma_peak_klu_in(kl.klcs(), kl.units@, self.begin_klc as int, self.dir != BI_DIR::UP);
            lemma_peak_klu_in(kl.klcs(), kl.units@, self.end_klc as int, self.dir == BI_DIR::UP);
        }
        CLine {
            idx: self.idx,
            dir: self.dir,
            high: self.high(kl),
            low: self.low(kl),
            begin_val: self.get_begin_val(kl),
            end_val: self.get_end_val(kl),
            is_sure: self.is_sure,
            begin_klu: bk,
            end_klu: ek,
            begin_klu_high: kl.units[bk].high,
            begin_klu_low: kl.units[bk].low,
            end_klu_high: kl.units[ek].high,
            end_klu_low: kl.units[ek].low,
            seg_idx: self.seg_idx,
        }
    }
}

impl CBiList {
    /// The lines of all strokes; they form a well-formed list of lines.
    pub fn to_lines(&self, kl: &CKLineList) -> (r: Vec<CLine>)
        requires
            self.wf(kl),
        ensures
            r@ == spec_bi_lines(kl.klcs(), kl.units@, self.bis()),
            lines_wf(r@),
    {
        let ghost ks = kl.klcs();
        let ghost bis = self.bis();
        let mut out: Vec<CLine> = Vec::new();
        let mut i: usize = 0;
        while i < self.bi_list.len()
            invariant
                self.wf(kl),
                ks == kl.klcs(),
                bis == self.bis(),
                i <= bis.len(),
                out@.len() == i,
                forall|j: int| 0 <= j < i ==> #[trigger] out@[j] == spec_bi_line(ks, kl.units@, bis[j]),
            decreases bis.len() - i,
        {
            proof {
                assert(bi_at_ok(ks, bis, i as int));
                assert(bis[i as int] == self.bi_list@[i as int]@);
            }
            let l = self.bi_list[i].to_line(kl);
            out.push(l);
            i = i + 1;
        }
        proof {
            let lines = out@;
            assert(lines =~= spec_bi_lines(ks, kl.units@, bis));
            assert forall|j: int| 0 <= j < lines.len() implies (#[trigger] lines[j]).idx == j by {
                assert(bi_at_ok(ks, bis, j));
            }
            assert forall|j: int| 0 <= j < lines.len() - 1 implies #[trigger] lines[j + 1].dir != lines[j].dir by {
                lemma_bis_alternate(ks, bis, self.free_klc_lst@, j);
            }
        }
        out
    }
}

} // verus!

use vstd::prelude::*;
use crate::enums::{BI_DIR, BSP_TYPE};
use crate::func_util::{has_overlap, spec_has_overlap};
use crate::line::CLine;
use crate::seg::CSeg;
use crate::analyzer::Analyzer;
use crate::seg_list::check_lines_wf;
use crate::storage::{parent_of, spec_parent, spec_seg_lines};
use crate::zs::{goes_beyond, spec_one_bi, spec_peak_prefix, CZS};
use crate::text::spec_bsp_type_text;

verus! {

// ---------------------------------------------------------------------------
// Settings

/// The settings of buy/sell points on one side (buy or sell). Rates are in
/// hundred-millionths, as prices are. How much of a divergence a first-class
/// point needs is decided by the caller (see `CBSPointList::cal`).
pub struct CPointConfig {
    /// A first-class point needs at least this many pivots in its segment.
    pub min_zs_cnt: usize,
    /// Only pivots of more than one line count for `min_zs_cnt`.
    pub bsp1_only_multibi_zs: bool,
    /// The largest retrace of a second-class point, against the line it
    /// comes back from.
    pub max_bs2_rate: i64,
    /// A first-class point must end at the segment's peak.
    pub bs1_peak: bool,
    /// The kinds of point looked for.
    pub target_types: Vec<BSP_TYPE>,
    pub bsp2_follow_1: bool,
    pub bsp3_follow_1: bool,
    /// A third-class point must break the pivot's peak.
    pub bsp3_peak: bool,
    pub bsp2s_follow_2: bool,
    /// The deepest level of a similar-second-class point.
    pub max_bsp2s_lv: Option<usize>,
    /// A third-class point's pivot must follow the first-class point.
    pub strict_bsp3: bool,
}

/// The settings of both sides.
pub struct CBSPointConfig {
    pub b_conf: CPointConfig,
    pub s_conf: CPointConfig,
}

impl CBSPointConfig {
    pub open spec fn side(&self, is_buy: bool) -> &CPointConfig {
        if is_buy { &self.b_conf } else { &self.s_conf }
    }

    pub fn get_bs_config(&self, is_buy: bool) -> (r: &CPointConfig)
        ensures
            r == self.side(is_buy),
    {
        if is_buy { &self.b_conf } else { &self.s_conf }
    }
}

impl CPointConfig {
    /// Whether points of kind `t` are looked for.
    pub fn is_target(&self, t: BSP_TYPE) -> (r: bool)
        ensures
            r == self.target_types@.contains(t),
    {
        let mut i: usize = 0;
        while i < self.target_types.len()
            invariant
                i <= self.target_types@.len(),
                forall|k: int| 0 <= k < i ==> self.target_types@[k] != t,
            decreases self.target_types@.len() - i,
        {
            if self.target_types[i] == t {
                return true;
            }
            i = i + 1;
        }
        false
    }
}

/// All six kinds, in the order the settings list them by default.
pub open spec fn spec_all_types() -> Seq<BSP_TYPE> {
    seq![BSP_TYPE::T1, BSP_TYPE::T2, BSP_TYPE::T3A, BSP_TYPE::T1P, BSP_TYPE::T2S, BSP_TYPE::T3B]
}

impl Default for CPointConfig {
    /// Every kind looked for, no pivot needed, a retrace rate of 0.9999, no
    /// point required to follow another.
    fn default() -> (r: Self)
        ensures
            r.min_zs_cnt == 0,
            r.bsp1_only_multibi_zs,
            r.max_bs2_rate == 99_990_000,
            !r.bs1_peak,
            r.target_types@ == spec_all_types(),
            !r.bsp2_follow_1 && !r.bsp3_follow_1 && !r.bsp3_peak && !r.bsp2s_follow_2 && !r.strict_bsp3,
            r.max_bsp2s_lv is None,
    {
        let mut t: Vec<BSP_TYPE> = Vec::new();
        t.push(BSP_TYPE::T1);
        t.push(BSP_TYPE::T2);
        t.push(BSP_TYPE::T3A);
        t.push(BSP_TYPE::T1P);
        t.push(BSP_TYPE::T2S);
        t.push(BSP_TYPE::T3B);
        assert(t@ =~= spec_all_types());
        CPointConfig {
            min_zs_cnt: 0,
            bsp1_only_multibi_zs: true,
            max_bs2_rate: 99_990_000,
            bs1_peak: false,
            target_types: t,
            bsp2_follow_1: false,
            bsp3_follow_1: false,
            bsp3_peak: false,
            bsp2s_follow_2: false,
            max_bsp2s_lv: None,
            strict_bsp3: false,
        }
    }
}

impl Default for CBSPointConfig {
    /// The default settings on both sides.
    fn default() -> (r: Self)
        ensures
            r.b_conf.target_types@ == spec_all_types(),
            r.s_conf.target_types@ == spec_all_types(),
            r.b_conf.max_bs2_rate == 99_990_000 && r.s_conf.max_bs2_rate == 99_990_000,
    {
        CBSPointConfig { b_conf: CPointConfig::default(), s_conf: CPointConfig::default() }
    }
}

// ---------------------------------------------------------------------------
// Points

/// A buy/sell point: at the end of line `bi` (bar `klu`), its kinds in the
/// order they were found, and the line of the first-class point it follows.
pub struct CBSPoint {
    pub bi: usize,
    pub klu: usize,
    pub is_buy: bool,
    pub bsp_type: Vec<BSP_TYPE>,
    pub relate_bsp1: Option<usize>,
    pub is_segbsp: bool,
}

pub struct BspView {
    pub bi: usize,
    pub klu: usize,
    pub is_buy: bool,
    pub types: Seq<BSP_TYPE>,
    pub relate_bsp1: Option<usize>,
    pub is_segbsp: bool,
}

impl View for CBSPoint {
    type V = BspView;

    open spec fn view(&self) -> BspView {
        BspView {
            bi: self.bi,
            klu: self.klu,
            is_buy: self.is_buy,
            types: self.bsp_type@,
            relate_bsp1: self.relate_bsp1,
            is_segbsp: self.is_segbsp,
        }
    }
}

/// The names of kinds, joined by commas.
pub open spec fn spec_types_text(types: Seq<BSP_TYPE>) -> Seq<char>
    decreases types.len(),
{
    if types.len() == 0 {
        Seq::empty()
    } else if types.len() == 1 {
        spec_bsp_type_text(types[0])
    } else {
        spec_types_text(types.drop_last()) + seq![','] + spec_bsp_type_text(types.last())
    }
}

impl CBSPoint {
    /// A point of kind `t` at the end of `line`: on the buy side when the
    /// line goes down.
    pub fn new(line: &CLine, t: BSP_TYPE, relate: Option<usize>) -> (r: CBSPoint)
        ensures
            r@ == (BspView {
                bi: line.idx,
                klu: line.end_klu,
                is_buy: line.dir == BI_DIR::DOWN,
                types: seq![t],
                relate_bsp1: relate,
                is_segbsp: false,
            }),
    {
        let mut types: Vec<BSP_TYPE> = Vec::new();
        types.push(t);
        assert(types@ =~= seq![t]);
        CBSPoint {
            bi: line.idx,
            klu: line.end_klu,
            is_buy: line.dir == BI_DIR::DOWN,
            bsp_type: types,
            relate_bsp1: relate,
            is_segbsp: false,
        }
    }

    /// Adds a kind.
    pub fn add_type(&mut self, t: BSP_TYPE)
        ensures
            final(self)@ == (BspView { types: old(self)@.types.push(t), ..old(self)@ }),
    {
        self.bsp_type.push(t);
    }

    /// Adds a kind found again at this point, and the related first-class
    /// point when it has none yet.
    pub fn add_another_bsp_prop(&mut self, t: BSP_TYPE, relate: Option<usize>)
        ensures
            final(self)@ == (BspView {
                types: old(self)@.types.push(t),
                relate_bsp1: if old(self).relate_bsp1 is None { relate } else { old(self).relate_bsp1 },
                ..old(self)@
            }),
    {
        self.add_type(t);
        if self.relate_bsp1.is_none() {
            self.relate_bsp1 = relate;
        }
    }

    /// The names of the point's kinds, joined by commas.
    pub fn type2str(&self) -> (r: String)
        ensures
            r@ == spec_types_text(self.bsp_type@),
    {
        let mut out = String::new();
        let mut i: usize = 0;
        proof {
            reveal_strlit(",");
        }
        while i < self.bsp_type.len()
            invariant
            i <= self.bsp_type@.len(),
                out@ == spec_types_text(self.bsp_type@.take(i as int)),
                ","@ == seq![','],
            decreases self.bsp_type@.len() - i,
        {
            let ghost before = out@;
            if i > 0 {
                out.append(",");
            }
            let t = self.bsp_type[i].text();
            out.append(t.as_str());
            proof {
                let s = self.bsp_type@.take(i + 1);
                assert(s.drop_last() =~= self.bsp_type@.take(i as int));
                assert(s.last() == self.bsp_type@[i as int]);
                if i == 0 {
                    assert(s =~= seq![self.bsp_type@[0]]);
                }
            }
            i = i + 1;
        }
        proof {
            assert(self.bsp_type@.take(i as int) =~= self.bsp_type@);
        }
        out
    }

    fn copy(&self) -> (r: CBSPoint)
        ensures
            r@ == self@,
    {
        let mut types: Vec<BSP_TYPE> = Vec::new();
        let mut i: usize = 0;
        while i < self.bsp_type.len()
            invariant
                i <= self.bsp_type@.len(),
                types@ == self.bsp_type@.take(i as int),
            decreases self.bsp_type@.len() - i,
        {
            types.push(self.bsp_type[i]);
            i = i + 1;
            assert(types@ =~= self.bsp_type@.take(i as int));
        }
        assert(self.bsp_type@.take(i as int) =~= self.bsp_type@);
        CBSPoint {
            bi: self.bi,
            klu: self.klu,
            is_buy: self.is_buy,
            bsp_type: types,
            relate_bsp1: self.relate_bsp1,
            is_segbsp: self.is_segbsp,
        }
    }
}

pub open spec fn views(v: Seq<CBSPoint>) -> Seq<BspView> {
    v.map_values(|p: CBSPoint| p@)
}

/// The first point at bar `klu`, from position `k` on.
pub open spec fn spec_find_klu_from(lst: Seq<BspView>, klu: int, k: int) -> Option<int>
    decreases lst.len() - k,
{
    if k < 0 || k >= lst.len() {
        None
    } else if lst[k].klu == klu {
        Some(k)
    } else {
        spec_find_klu_from(lst, klu, k + 1)
    }
}

/// Whether some point stands on line `bi`.
pub open spec fn spec_has_bi(lst: Seq<BspView>, bi: int) -> bool {
    exists|k: int| 0 <= k < lst.len() && (#[trigger] lst[k]).bi == bi
}

/// What adding a point of kind `t` at the end of line `l` does to the points
/// and the first-class points: a point already at that bar takes the kind
/// too (and the related first-class point if it had none); otherwise a new
/// point is listed if it is a target, and kept among first-class points if
/// it is of the first class.
pub open spec fn spec_add_bs(
    lst: Seq<BspView>,
    bsp1: Seq<BspView>,
    t: BSP_TYPE,
    l: CLine,
    relate: Option<usize>,
    is_target: bool,
) -> (Seq<BspView>, Seq<BspView>) {
    match spec_find_klu_from(lst, l.end_klu as int, 0) {
        Some(k) => {
            let p = lst[k];
            let q = BspView {
                types: p.types.push(t),
                relate_bsp1: if p.relate_bsp1 is None { relate } else { p.relate_bsp1 },
                ..p
            };
            (lst.update(k, q), bsp1)
        },
        None => {
            let p = BspView {
                bi: l.idx,
                klu: l.end_klu,
                is_buy: l.dir == BI_DIR::DOWN,
                types: seq![t],
                relate_bsp1: relate,
                is_segbsp: false,
            };
            (
                if is_target { lst.push(p) } else { lst },
                if t == BSP_TYPE::T1 || t == BSP_TYPE::T1P { bsp1.push(p) } else { bsp1 },
            )
        },
    }
}

/// The invariant of the points: each listed point's first kind is a target
/// of its side, no two stand at the same bar; first-class points are of the
/// first class.
pub open spec fn points_ok(lst: Seq<BspView>, bsp1: Seq<BspView>, conf: CBSPointConfig) -> bool {
    &&& forall|k: int| 0 <= k < lst.len() ==> #[trigger] lst[k].types.len() >= 1 && conf.side(
        lst[k].is_buy,
    ).target_types@.contains(lst[k].types[0])
    &&& forall|i: int, j: int| 0 <= i < j < lst.len() ==> #[trigger] lst[i].klu != #[trigger] lst[j].klu
    &&& forall|k: int| 0 <= k < bsp1.len() ==> #[trigger] bsp1[k].types.len() >= 1 && (bsp1[k].types[0] == BSP_TYPE::T1
        || bsp1[k].types[0] == BSP_TYPE::T1P)
}

/// The bar from which a sure segment's points are settled: where the last
/// sure segment's last line begins.
pub open spec fn spec_last_sure_from(segs: Seq<CSeg>, lines: Seq<CLine>, k: int) -> Option<usize>
    decreases k,
{
    if k <= 0 || k > segs.len() {
        None
    } else if segs[k - 1].is_sure {
        if segs[k - 1].end_bi < lines.len() {
            Some(lines[segs[k - 1].end_bi as int].begin_klu)
        } else {
            None
        }
    } else {
        spec_last_sure_from(segs, lines, k - 1)
    }
}

/// The buy/sell points of one level.
pub struct CBSPointList {
    pub lst: Vec<CBSPoint>,
    pub bsp1_lst: Vec<CBSPoint>,
    pub config: CBSPointConfig,
    pub last_sure_pos: Option<usize>,
}

impl CBSPointList {
    pub open spec fn wf(&self) -> bool {
        points_ok(views(self.lst@), views(self.bsp1_lst@), self.config)
    }

    pub fn new(config: CBSPointConfig) -> (r: Self)
        ensures
            r.wf(),
            r.lst@.len() == 0 && r.bsp1_lst@.len() == 0,
            r.config == config,
            r.last_sure_pos is None,
    {
        CBSPointList { lst: Vec::new(), bsp1_lst: Vec::new(), config, last_sure_pos: None }
    }

    pub fn len(&self) -> (r: usize)
        ensures
            r == self.lst@.len(),
    {
        self.lst.len()
    }

    pub fn is_empty(&self) -> (r: bool)
        ensures
            r == (self.lst@.len() == 0),
    {
        self.lst.len() == 0
    }

    /// The point at position `i` of the list, if there is one.
    pub fn get(&self, i: usize) -> (r: Option<&CBSPoint>)
        ensures
            i < self.lst@.len() ==> r == Some(&self.lst@[i as int]),
            i >= self.lst@.len() ==> r is None,
    {
        if i < self.lst.len() {
            Some(&self.lst[i])
        } else {
            None
        }
    }

    /// Settles the bar up to which points are kept on the next pass.
    pub fn update_last_pos(&mut self, segs: &Vec<CSeg>, lines: &Vec<CLine>)
        ensures
            final(self).last_sure_pos == spec_last_sure_from(segs@, lines@, segs@.len() as int),
            final(self).lst == old(self).lst,
            final(self).bsp1_lst == old(self).bsp1_lst,
            final(self).config == old(self).config,
    {
        let mut k = segs.len();
        while k > 0
            invariant
                k <= segs@.len(),
                spec_last_sure_from(segs@, lines@, k as int) == spec_last_sure_from(segs@, lines@, segs@.len() as int),
                self.lst == old(self).lst,
                self.bsp1_lst == old(self).bsp1_lst,
                self.config == old(self).config,
            decreases k,
        {
            if segs[k - 1].is_sure {
                let e = segs[k - 1].end_bi;
                if e < lines.len() {
                    self.last_sure_pos = Some(lines[e].begin_klu);
                } else {
                    self.last_sure_pos = None;
                }
                return;
            }
            k = k - 1;
        }
        self.last_sure_pos = None;
    }

    /// Whether a segment still has to be looked at: it ends after the
    /// settled bar (or its last line is unknown).
    pub fn seg_need_cal(&self, seg: &CSeg, lines: &Vec<CLine>) -> (r: bool)
        ensures
            r == (match self.last_sure_pos {
                Some(p) => seg.end_bi >= lines@.len() || lines@[seg.end_bi as int].end_klu > p,
                None => true,
            }),
    {
        match self.last_sure_pos {
            Some(p) => seg.end_bi >= lines.len() || lines[seg.end_bi].end_klu > p,
            None => true,
        }
    }

    fn find_klu(&self, klu: usize) -> (r: Option<usize>)
        ensures
            r matches Some(k) ==> k < self.lst@.len(),
            r matches Some(k) ==> spec_find_klu_from(views(self.lst@), klu as int, 0) == Some(k as int),
            r is None ==> spec_find_klu_from(views(self.lst@), klu as int, 0) is None,
    {
        let ghost v = views(self.lst@);
        let mut k: usize = 0;
        while k < self.lst.len()
            invariant
                v == views(self.lst@),
                k <= self.lst@.len(),
                spec_find_klu_from(v, klu as int, k as int) == spec_find_klu_from(v, klu as int, 0),
            decreases self.lst@.len() - k,
        {
            if self.lst[k].klu == klu {
                return Some(k);
            }
            k = k + 1;
        }
        None
    }

    /// Whether some listed point stands on line `bi`.
    pub fn has_bsp_on(&self, bi: usize) -> (r: bool)
        ensures
            r == spec_has_bi(views(self.lst@), bi as int),
    {
        let ghost v = views(self.lst@);
        let mut k: usize = 0;
        while k < self.lst.len()
            invariant
                v == views(self.lst@),
                k <= self.lst@.len(),
                forall|j: int| 0 <= j < k ==> v[j].bi != bi,
            decreases self.lst@.len() - k,
        {
            if self.lst[k].bi == bi {
                assert(v[k as int].bi == bi);
                return true;
            }
            k = k + 1;
        }
        false
    }

    /// The line of a first-class point on line `bi`, if there is one.
    pub fn real_bsp1(&self, bi: usize) -> (r: Option<usize>)
        ensures
            r is Some <==> spec_has_bi(views(self.bsp1_lst@), bi as int),
            r matches Some(x) ==> x == bi,
    {
        let ghost v = views(self.bsp1_lst@);
        let mut k: usize = 0;
        while k < self.bsp1_lst.len()
            invariant
                v == views(self.bsp1_lst@),
                k <= self.bsp1_lst@.len(),
                forall|j: int| 0 <= j < k ==> v[j].bi != bi,
            decreases self.bsp1_lst@.len() - k,
        {
            if self.bsp1_lst[k].bi == bi {
                assert(v[k as int].bi == bi);
                return Some(bi);
            }
            k = k + 1;
        }
        None
    }

    /// Adds a point of kind `t` at the end of `line`, as `spec_add_bs` says;
    /// a point that is no target of its side is not listed.
    #[verifier::spinoff_prover]
    pub fn add_bs(&mut self, t: BSP_TYPE, line: &CLine, relate: Option<usize>, is_target: bool)
        requires
            old(self).wf(),
        ensures
            final(self).wf(),
            final(self).config == old(self).config,
            final(self).last_sure_pos == old(self).last_sure_pos,
            (views(final(self).lst@), views(final(self).bsp1_lst@)) == spec_add_bs(
                views(old(self).lst@),
                views(old(self).bsp1_lst@),
                t,
                *line,
                relate,
                is_target && old(self).config.side(line.dir == BI_DIR::DOWN).target_types@.contains(t),
            ),
    {
        let ghost v0 = views(self.lst@);
        let ghost w0 = views(self.bsp1_lst@);
        let is_buy = line.dir == BI_DIR::DOWN;
        match self.find_klu(line.end_klu) {
            Some(k) => {
                let ghost l0 = self.lst@;
                proof {
                    assert(spec_find_klu_from(v0, line.end_klu as int, 0) == Some(k as int));
                }
                let ghost p0 = l0[k as int]@;
                let mut p = self.lst.remove(k);
                assert(p@ == p0);
                p.add_another_bsp_prop(t, relate);
                let ghost pv = p@;
                self.lst.insert(k, p);
                proof {
                    assert(self.lst@ =~= l0.update(k as int, p));
                    let v1 = views(self.lst@);
                    assert(v1[k as int] == pv);
                    assert(pv.types =~= p0.types.push(t));
                    let q = BspView {
                        types: p0.types.push(t),
                        relate_bsp1: if p0.relate_bsp1 is None { relate } else { p0.relate_bsp1 },
                        ..p0
                    };
                    assert(pv == q);
                    assert(v1 =~= v0.update(k as int, q));
                    let (a, b) = spec_add_bs(v0, w0, t, *line, relate, is_target && self.config.side(is_buy).target_types@.contains(t));
                    assert(v1 =~= a);
                    assert(views(self.bsp1_lst@) =~= b);
                    assert forall|i: int, j: int| 0 <= i < j < v1.len() implies #[trigger] v1[i].klu != #[trigger] v1[j].klu by {
                        assert(v0[i].klu != v0[j].klu);
                    }
                    assert forall|j: int| 0 <= j < v1.len() implies #[trigger] v1[j].types.len() >= 1 && self.config.side(
                        v1[j].is_buy,
                    ).target_types@.contains(v1[j].types[0]) by {
                        assert(v0[j].types.len() >= 1);
                        if j == k {
                            assert(v1[j].types[0] == v0[j].types[0]);
                            assert(v1[j].is_buy == v0[j].is_buy);
                        } else {
                            assert(v1[j] == v0[j]);
                        }
                    }
                    assert(points_ok(v1, views(self.bsp1_lst@), self.config));
                }
            },
            None => {
                let target = is_target && self.config.get_bs_config(is_buy).is_target(t);
                let p = CBSPoint::new(line, t, relate);
                let ghost l0 = self.lst@;
                let ghost m0 = self.bsp1_lst@;
                let ghost pv = p@;
                assert(pv.types =~= seq![t]);
                if t == BSP_TYPE::T1 || t == BSP_TYPE::T1P {
                    let q = p.copy();
                    self.bsp1_lst.push(q);
                    assert(self.bsp1_lst@ == m0.push(q));
                    assert(views(self.bsp1_lst@) =~= w0.push(pv));
                } else {
                    assert(views(self.bsp1_lst@) =~= w0);
                }
                if target {
                    self.lst.push(p);
                    assert(views(self.lst@) =~= v0.push(pv));
                } else {
                    assert(views(self.lst@) =~= v0);
                }
                proof {
                    let v1 = views(self.lst@);
                    let w1 = views(self.bsp1_lst@);
                    let (a, b) = spec_add_bs(v0, w0, t, *line, relate, is_target && self.config.side(is_buy).target_types@.contains(t));
                    assert(v1 =~= a);
                    assert(w1 =~= b);
                    assert forall|i: int, j: int| 0 <= i < j < v1.len() implies #[trigger] v1[i].klu != #[trigger] v1[j].klu by {
                        if j == v0.len() {
                            assert(spec_find_klu_from(v0, line.end_klu as int, 0) is None);
                            lemma_find_klu_none(v0, line.end_klu as int, 0, i);
                        }
                    }
                    assert forall|j: int| 0 <= j < v1.len() implies #[trigger] v1[j].types.len() >= 1 && self.config.side(
                        v1[j].is_buy,
                    ).target_types@.contains(v1[j].types[0]) by {
                        if j < v0.len() {
                            assert(v1[j] == v0[j]);
                        } else {
                            assert(v1[j] == pv);
                            assert(pv.types[0] == t);
                        }
                    }
                    assert forall|j: int| 0 <= j < w1.len() implies #[trigger] w1[j].types.len() >= 1 && (w1[j].types[0]
                        == BSP_TYPE::T1 || w1[j].types[0] == BSP_TYPE::T1P) by {
                        if j < w0.len() {
                            assert(w1[j] == w0[j]);
                            assert(w0[j].types.len() >= 1);
                        } else {
                            if !(t == BSP_TYPE::T1 || t == BSP_TYPE::T1P) {
                                assert(b == w0);
                                assert(w1.len() == w0.len());
                            }
                            assert(t == BSP_TYPE::T1 || t == BSP_TYPE::T1P);
                            assert(w1 == w0.push(pv));
                            assert(w1[j] == pv);
                            assert(pv.types.len() == 1 && pv.types[0] == t);
                        }
                    }
                    assert(points_ok(v1, w1, self.config));
                }
            },
        }
    }
}

proof fn lemma_find_klu_none(v: Seq<BspView>, klu: int, k: int, i: int)
    requires
        spec_find_klu_from(v, klu, k) is None,
        0 <= k <= i < v.len(),
    ensures
        v[i].klu != klu,
    decreases i - k,
{
    if k < i {
        lemma_find_klu_none(v, klu, k + 1, i);
    }
}

// ---------------------------------------------------------------------------
// Pivots of a segment

/// Whether `k` names a pivot of more than one line.
pub open spec fn spec_is_multi(zs: Seq<CZS>, k: usize) -> bool {
    k < zs.len() && !spec_one_bi(zs[k as int])
}

/// How many of the first `n` pivots of a segment span more than one line.
pub open spec fn spec_multi_cnt(ids: Seq<usize>, zs: Seq<CZS>, n: int) -> nat
    decreases n,
{
    if n <= 0 || n > ids.len() {
        0
    } else {
        spec_multi_cnt(ids, zs, n - 1) + if spec_is_multi(zs, ids[n - 1]) { 1nat } else { 0nat }
    }
}

/// The first pivot of more than one line, from position `k` on.
pub open spec fn spec_first_multi_from(ids: Seq<usize>, zs: Seq<CZS>, k: int) -> Option<usize>
    decreases ids.len() - k,
{
    if k < 0 || k >= ids.len() {
        None
    } else if spec_is_multi(zs, ids[k]) {
        Some(ids[k])
    } else {
        spec_first_multi_from(ids, zs, k + 1)
    }
}

/// The last pivot of more than one line among the first `n`.
pub open spec fn spec_last_multi(ids: Seq<usize>, zs: Seq<CZS>, n: int) -> Option<usize>
    decreases n,
{
    if n <= 0 || n > ids.len() {
        None
    } else if spec_is_multi(zs, ids[n - 1]) {
        Some(ids[n - 1])
    } else {
        spec_last_multi(ids, zs, n - 1)
    }
}

fn is_multi(zs: &Vec<CZS>, k: usize) -> (r: bool)
    ensures
        r == spec_is_multi(zs@, k),
{
    k < zs.len() && !zs[k].is_one_bi_zs()
}

fn multi_cnt(seg: &CSeg, zs: &Vec<CZS>) -> (r: usize)
    ensures
        r == spec_multi_cnt(seg.zs_lst@, zs@, seg.zs_lst@.len() as int),
{
    let mut c: usize = 0;
    let mut i: usize = 0;
    while i < seg.zs_lst.len()
        invariant
            i <= seg.zs_lst@.len(),
            c == spec_multi_cnt(seg.zs_lst@, zs@, i as int),
            c <= i,
        decreases seg.zs_lst@.len() - i,
    {
        if is_multi(zs, seg.zs_lst[i]) {
            c = c + 1;
        }
        i = i + 1;
    }
    c
}

fn first_multi(seg: &CSeg, zs: &Vec<CZS>) -> (r: Option<usize>)
    ensures
        r == spec_first_multi_from(seg.zs_lst@, zs@, 0),
        r matches Some(k) ==> spec_is_multi(zs@, k),
{
    let mut i: usize = 0;
    while i < seg.zs_lst.len()
        invariant
            i <= seg.zs_lst@.len(),
            spec_first_multi_from(seg.zs_lst@, zs@, i as int) == spec_first_multi_from(seg.zs_lst@, zs@, 0),
        decreases seg.zs_lst@.len() - i,
    {
        if is_multi(zs, seg.zs_lst[i]) {
            return Some(seg.zs_lst[i]);
        }
        i = i + 1;
    }
    None
}

fn last_multi(seg: &CSeg, zs: &Vec<CZS>) -> (r: Option<usize>)
    ensures
        r == spec_last_multi(seg.zs_lst@, zs@, seg.zs_lst@.len() as int),
        r matches Some(k) ==> spec_is_multi(zs@, k),
{
    let mut i: usize = seg.zs_lst.len();
    while i > 0
        invariant
            i <= seg.zs_lst@.len(),
            spec_last_multi(seg.zs_lst@, zs@, i as int) == spec_last_multi(seg.zs_lst@, zs@, seg.zs_lst@.len() as int),
        decreases i,
    {
        if is_multi(zs, seg.zs_lst[i - 1]) {
            return Some(seg.zs_lst[i - 1]);
        }
        i = i - 1;
    }
    None
}

// ---------------------------------------------------------------------------
// Price tests of the point kinds

/// A line goes back into a pivot's range: a down line below its high, an
/// up line above its low.
pub open spec fn spec_back2zs(l: CLine, z: CZS) -> bool {
    (l.dir == BI_DIR::DOWN && l.low < z.high) || (l.dir == BI_DIR::UP && l.high > z.low)
}

/// A line breaks a pivot's peak: a down line whose high reaches the peak
/// high, an up line whose low reaches the peak low.
pub open spec fn spec_break_zspeak(l: CLine, z: CZS) -> bool {
    (l.dir == BI_DIR::DOWN && l.high >= z.peak_high) || (l.dir == BI_DIR::UP && l.low <= z.peak_low)
}

/// A line goes beyond the line it comes back from.
pub open spec fn spec_break_bsp1(l: CLine, b: CLine) -> bool {
    (l.dir == BI_DIR::DOWN && l.low < b.low) || (l.dir == BI_DIR::UP && l.high > b.high)
}

pub fn bsp3_back2zs(l: &CLine, z: &CZS) -> (r: bool)
    ensures
        r == spec_back2zs(*l, *z),
{
    (l.is_down() && l.low < z.high) || (l.is_up() && l.high > z.low)
}

pub fn bsp3_break_zspeak(l: &CLine, z: &CZS) -> (r: bool)
    ensures
        r == spec_break_zspeak(*l, *z),
{
    (l.is_down() && l.high >= z.peak_high) || (l.is_up() && l.low <= z.peak_low)
}

pub fn bsp2s_break_bsp1(l: &CLine, b: &CLine) -> (r: bool)
    ensures
        r == spec_break_bsp1(*l, *b),
{
    (l.is_down() && l.low < b.low) || (l.is_up() && l.high > b.high)
}

/// The distance between a line's ends.
pub open spec fn spec_amp(l: CLine) -> int {
    if l.end_val >= l.begin_val { l.end_val - l.begin_val } else { l.begin_val - l.end_val }
}

fn amp(l: &CLine) -> (r: i128)
    ensures
        r == spec_amp(*l),
{
    let d = l.end_val as i128 - l.begin_val as i128;
    if d >= 0 { d } else { -d }
}

/// `num / den <= rate`, the rate in hundred-millionths: false when `den` is
/// zero.
pub open spec fn spec_within_rate(num: int, den: int, rate: int) -> bool {
    den > 0 && num * 100_000_000 <= rate * den
}

/// `num / den > rate`, the rate in hundred-millionths: when `den` is zero,
/// true exactly when `num` is not.
pub open spec fn spec_beyond_rate(num: int, den: int, rate: int) -> bool {
    if den > 0 { num * 100_000_000 > rate * den } else { num != 0 }
}

fn within_rate(num: i128, den: i128, rate: i64) -> (r: bool)
    requires
        0 <= num < 0x1_0000_0000_0000_0000,
        0 <= den < 0x1_0000_0000_0000_0000,
    ensures
        r == spec_within_rate(num as int, den as int, rate as int),
{
    if den <= 0 {
        return false;
    }
    if rate < 0 {
        assert(num * 100_000_000 >= 0) by (nonlinear_arith)
            requires num >= 0;
        assert(rate * den < 0) by (nonlinear_arith)
            requires rate < 0, den > 0;
        return false;
    }
    assert(num * 100_000_000 < 0x1_0000_0000_0000_0000 * 100_000_000) by (nonlinear_arith)
        requires 0 <= num < 0x1_0000_0000_0000_0000;
    assert(rate * den <= 0x7fff_ffff_ffff_ffff * 0xffff_ffff_ffff_ffff) by (nonlinear_arith)
        requires 0 <= rate <= 0x7fff_ffff_ffff_ffff, 0 < den <= 0xffff_ffff_ffff_ffff;
    num * 100_000_000 <= rate as i128 * den
}

fn beyond_rate(num: i128, den: i128, rate: i64) -> (r: bool)
    requires
        0 <= num < 0x1_0000_0000_0000_0000,
        0 <= den < 0x1_0000_0000_0000_0000,
    ensures
        r == spec_beyond_rate(num as int, den as int, rate as int),
{
    if den <= 0 {
        return num != 0;
    }
    if rate < 0 {
        assert(num * 100_000_000 >= 0) by (nonlinear_arith)
            requires num >= 0;
        assert(rate * den < 0) by (nonlinear_arith)
            requires rate < 0, den > 0;
        return true;
    }
    assert(num * 100_000_000 < 0x1_0000_0000_0000_0000 * 100_000_000) by (nonlinear_arith)
        requires 0 <= num < 0x1_0000_0000_0000_0000;
    assert(rate * den <= 0x7fff_ffff_ffff_ffff * 0xffff_ffff_ffff_ffff) by (nonlinear_arith)
        requires 0 <= rate <= 0x7fff_ffff_ffff_ffff, 0 < den <= 0xffff_ffff_ffff_ffff;
    num * 100_000_000 > rate as i128 * den
}

// ---------------------------------------------------------------------------
// Finding the points

/// Whether a pivot's lines all lie among `n` lines.
pub open spec fn spec_zs_in(z: CZS, n: int) -> bool {
    &&& (z.bi_in matches Some(b) ==> b < n)
    &&& (z.bi_out matches Some(b) ==> b < n)
    &&& forall|k: int| 0 <= k < z.bi_lst@.len() ==> #[trigger] z.bi_lst@[k] < n
}

fn zs_in(z: &CZS, n: usize) -> (r: bool)
    ensures
        r == spec_zs_in(*z, n as int),
{
    match z.bi_in {
        Some(b) => if b >= n {
            return false;
        },
        None => {},
    }
    match z.bi_out {
        Some(b) => if b >= n {
            return false;
        },
        None => {},
    }
    let mut k: usize = 0;
    while k < z.bi_lst.len()
        invariant
            k <= z.bi_lst@.len(),
            forall|j: int| 0 <= j < k ==> #[trigger] z.bi_lst@[j] < n,
        decreases z.bi_lst@.len() - k,
    {
        if z.bi_lst[k] >= n {
            return false;
        }
        k = k + 1;
    }
    true
}

/// The points from position `from` on stand at the ends of lines: each at
/// its line's last bar, on the buy side exactly when the line goes down.
pub open spec fn pts_on_lines(v: Seq<BspView>, lines: Seq<CLine>, from: int) -> bool {
    forall|k: int| from <= k < v.len() ==> {
        let p = #[trigger] v[k];
        &&& p.bi < lines.len()
        &&& p.klu == lines[p.bi as int].end_klu
        &&& p.is_buy == (lines[p.bi as int].dir == BI_DIR::DOWN)
    }
}

/// The points kept from before stay first, at their bars, with their first
/// kind; they may gain kinds.
pub open spec fn kept_first(kept: Seq<BspView>, v: Seq<BspView>) -> bool {
    &&& kept.len() <= v.len()
    &&& forall|k: int| 0 <= k < kept.len() ==> {
        &&& (#[trigger] v[k]).bi == kept[k].bi
        &&& v[k].klu == kept[k].klu
        &&& v[k].is_buy == kept[k].is_buy
        &&& v[k].types.len() >= kept[k].types.len() >= 1
        &&& v[k].types[0] == kept[k].types[0]
    }
}

/// What a pass keeps between adding points.
pub open spec fn pass_ok(l: &CBSPointList, kept: Seq<BspView>, lines: Seq<CLine>) -> bool {
    &&& l.wf()
    &&& kept_first(kept, views(l.lst@))
    &&& pts_on_lines(views(l.lst@), lines, kept.len() as int)
}

proof fn lemma_add_bs_pass(
    v: Seq<BspView>,
    w: Seq<BspView>,
    t: BSP_TYPE,
    l: CLine,
    relate: Option<usize>,
    target: bool,
    kept: Seq<BspView>,
    lines: Seq<CLine>,
)
    requires
        kept_first(kept, v),
        pts_on_lines(v, lines, kept.len() as int),
        l.idx < lines.len(),
        lines[l.idx as int] == l,
        forall|i: int, j: int| 0 <= i < j < v.len() ==> #[trigger] v[i].klu != #[trigger] v[j].klu,
    ensures
        kept_first(kept, spec_add_bs(v, w, t, l, relate, target).0),
        pts_on_lines(spec_add_bs(v, w, t, l, relate, target).0, lines, kept.len() as int),
{
    let r = spec_add_bs(v, w, t, l, relate, target).0;
    match spec_find_klu_from(v, l.end_klu as int, 0) {
        Some(k) => {
            lemma_find_klu_some(v, l.end_klu as int, 0);
            assert forall|j: int| kept.len() <= j < r.len() implies {
                let p = #[trigger] r[j];
                &&& p.bi < lines.len()
                &&& p.klu == lines[p.bi as int].end_klu
                &&& p.is_buy == (lines[p.bi as int].dir == BI_DIR::DOWN)
            } by {
                assert(r[j].bi == v[j].bi && r[j].klu == v[j].klu && r[j].is_buy == v[j].is_buy);
            }
            assert forall|j: int| 0 <= j < kept.len() implies {
                &&& (#[trigger] r[j]).bi == kept[j].bi
                &&& r[j].klu == kept[j].klu
                &&& r[j].is_buy == kept[j].is_buy
                &&& r[j].types.len() >= kept[j].types.len() >= 1
                &&& r[j].types[0] == kept[j].types[0]
            } by {
                assert(v[j].types.len() >= 1);
                if j == k {
                    assert(r[j].types == v[j].types.push(t));
                }
            }
        },
        None => {
            assert forall|j: int| kept.len() <= j < r.len() implies {
                let p = #[trigger] r[j];
                &&& p.bi < lines.len()
                &&& p.klu == lines[p.bi as int].end_klu
                &&& p.is_buy == (lines[p.bi as int].dir == BI_DIR::DOWN)
            } by {
                if j < v.len() {
                    assert(r[j] == v[j]);
                }
            }
            assert forall|j: int| 0 <= j < kept.len() implies #[trigger] r[j] == v[j] by {}
        },
    }
}

proof fn lemma_find_klu_some(v: Seq<BspView>, klu: int, k: int)
    requires
        spec_find_klu_from(v, klu, k) is Some,
        k >= 0,
    ensures
        ({
            let j = spec_find_klu_from(v, klu, k)->0;
            k <= j < v.len() && v[j].klu == klu
        }),
    decreases v.len() - k,
{
    if k < v.len() && v[k].klu != klu {
        lemma_find_klu_some(v, klu, k + 1);
    }
}

/// Points added after the ones there were leave those on their lines with
/// their first kinds.
pub open spec fn grows_from(old: Seq<BspView>, new: Seq<BspView>) -> bool {
    &&& old.len() <= new.len()
    &&& forall|k: int| 0 <= k < old.len() ==> (#[trigger] new[k]).bi == old[k].bi && new[k].types.len() >= 1
        && new[k].types[0] == old[k].types[0]
}

proof fn lemma_add_bs_grows(
    v: Seq<BspView>,
    w: Seq<BspView>,
    t: BSP_TYPE,
    l: CLine,
    relate: Option<usize>,
    target: bool,
)
    requires
        forall|k: int| 0 <= k < v.len() ==> (#[trigger] v[k]).types.len() >= 1,
    ensures
        grows_from(v, spec_add_bs(v, w, t, l, relate, target).0),
        spec_add_bs(v, w, t, l, relate, target).0.len() <= v.len() + 1,
        spec_add_bs(v, w, t, l, relate, target).0.len() == v.len() + 1 ==> ({
            let q = spec_add_bs(v, w, t, l, relate, target).0.last();
            q.bi == l.idx && q.types == seq![t] && target
        }),
{
    let r = spec_add_bs(v, w, t, l, relate, target).0;
    match spec_find_klu_from(v, l.end_klu as int, 0) {
        Some(k) => {
            lemma_find_klu_some(v, l.end_klu as int, 0);
            assert forall|j: int| 0 <= j < v.len() implies (#[trigger] r[j]).bi == v[j].bi && r[j].types.len() >= 1
                && r[j].types[0] == v[j].types[0] by {
                if j == k {
                    assert(r[j].types == v[j].types.push(t));
                }
            }
        },
        None => {
            assert forall|j: int| 0 <= j < v.len() implies (#[trigger] r[j]).bi == v[j].bi && r[j].types.len() >= 1
                && r[j].types[0] == v[j].types[0] by {
                assert(r[j] == v[j]);
            }
        },
    }
}

proof fn lemma_grows_trans(a: Seq<BspView>, b: Seq<BspView>, c: Seq<BspView>)
    requires
        grows_from(a, b),
        grows_from(b, c),
    ensures
        grows_from(a, c),
{
    assert forall|k: int| 0 <= k < a.len() implies (#[trigger] c[k]).bi == a[k].bi && c[k].types.len() >= 1
        && c[k].types[0] == a[k].types[0] by {
        assert(b[k].bi == a[k].bi);
    }
}

/// A similar-second-class point after the second-class point on line `bsp2`,
/// coming back from line `brk`: an even number of lines later, overlapping
/// `bsp2`, not beyond `brk`, and retracing no more than `rate` of it.
pub open spec fn bsp2s_ok(p: BspView, lines: Seq<CLine>, bsp2: int, brk: int, rate: int) -> bool {
    let l = lines[p.bi as int];
    let b = lines[brk];
    let d = if l.end_val >= b.end_val { l.end_val - b.end_val } else { b.end_val - l.end_val };
    &&& p.types.len() >= 1 && p.types[0] == BSP_TYPE::T2S
    &&& bsp2 < p.bi < lines.len()
    &&& (p.bi - bsp2) % 2 == 0
    &&& spec_has_overlap(lines[bsp2].low as int, lines[bsp2].high as int, l.low as int, l.high as int, false)
    &&& !spec_break_bsp1(l, b)
    &&& !spec_beyond_rate(d, spec_amp(b), rate)
}

/// A second-class point on line `bsp2`, coming back from line `brk`: it
/// retraces no more than `rate` of it.
pub open spec fn bsp2_ok(p: BspView, lines: Seq<CLine>, bsp2: int, brk: int, rate: int) -> bool {
    &&& p.types.len() >= 1 && p.types[0] == BSP_TYPE::T2
    &&& p.bi == bsp2
    &&& spec_within_rate(spec_amp(lines[bsp2]), spec_amp(lines[brk]), rate)
}

/// `div` tells what `diverge` answers: whatever it returns on some
/// arguments is `div` of them.
pub open spec fn answers<F: Fn(usize, usize, bool, bool) -> bool>(
    diverge: &F,
    div: spec_fn(usize, usize, bool, bool) -> bool,
) -> bool {
    forall|a: usize, b: usize, c: bool, d: bool, r: bool|
        #[trigger] diverge.ensures((a, b, c, d), r) ==> r == div(a, b, c, d)
}

/// Whether no line of pivot `z` up to line `e` goes beyond the line out of
/// it, which it must have.
pub open spec fn spec_out_is_peak(z: CZS, e: int, lines: Seq<CLine>) -> bool {
    &&& z.bi_out is Some
    &&& forall|k: int| 0 <= k < spec_peak_prefix(z.bi_lst@, e, z.bi_lst@.len() as int)
        ==> !#[trigger] goes_beyond(lines[z.bi_lst@[k] as int], lines[z.bi_out->0 as int])
}

/// The first-class point at the end of segment `seg`, leaving its last
/// pivot `z`: a target when asked, unless the pivot is not left at its
/// peak where that is asked for, or the end does not break out of the
/// pivot, or `div` (asked with the line into the pivot and the end) sees no
/// divergence.
pub open spec fn spec_bsp1(
    s: (Seq<BspView>, Seq<BspView>),
    seg: CSeg,
    z: CZS,
    is_buy: bool,
    is_target: bool,
    lines: Seq<CLine>,
    conf: CBSPointConfig,
    div: spec_fn(usize, usize, bool, bool) -> bool,
) -> (Seq<BspView>, Seq<BspView>) {
    let n = lines.len();
    let e = seg.end_bi;
    if e >= n || !spec_zs_in(z, n as int) || z.bi_lst@.len() == 0 || z.bi_in is None {
        s
    } else {
        let c = conf.side(is_buy);
        let l = lines[e as int];
        let brk = (l.dir == BI_DIR::DOWN && l.low < z.low) || (l.dir == BI_DIR::UP && l.high > z.high);
        let diver = brk && div(z.bi_in->0, e, is_buy, false);
        let target = is_target && !(c.bs1_peak && !spec_out_is_peak(z, e as int, lines)) && diver;
        spec_put(s, conf, BSP_TYPE::T1, l, None, target)
    }
}

/// The first-class point at the end of segment `seg` found against the
/// line two before it (counted round from the last line when there is
/// none), when no pivot serves: both lines in the same segment, the end
/// running the segment's way and not falling short of the other; a target
/// when asked, unless `div` (asked with the two lines) sees no divergence.
pub open spec fn spec_pz_bsp1(
    s: (Seq<BspView>, Seq<BspView>),
    seg: CSeg,
    is_buy: bool,
    is_target: bool,
    lines: Seq<CLine>,
    conf: CBSPointConfig,
    div: spec_fn(usize, usize, bool, bool) -> bool,
) -> (Seq<BspView>, Seq<BspView>) {
    let n = lines.len();
    let e = seg.end_bi;
    if e >= n || (e < 2 && n < 2 - e) {
        s
    } else {
        let pre: int = if e >= 2 { e - 2 } else { n - (2 - e) };
        let last = lines[e as int];
        let prev = lines[pre];
        if last.seg_idx != prev.seg_idx || last.dir != seg.dir {
            s
        } else if last.dir == BI_DIR::DOWN && last.low > prev.low {
            s
        } else if last.dir == BI_DIR::UP && last.high < prev.high {
            s
        } else {
            spec_put(s, conf, BSP_TYPE::T1P, last, None, is_target && div(pre as usize, e, is_buy, true))
        }
    }
}

/// A segment's last pivot serves for its first-class point: it spans more
/// than one line, reaches the segment's end, and the line into it comes
/// more than two lines before the end.
pub open spec fn spec_bs1_regular(seg: CSeg, zs: Seq<CZS>) -> bool {
    let m = seg.zs_lst@.len();
    let e = seg.end_bi;
    if m == 0 || seg.zs_lst@[m - 1] >= zs.len() {
        false
    } else {
        let z = zs[seg.zs_lst@[m - 1] as int];
        let k = z.bi_lst@.len();
        let out_ok = match z.bi_out {
            Some(o) => o >= e,
            None => false,
        };
        let lst_ok = k > 0 && z.bi_lst@[k - 1] >= e;
        let in_ok = match z.bi_in {
            Some(b) => e > b + 2,
            None => false,
        };
        !spec_one_bi(z) && (out_ok || lst_ok) && in_ok
    }
}

/// The first-class point of one segment: a target when the segment has
/// enough pivots (of more than one line, where only those count).
pub open spec fn spec_single_bs1(
    s: (Seq<BspView>, Seq<BspView>),
    seg: CSeg,
    lines: Seq<CLine>,
    zs: Seq<CZS>,
    conf: CBSPointConfig,
    div: spec_fn(usize, usize, bool, bool) -> bool,
) -> (Seq<BspView>, Seq<BspView>) {
    let is_buy = seg.dir == BI_DIR::DOWN;
    let c = conf.side(is_buy);
    let m = seg.zs_lst@.len();
    let zs_cnt: int = if c.bsp1_only_multibi_zs { spec_multi_cnt(seg.zs_lst@, zs, m as int) as int } else { m as int };
    let is_target = c.min_zs_cnt == 0 || zs_cnt >= c.min_zs_cnt;
    if spec_bs1_regular(seg, zs) {
        spec_bsp1(s, seg, zs[seg.zs_lst@[m - 1] as int], is_buy, is_target, lines, conf, div)
    } else {
        spec_pz_bsp1(s, seg, is_buy, is_target, lines, conf, div)
    }
}

/// The first-class points of the first `k` segments still to be looked
/// at, in order.
pub open spec fn spec_bs1_pass(
    s: (Seq<BspView>, Seq<BspView>),
    segs: Seq<CSeg>,
    lines: Seq<CLine>,
    zs: Seq<CZS>,
    conf: CBSPointConfig,
    pos: Option<usize>,
    div: spec_fn(usize, usize, bool, bool) -> bool,
    k: int,
) -> (Seq<BspView>, Seq<BspView>)
    decreases k,
{
    if k <= 0 {
        s
    } else {
        let prev = spec_bs1_pass(s, segs, lines, zs, conf, pos, div, k - 1);
        if spec_need_cal(segs[k - 1], lines, pos) {
            spec_single_bs1(prev, segs[k - 1], lines, zs, conf, div)
        } else {
            prev
        }
    }
}

impl CBSPointList {
    /// Adds a point at the end of line `i` within a pass.
    fn add_on(&mut self, t: BSP_TYPE, lines: &Vec<CLine>, i: usize, relate: Option<usize>, is_target: bool, Ghost(kept): Ghost<Seq<BspView>>)
        requires
            pass_ok(old(self), kept, lines@),
            i < lines@.len(),
            lines@[i as int].idx == i,
        ensures
            pass_ok(final(self), kept, lines@),
            final(self).config == old(self).config,
            final(self).last_sure_pos == old(self).last_sure_pos,
            (views(final(self).lst@), views(final(self).bsp1_lst@)) == spec_add_bs(
                views(old(self).lst@),
                views(old(self).bsp1_lst@),
                t,
                lines@[i as int],
                relate,
                is_target && old(self).config.side(lines@[i as int].dir == BI_DIR::DOWN).target_types@.contains(t),
            ),
    {
        proof {
            lemma_add_bs_pass(
                views(self.lst@),
                views(self.bsp1_lst@),
                t,
                lines@[i as int],
                relate,
                is_target && self.config.side(lines@[i as int].dir == BI_DIR::DOWN).target_types@.contains(t),
                kept,
                lines@,
            );
        }
        self.add_bs(t, &lines[i], relate, is_target);
    }

    /// A first-class point at the end of a segment whose last pivot it
    /// leaves: a target unless the segment has too few pivots, the pivot
    /// is not left at its peak where that is asked for, or `diverge` (asked
    /// with the line into the pivot and the segment's last line) sees no
    /// divergence; none is looked at when the end does not break out of the
    /// pivot.
    fn treat_bsp1<F: Fn(usize, usize, bool, bool) -> bool>(
        &mut self,
        seg: &CSeg,
        z: &CZS,
        is_buy: bool,
        is_target: bool,
        lines: &Vec<CLine>,
        diverge: &F,
        Ghost(kept): Ghost<Seq<BspView>>,
    )
        requires
            pass_ok(old(self), kept, lines@),
            crate::line::lines_wf(lines@),
            forall|a: usize, b: usize, c: bool, d: bool| diverge.requires((a, b, c, d)),
        ensures
            pass_ok(final(self), kept, lines@),
            final(self).config == old(self).config,
            final(self).last_sure_pos == old(self).last_sure_pos,
            grows_from(views(old(self).lst@), views(final(self).lst@)),
            forall|k: int| old(self).lst@.len() <= k < final(self).lst@.len() ==> {
                let p = #[trigger] views(final(self).lst@)[k];
                let l = lines@[seg.end_bi as int];
                &&& p.bi == seg.end_bi && p.types[0] == BSP_TYPE::T1 && is_target
                &&& (l.dir == BI_DIR::DOWN && l.low < z.low) || (l.dir == BI_DIR::UP && l.high > z.high)
            },
            forall|div: spec_fn(usize, usize, bool, bool) -> bool| answers(diverge, div) ==> spec_state(*final(self))
                == spec_bsp1(spec_state(*old(self)), *seg, *z, is_buy, is_target, lines@, old(self).config, div),
    {
        let ghost s0 = spec_state(*self);
        let ghost v0 = views(self.lst@);
        proof {
            assert(grows_from(v0, v0));
        }
        let n = lines.len();
        let e = seg.end_bi;
        if e >= n || !zs_in(z, n) || z.bi_lst.len() == 0 || z.bi_in.is_none() {
            return;
        }
        let mut target = is_target;
        let conf = self.config.get_bs_config(is_buy);
        let (break_peak, _) = z.out_bi_is_peak(e, lines);
        if conf.bs1_peak && !break_peak {
            target = false;
        }
        let brk = z.end_bi_break(Some(lines[e]), lines);
        let is_diver = if !brk {
            false
        } else {
            diverge(z.bi_in.unwrap(), e, is_buy, false)
        };
        if !is_diver {
            target = false;
        }
        proof {
            assert forall|k: int| 0 <= k < v0.len() implies (#[trigger] v0[k]).types.len() >= 1 by {
                assert(self.wf());
            }
            lemma_add_bs_grows(
                v0,
                views(self.bsp1_lst@),
                BSP_TYPE::T1,
                lines@[e as int],
                None,
                target && self.config.side(lines@[e as int].dir == BI_DIR::DOWN).target_types@.contains(BSP_TYPE::T1),
            );
        }
        self.add_on(BSP_TYPE::T1, lines, e, None, target, Ghost(kept));
        proof {
            let v1 = views(self.lst@);
            if v1.len() > v0.len() {
                assert(v1[v0.len() as int].bi == e && v1[v0.len() as int].types == seq![BSP_TYPE::T1]);
            }
            assert forall|div: spec_fn(usize, usize, bool, bool) -> bool| answers(diverge, div) implies spec_state(*self)
                == spec_bsp1(s0, *seg, *z, is_buy, is_target, lines@, self.config, div) by {
                if brk {
                    assert(diverge.ensures((z.bi_in->0, e, is_buy, false), is_diver));
                    assert(is_diver == div(z.bi_in->0, e, is_buy, false));
                }
            }
        }
    }

    /// A first-class point found against the line two before the segment's
    /// end, when no pivot serves: both in the same segment, the end running
    /// the segment's way and going beyond it; a target unless `diverge`
    /// (asked with those two lines) sees no divergence.
    fn treat_pz_bsp1<F: Fn(usize, usize, bool, bool) -> bool>(
        &mut self,
        seg: &CSeg,
        is_buy: bool,
        is_target: bool,
        lines: &Vec<CLine>,
        diverge: &F,
        Ghost(kept): Ghost<Seq<BspView>>,
    )
        requires
            pass_ok(old(self), kept, lines@),
            crate::line::lines_wf(lines@),
            forall|a: usize, b: usize, c: bool, d: bool| diverge.requires((a, b, c, d)),
        ensures
            pass_ok(final(self), kept, lines@),
            final(self).config == old(self).config,
            final(self).last_sure_pos == old(self).last_sure_pos,
            grows_from(views(old(self).lst@), views(final(self).lst@)),
            forall|k: int| old(self).lst@.len() <= k < final(self).lst@.len() ==> {
                let p = #[trigger] views(final(self).lst@)[k];
                let l = lines@[seg.end_bi as int];
                &&& p.bi == seg.end_bi && p.types[0] == BSP_TYPE::T1P && is_target
                &&& l.dir == seg.dir
                &&& exists|q: int| 0 <= q < lines@.len() && lines@[q].seg_idx == l.seg_idx && (l.dir == BI_DIR::DOWN ==> l.low
                    <= lines@[q].low) && (l.dir == BI_DIR::UP ==> l.high >= lines@[q].high)
            },
            forall|div: spec_fn(usize, usize, bool, bool) -> bool| answers(diverge, div) ==> spec_state(*final(self))
                == spec_pz_bsp1(spec_state(*old(self)), *seg, is_buy, is_target, lines@, old(self).config, div),
    {
        let ghost s0 = spec_state(*self);
        let ghost v0 = views(self.lst@);
        proof {
            assert(grows_from(v0, v0));
        }
        let n = lines.len();
        let e = seg.end_bi;
        if e >= n {
            return;
        }
        let pre = if e >= 2 {
            e - 2
        } else if n >= 2 - e {
            n - (2 - e)
        } else {
            return;
        };
        let last = lines[e];
        let prev = lines[pre];
        if last.seg_idx != prev.seg_idx || last.dir != seg.dir {
            return;
        }
        if last.is_down() && last.low > prev.low {
            return;
        }
        if last.is_up() && last.high < prev.high {
            return;
        }
        let mut target = is_target;
        let d = diverge(pre, e, is_buy, true);
        if !d {
            target = false;
        }
        proof {
            assert forall|k: int| 0 <= k < v0.len() implies (#[trigger] v0[k]).types.len() >= 1 by {
                assert(self.wf());
            }
            lemma_add_bs_grows(
                v0,
                views(self.bsp1_lst@),
                BSP_TYPE::T1P,
                lines@[e as int],
                None,
                target && self.config.side(lines@[e as int].dir == BI_DIR::DOWN).target_types@.contains(BSP_TYPE::T1P),
            );
        }
        self.add_on(BSP_TYPE::T1P, lines, e, None, target, Ghost(kept));
        proof {
            assert forall|div: spec_fn(usize, usize, bool, bool) -> bool| answers(diverge, div) implies spec_state(*self)
                == spec_pz_bsp1(s0, *seg, is_buy, is_target, lines@, self.config, div) by {
                assert(diverge.ensures((pre, e, is_buy, true), d));
                assert(d == div(pre, e, is_buy, true));
            }
            let v1 = views(self.lst@);
            if v1.len() > v0.len() {
                assert(v1[v0.len() as int].bi == e && v1[v0.len() as int].types == seq![BSP_TYPE::T1P]);
                assert(lines@[pre as int].seg_idx == last.seg_idx);
            }
        }
    }

    /// The first-class point of one segment.
    fn cal_single_bs1point_pass<F: Fn(usize, usize, bool, bool) -> bool>(
        &mut self,
        seg: &CSeg,
        lines: &Vec<CLine>,
        zs: &Vec<CZS>,
        diverge: &F,
        Ghost(kept): Ghost<Seq<BspView>>,
    )
        requires
            pass_ok(old(self), kept, lines@),
            crate::line::lines_wf(lines@),
            forall|a: usize, b: usize, c: bool, d: bool| diverge.requires((a, b, c, d)),
        ensures
            pass_ok(final(self), kept, lines@),
            final(self).config == old(self).config,
            final(self).last_sure_pos == old(self).last_sure_pos,
            forall|div: spec_fn(usize, usize, bool, bool) -> bool| answers(diverge, div) ==> spec_state(*final(self))
                == spec_single_bs1(spec_state(*old(self)), *seg, lines@, zs@, old(self).config, div),
    {
        let is_buy = seg.is_down();
        let conf = self.config.get_bs_config(is_buy);
        let zs_cnt = if conf.bsp1_only_multibi_zs { multi_cnt(seg, zs) } else { seg.zs_lst.len() };
        let is_target = conf.min_zs_cnt == 0 || zs_cnt >= conf.min_zs_cnt;
        let m = seg.zs_lst.len();
        let e = seg.end_bi;
        let mut regular = false;
        if m > 0 && seg.zs_lst[m - 1] < zs.len() {
            let z = &zs[seg.zs_lst[m - 1]];
            if !z.is_one_bi_zs() {
                let out_ok = match z.bi_out {
                    Some(o) => o >= e,
                    None => false,
                };
                let k = z.bi_lst.len();
                let lst_ok = k > 0 && z.bi_lst[k - 1] >= e;
                let in_ok = match z.bi_in {
                    Some(b) => e as u128 > b as u128 + 2,
                    None => false,
                };
                regular = (out_ok || lst_ok) && in_ok;
            }
        }
        if regular {
            let z = &zs[seg.zs_lst[m - 1]];
            self.treat_bsp1(seg, z, is_buy, is_target, lines, diverge, Ghost(kept));
        } else {
            self.treat_pz_bsp1(seg, is_buy, is_target, lines, diverge, Ghost(kept));
        }
    }

    /// First-class points of the segments still to be looked at.
    fn cal_seg_bs1point_pass<F: Fn(usize, usize, bool, bool) -> bool>(
        &mut self,
        segs: &Vec<CSeg>,
        lines: &Vec<CLine>,
        zs: &Vec<CZS>,
        diverge: &F,
        Ghost(kept): Ghost<Seq<BspView>>,
    )
        requires
            pass_ok(old(self), kept, lines@),
            crate::line::lines_wf(lines@),
            forall|a: usize, b: usize, c: bool, d: bool| diverge.requires((a, b, c, d)),
        ensures
            pass_ok(final(self), kept, lines@),
            final(self).config == old(self).config,
            final(self).last_sure_pos == old(self).last_sure_pos,
            forall|div: spec_fn(usize, usize, bool, bool) -> bool| answers(diverge, div) ==> spec_state(*final(self))
                == spec_bs1_pass(
                spec_state(*old(self)),
                segs@,
                lines@,
                zs@,
                old(self).config,
                old(self).last_sure_pos,
                div,
                segs@.len() as int,
            ),
    {
        let ghost s0 = spec_state(*self);
        let mut i: usize = 0;
        while i < segs.len()
            invariant
                i <= segs@.len(),
                pass_ok(self, kept, lines@),
                crate::line::lines_wf(lines@),
                forall|a: usize, b: usize, c: bool, d: bool| diverge.requires((a, b, c, d)),
                self.config == old(self).config,
                self.last_sure_pos == old(self).last_sure_pos,
                forall|div: spec_fn(usize, usize, bool, bool) -> bool| answers(diverge, div) ==> spec_state(*self)
                    == spec_bs1_pass(s0, segs@, lines@, zs@, self.config, self.last_sure_pos, div, i as int),
            decreases segs@.len() - i,
        {
            let ghost before = spec_state(*self);
            if self.seg_need_cal(&segs[i], lines) {
                self.cal_single_bs1point_pass(&segs[i], lines, zs, diverge, Ghost(kept));
            }
            proof {
                assert forall|div: spec_fn(usize, usize, bool, bool) -> bool| answers(diverge, div) implies spec_state(*self)
                    == spec_bs1_pass(s0, segs@, lines@, zs@, self.config, self.last_sure_pos, div, i + 1) by {
                    assert(before == spec_bs1_pass(s0, segs@, lines@, zs@, self.config, self.last_sure_pos, div, i as int));
                }
            }
            i = i + 1;
        }
    }
}

/// The similar-second-class points from `bias` lines after line `bsp2` on,
/// every other line: each is added while the deepest level allows it, its
/// segment is that of `bsp2` (or, that one not sure, the next and last),
/// it overlaps `bsp2` (and the overlap of `bsp2` with the first of them),
/// it does not go beyond line `brk` and retraces no more than the rate.
pub open spec fn spec_bsp2s_from(
    s: (Seq<BspView>, Seq<BspView>),
    segs: Seq<CSeg>,
    lines: Seq<CLine>,
    conf: CBSPointConfig,
    bsp2: int,
    brk: int,
    relate: Option<usize>,
    is_buy: bool,
    bias: int,
    overlap: Option<(i64, i64)>,
) -> (Seq<BspView>, Seq<BspView>)
    decreases lines.len() + 2 - bias,
{
    let n = lines.len();
    let m = segs.len();
    let c = conf.side(is_buy);
    if bias < 2 || bsp2 < 0 || bsp2 + bias >= n {
        s
    } else {
        let l2 = lines[bsp2];
        let l2s = lines[bsp2 + bias];
        let lb = lines[brk];
        let lv_stop = match c.max_bsp2s_lv {
            Some(lv) => bias > 2 * lv,
            None => false,
        };
        if lv_stop {
            s
        } else {
            match (l2s.seg_idx, l2.seg_idx) {
                (Some(s2s), Some(s2)) => {
                    let seg_stop = s2s != s2 && (s2s + 1 < m || s2s >= s2 + 2 || (s2 < m && segs[s2 as int].is_sure));
                    let ov_ok = if bias == 2 {
                        spec_has_overlap(l2.low as int, l2.high as int, l2s.low as int, l2s.high as int, false)
                    } else {
                        match overlap {
                            Some((lo, hi)) => spec_has_overlap(lo as int, hi as int, l2s.low as int, l2s.high as int, false),
                            None => true,
                        }
                    };
                    let ov2: Option<(i64, i64)> = if bias == 2 {
                        Some((
                            if l2.low > l2s.low { l2.low } else { l2s.low },
                            if l2.high < l2s.high { l2.high } else { l2s.high },
                        ))
                    } else {
                        overlap
                    };
                    let d: int = if l2s.end_val >= lb.end_val { l2s.end_val - lb.end_val } else { lb.end_val - l2s.end_val };
                    if seg_stop || !ov_ok || spec_break_bsp1(l2s, lb) || spec_beyond_rate(d, spec_amp(lb), c.max_bs2_rate as int) {
                        s
                    } else {
                        spec_bsp2s_from(
                            spec_put(s, conf, BSP_TYPE::T2S, l2s, relate, true),
                            segs,
                            lines,
                            conf,
                            bsp2,
                            brk,
                            relate,
                            is_buy,
                            bias + 2,
                            ov2,
                        )
                    }
                },
                _ => s,
            }
        }
    }
}

/// The second-class points after segment `seg`, when it is still to be
/// looked at: with more than one segment, on the second line after its
/// end, coming back from the first; with one, on the second line, coming
/// back from the first. It is added when it retraces no more than the rate
/// of the line it comes back from (and, where asked, a point stands on the
/// first-class line); similar ones follow, unless asked to follow only an
/// added second-class point.
pub open spec fn spec_bsp2(
    s: (Seq<BspView>, Seq<BspView>),
    seg: CSeg,
    segs: Seq<CSeg>,
    lines: Seq<CLine>,
    conf: CBSPointConfig,
    pos: Option<usize>,
) -> (Seq<BspView>, Seq<BspView>) {
    let n = lines.len();
    let multi = segs.len() > 1;
    if !spec_need_cal(seg, lines, pos) {
        s
    } else if multi && (seg.end_bi >= n || n - seg.end_bi <= 2) {
        s
    } else if !multi && n < 2 {
        s
    } else {
        let is_buy = if multi { seg.dir == BI_DIR::DOWN } else { seg.dir == BI_DIR::UP };
        let relate: Option<usize> = if multi { spec_relate(s.1, seg.end_bi as int) } else { None };
        let brk: int = if multi { seg.end_bi + 1 } else { 0 };
        let bsp2: int = if multi { seg.end_bi + 2 } else { 1 };
        let c = conf.side(is_buy);
        let follows = multi && spec_has_bi(s.0, seg.end_bi as int);
        if c.bsp2_follow_1 && !follows {
            s
        } else {
            let flag = spec_within_rate(spec_amp(lines[bsp2]), spec_amp(lines[brk]), c.max_bs2_rate as int);
            let s1 = if flag { spec_put(s, conf, BSP_TYPE::T2, lines[bsp2], relate, true) } else { s };
            if !flag && c.bsp2s_follow_2 {
                s1
            } else if !conf.side(seg.dir == BI_DIR::DOWN).target_types@.contains(BSP_TYPE::T2S) {
                s1
            } else {
                spec_bsp2s_from(s1, segs, lines, conf, bsp2, brk, relate, is_buy, 2, None)
            }
        }
    }
}

/// The second-class points of the first `k` segments whose side looks for
/// them, in order.
pub open spec fn spec_bs2_pass(
    s: (Seq<BspView>, Seq<BspView>),
    segs: Seq<CSeg>,
    lines: Seq<CLine>,
    conf: CBSPointConfig,
    pos: Option<usize>,
    k: int,
) -> (Seq<BspView>, Seq<BspView>)
    decreases k,
{
    if k <= 0 {
        s
    } else {
        let prev = spec_bs2_pass(s, segs, lines, conf, pos, k - 1);
        let side = conf.side(segs[k - 1].dir == BI_DIR::DOWN);
        if side.target_types@.contains(BSP_TYPE::T2) || side.target_types@.contains(BSP_TYPE::T2S) {
            spec_bsp2(prev, segs[k - 1], segs, lines, conf, pos)
        } else {
            prev
        }
    }
}

impl CBSPointList {
    /// Similar-second-class points after a second-class one: every other
    /// line after it, while they stay in its segment (or the last ones),
    /// keep overlapping it, do not go beyond the line it came back from and
    /// retrace no more than the rate allows, up to the deepest level.
    fn treat_bsp2s(
        &mut self,
        segs: &Vec<CSeg>,
        lines: &Vec<CLine>,
        bsp2: usize,
        brk: usize,
        relate: Option<usize>,
        is_buy: bool,
        Ghost(kept): Ghost<Seq<BspView>>,
    )
        requires
            pass_ok(old(self), kept, lines@),
            crate::line::lines_wf(lines@),
            bsp2 < lines@.len(),
            brk < lines@.len(),
        ensures
            pass_ok(final(self), kept, lines@),
            final(self).config == old(self).config,
            final(self).last_sure_pos == old(self).last_sure_pos,
            grows_from(views(old(self).lst@), views(final(self).lst@)),
            forall|k: int| old(self).lst@.len() <= k < final(self).lst@.len() ==> #[trigger] bsp2s_ok(
                views(final(self).lst@)[k],
                lines@,
                bsp2 as int,
                brk as int,
                old(self).config.side(is_buy).max_bs2_rate as int,
            ),
            spec_state(*final(self)) == spec_bsp2s_from(
                spec_state(*old(self)),
                segs@,
                lines@,
                old(self).config,
                bsp2 as int,
                brk as int,
                relate,
                is_buy,
                2,
                None,
            ),
    {
        let ghost v0 = views(self.lst@);
        let ghost rate = self.config.side(is_buy).max_bs2_rate as int;
        let ghost target = spec_bsp2s_from(spec_state(*self), segs@, lines@, self.config, bsp2 as int, brk as int, relate, is_buy, 2, None);
        proof {
            assert(grows_from(v0, v0));
        }
        let n = lines.len();
        let m = segs.len();
        let mut bias: usize = 2;
        let mut overlap: Option<(i64, i64)> = None;
        let l2 = lines[bsp2];
        let lb = lines[brk];
        while bias < n - bsp2
            invariant_except_break
                target == spec_bsp2s_from(spec_state(*self), segs@, lines@, self.config, bsp2 as int, brk as int, relate, is_buy, bias as int, overlap),
            invariant
                pass_ok(self, kept, lines@),
                crate::line::lines_wf(lines@),
                n == lines@.len(),
                bsp2 < n,
                brk < n,
                l2 == lines@[bsp2 as int],
                lb == lines@[brk as int],
                m == segs@.len(),
                bias <= n + 1,
                bias >= 2,
                bias % 2 == 0,
                bias > 2 ==> (overlap matches Some((lo, hi)) && lo >= l2.low && hi <= l2.high),
                self.config == old(self).config,
                self.last_sure_pos == old(self).last_sure_pos,
                v0 == views(old(self).lst@),
                rate == self.config.side(is_buy).max_bs2_rate as int,
                grows_from(v0, views(self.lst@)),
                forall|k: int| v0.len() <= k < self.lst@.len() ==> #[trigger] bsp2s_ok(
                    views(self.lst@)[k],
                    lines@,
                    bsp2 as int,
                    brk as int,
                    rate,
                ),
            ensures
                pass_ok(self, kept, lines@),
                self.config == old(self).config,
                self.last_sure_pos == old(self).last_sure_pos,
                grows_from(v0, views(self.lst@)),
                forall|k: int| v0.len() <= k < self.lst@.len() ==> #[trigger] bsp2s_ok(
                    views(self.lst@)[k],
                    lines@,
                    bsp2 as int,
                    brk as int,
                    rate,
                ),
                spec_state(*self) == target,
            decreases n + 2 - bias,
        {
            let j = bsp2 + bias;
            let l2s = lines[j];
            let conf = self.config.get_bs_config(is_buy);
            match conf.max_bsp2s_lv {
                Some(lv) => if bias as u128 > 2 * lv as u128 {
                    break;
                },
                None => {},
            }
            let (s2s, s2) = match (l2s.seg_idx, l2.seg_idx) {
                (Some(a), Some(b)) => (a, b),
                _ => {
                    break;
                },
            };
            if s2s != s2 {
                let s2_sure = s2 < m && segs[s2].is_sure;
                if (s2s as u128) + 1 < m as u128 || s2s as u128 >= s2 as u128 + 2 || s2_sure {
                    break;
                }
            }
            if bias == 2 {
                if !has_overlap(l2.low, l2.high, l2s.low, l2s.high, false) {
                    break;
                }
                let lo = if l2.low > l2s.low { l2.low } else { l2s.low };
                let hi = if l2.high < l2s.high { l2.high } else { l2s.high };
                overlap = Some((lo, hi));
            } else {
                match overlap {
                    Some((lo, hi)) => if !has_overlap(lo, hi, l2s.low, l2s.high, false) {
                        break;
                    },
                    None => {},
                }
            }
            if bsp2s_break_bsp1(&l2s, &lb) {
                break;
            }
            let d = l2s.end_val as i128 - lb.end_val as i128;
            let num = if d >= 0 { d } else { -d };
            if beyond_rate(num, amp(&lb), conf.max_bs2_rate) {
                break;
            }
            let ghost v1 = views(self.lst@);
            proof {
                assert forall|k: int| 0 <= k < v1.len() implies (#[trigger] v1[k]).types.len() >= 1 by {
                    assert(self.wf());
                }
                lemma_add_bs_grows(
                    v1,
                    views(self.bsp1_lst@),
                    BSP_TYPE::T2S,
                    lines@[j as int],
                    relate,
                    self.config.side(lines@[j as int].dir == BI_DIR::DOWN).target_types@.contains(BSP_TYPE::T2S),
                );
                assert(spec_has_overlap(l2.low as int, l2.high as int, l2s.low as int, l2s.high as int, false));
            }
            self.add_on(BSP_TYPE::T2S, lines, j, relate, true, Ghost(kept));
            proof {
                let v2 = views(self.lst@);
                lemma_grows_trans(v0, v1, v2);
                assert forall|k: int| v0.len() <= k < v2.len() implies #[trigger] bsp2s_ok(v2[k], lines@, bsp2 as int, brk as int, rate) by {
                    if k < v1.len() {
                        assert(bsp2s_ok(v1[k], lines@, bsp2 as int, brk as int, rate));
                        assert(v2[k].bi == v1[k].bi && v2[k].types[0] == v1[k].types[0]);
                    } else {
                        assert(v2[k].bi == j && v2[k].types == seq![BSP_TYPE::T2S]);
                    }
                }
            }
            if bias > usize::MAX - 2 {
                proof {
                    let st = spec_state(*self);
                    assert(spec_bsp2s_from(st, segs@, lines@, self.config, bsp2 as int, brk as int, relate, is_buy, bias + 2, overlap) == st);
                }
                break;
            }
            bias = bias + 2;
        }
    }

    /// The second-class point after a segment: two lines after its end (or
    /// the second line, with one segment only), when the line between
    /// retraces no more than the rate allows; then similar ones.
    fn treat_bsp2(
        &mut self,
        seg: &CSeg,
        segs: &Vec<CSeg>,
        lines: &Vec<CLine>,
        Ghost(kept): Ghost<Seq<BspView>>,
    )
        requires
            pass_ok(old(self), kept, lines@),
            crate::line::lines_wf(lines@),
        ensures
            pass_ok(final(self), kept, lines@),
            final(self).config == old(self).config,
            final(self).last_sure_pos == old(self).last_sure_pos,
            grows_from(views(old(self).lst@), views(final(self).lst@)),
            ({
                let multi = segs@.len() > 1;
                let is_buy = if multi { seg.dir == BI_DIR::DOWN } else { seg.dir == BI_DIR::UP };
                let bsp2: int = if multi { seg.end_bi + 2 } else { 1 };
                let brk: int = if multi { seg.end_bi + 1 } else { 0 };
                let rate = old(self).config.side(is_buy).max_bs2_rate as int;
                forall|k: int| old(self).lst@.len() <= k < final(self).lst@.len() ==> bsp2_ok(
                    #[trigger] views(final(self).lst@)[k],
                    lines@,
                    bsp2,
                    brk,
                    rate,
                ) || bsp2s_ok(views(final(self).lst@)[k], lines@, bsp2, brk, rate)
            }),
            spec_state(*final(self)) == spec_bsp2(
                spec_state(*old(self)),
                *seg,
                segs@,
                lines@,
                old(self).config,
                old(self).last_sure_pos,
            ),
    {
        let ghost v0 = views(self.lst@);
        proof {
            assert(grows_from(v0, v0));
        }
        if !self.seg_need_cal(seg, lines) {
            return;
        }
        let n = lines.len();
        let (is_buy, bsp1_bi, relate, brk, bsp2) = if segs.len() > 1 {
            let b1 = seg.end_bi;
            if b1 >= n || n - b1 <= 2 {
                return;
            }
            (seg.is_down(), Some(b1), self.real_bsp1(b1), b1 + 1, b1 + 2)
        } else {
            if n < 2 {
                return;
            }
            (seg.is_up(), None, None, 0, 1)
        };
        let conf = self.config.get_bs_config(is_buy);
        if conf.bsp2_follow_1 {
            let follows = match bsp1_bi {
                Some(b) => self.has_bsp_on(b),
                None => false,
            };
            if !follows {
                return;
            }
        }
        let flag = within_rate(amp(&lines[bsp2]), amp(&lines[brk]), conf.max_bs2_rate);
        let follow_2 = conf.bsp2s_follow_2;
        let ghost rate = self.config.side(is_buy).max_bs2_rate as int;
        if flag {
            proof {
                assert forall|k: int| 0 <= k < v0.len() implies (#[trigger] v0[k]).types.len() >= 1 by {
                    assert(self.wf());
                }
                lemma_add_bs_grows(
                    v0,
                    views(self.bsp1_lst@),
                    BSP_TYPE::T2,
                    lines@[bsp2 as int],
                    relate,
                    self.config.side(lines@[bsp2 as int].dir == BI_DIR::DOWN).target_types@.contains(BSP_TYPE::T2),
                );
            }
            self.add_on(BSP_TYPE::T2, lines, bsp2, relate, true, Ghost(kept));
            proof {
                let v1 = views(self.lst@);
                assert forall|k: int| v0.len() <= k < v1.len() implies #[trigger] bsp2_ok(v1[k], lines@, bsp2 as int, brk as int, rate) by {
                    assert(v1[k].bi == bsp2 && v1[k].types == seq![BSP_TYPE::T2]);
                }
            }
        } else if follow_2 {
            return;
        }
        let ghost v1 = views(self.lst@);
        if !self.config.get_bs_config(seg.is_down()).is_target(BSP_TYPE::T2S) {
            return;
        }
        self.treat_bsp2s(segs, lines, bsp2, brk, relate, is_buy, Ghost(kept));
        proof {
            let v2 = views(self.lst@);
            lemma_grows_trans(v0, v1, v2);
            assert forall|k: int| v0.len() <= k < v2.len() implies bsp2_ok(#[trigger] v2[k], lines@, bsp2 as int, brk as int, rate)
                || bsp2s_ok(v2[k], lines@, bsp2 as int, brk as int, rate) by {
                if k < v1.len() {
                    assert(bsp2_ok(v1[k], lines@, bsp2 as int, brk as int, rate));
                    assert(v2[k].bi == v1[k].bi && v2[k].types[0] == v1[k].types[0]);
                } else {
                    assert(bsp2s_ok(v2[k], lines@, bsp2 as int, brk as int, rate));
                }
            }
        }
    }

    /// Second-class points of all segments whose side looks for them.
    fn cal_seg_bs2point_pass(&mut self, segs: &Vec<CSeg>, lines: &Vec<CLine>, Ghost(kept): Ghost<Seq<BspView>>)
        requires
            pass_ok(old(self), kept, lines@),
            crate::line::lines_wf(lines@),
        ensures
            pass_ok(final(self), kept, lines@),
            final(self).config == old(self).config,
            final(self).last_sure_pos == old(self).last_sure_pos,
            spec_state(*final(self)) == spec_bs2_pass(
                spec_state(*old(self)),
                segs@,
                lines@,
                old(self).config,
                old(self).last_sure_pos,
                segs@.len() as int,
            ),
    {
        let ghost s0 = spec_state(*self);
        let mut i: usize = 0;
        while i < segs.len()
            invariant
                i <= segs@.len(),
                pass_ok(self, kept, lines@),
                crate::line::lines_wf(lines@),
                self.config == old(self).config,
                self.last_sure_pos == old(self).last_sure_pos,
                spec_state(*self) == spec_bs2_pass(s0, segs@, lines@, self.config, self.last_sure_pos, i as int),
            decreases segs@.len() - i,
        {
            let conf = self.config.get_bs_config(segs[i].is_down());
            if conf.is_target(BSP_TYPE::T2) || conf.is_target(BSP_TYPE::T2S) {
                self.treat_bsp2(&segs[i], segs, lines, Ghost(kept));
            }
            i = i + 1;
        }
    }
}

/// Where the lines that may give a third-class point before the next
/// segment's pivot stop: nowhere (`None`) without a next segment, or when
/// it has no pivot of more than one line and is the last; otherwise at the
/// line out of its first such pivot that has one, else at its last line but
/// one.
pub open spec fn spec_bsp3_end_from(segs: Seq<CSeg>, zs: Seq<CZS>, k: int, j: int) -> Option<int>
    decreases segs[k].zs_lst@.len() - j,
{
    let seg = segs[k];
    if j < 0 || j >= seg.zs_lst@.len() {
        Some(seg.end_bi - 1)
    } else if spec_is_multi(zs, seg.zs_lst@[j]) && zs[seg.zs_lst@[j] as int].bi_out is Some {
        Some(zs[seg.zs_lst@[j] as int].bi_out->0 as int)
    } else {
        spec_bsp3_end_from(segs, zs, k, j + 1)
    }
}

pub open spec fn spec_bsp3_end(segs: Seq<CSeg>, zs: Seq<CZS>, next: Option<usize>) -> Option<int> {
    match next {
        None => None,
        Some(k) => if spec_multi_cnt(segs[k as int].zs_lst@, zs, segs[k as int].zs_lst@.len() as int) == 0 && k + 1
            >= segs.len() {
            None
        } else {
            spec_bsp3_end_from(segs, zs, k as int, 0)
        },
    }
}

pub fn cal_bsp3_bi_end_idx(segs: &Vec<CSeg>, zs: &Vec<CZS>, next: Option<usize>) -> (r: Option<i128>)
    requires
        next matches Some(k) ==> k < segs@.len(),
    ensures
        r is None <==> spec_bsp3_end(segs@, zs@, next) is None,
        r matches Some(x) ==> spec_bsp3_end(segs@, zs@, next) == Some(x as int),
{
    match next {
        None => None,
        Some(k) => {
            let seg = &segs[k];
            if multi_cnt(seg, zs) == 0 && k >= segs.len() - 1 {
                return None;
            }
            let mut j: usize = 0;
            while j < seg.zs_lst.len()
                invariant
                    k < segs@.len(),
                    next == Some(k),
                    !(spec_multi_cnt(segs@[k as int].zs_lst@, zs@, segs@[k as int].zs_lst@.len() as int) == 0 && k + 1 >= segs@.len()),
                    seg == &segs@[k as int],
                    j <= seg.zs_lst@.len(),
                    spec_bsp3_end_from(segs@, zs@, k as int, j as int) == spec_bsp3_end_from(segs@, zs@, k as int, 0),
                decreases seg.zs_lst@.len() - j,
            {
                let id = seg.zs_lst[j];
                if is_multi(zs, id) {
                    match zs[id].bi_out {
                        Some(o) => {
                            assert(spec_bsp3_end_from(segs@, zs@, k as int, j as int) == Some(o as int));
                            return Some(o as i128);
                        },
                        None => {},
                    }
                }
                j = j + 1;
            }
            Some(seg.end_bi as i128 - 1)
        },
    }
}

/// The listed points and the first-class points, by their views.
pub open spec fn spec_state(l: CBSPointList) -> (Seq<BspView>, Seq<BspView>) {
    (views(l.lst@), views(l.bsp1_lst@))
}

/// Adds a point of kind `t` at the end of line `l`: a target when asked
/// and when the kind is a target of the line's side.
pub open spec fn spec_put(
    s: (Seq<BspView>, Seq<BspView>),
    conf: CBSPointConfig,
    t: BSP_TYPE,
    l: CLine,
    relate: Option<usize>,
    is_target: bool,
) -> (Seq<BspView>, Seq<BspView>) {
    spec_add_bs(s.0, s.1, t, l, relate, is_target && conf.side(l.dir == BI_DIR::DOWN).target_types@.contains(t))
}

/// Whether a segment is still to be looked at: it ends after the settled
/// bar, or its last line is unknown.
pub open spec fn spec_need_cal(seg: CSeg, lines: Seq<CLine>, pos: Option<usize>) -> bool {
    match pos {
        Some(p) => seg.end_bi >= lines.len() || lines[seg.end_bi as int].end_klu > p,
        None => true,
    }
}

/// A line's segment is not the expected one: it lies in another segment
/// of three lines or more, or in none while the expected one is not the
/// last.
pub open spec fn spec_bsp3_other_parent(segs: Seq<CSeg>, next: CSeg, b: int) -> bool {
    match spec_parent(segs, b) {
        None => next.idx + 1 != segs.len(),
        Some(p) => p != next.idx && segs[p as int].end_bi + 1 >= segs[p as int].start_bi + 3,
    }
}

/// The line of the third-class point after segment `ns`'s first pivot of
/// more than one line: the line after the one out of it, when the pivot
/// follows the first-class line where that is asked for, the line belongs
/// to that segment (or the segments around the last), runs against it,
/// does not come back into the pivot and, where asked, breaks its peak.
pub open spec fn spec_bsp3_after(
    segs: Seq<CSeg>,
    ns: int,
    is_buy: bool,
    lines: Seq<CLine>,
    zs: Seq<CZS>,
    conf: CBSPointConfig,
    bsp1_bi: Option<usize>,
    next_seg_idx: int,
) -> Option<usize> {
    let next = segs[ns];
    let c = conf.side(is_buy);
    match spec_first_multi_from(next.zs_lst@, zs, 0) {
        None => None,
        Some(fz) => {
            let z = zs[fz as int];
            let follows = match (z.bi_in, bsp1_bi) {
                (Some(bin), Some(b1)) => bin == b1 + 1,
                _ => false,
            };
            if c.strict_bsp3 && !follows {
                None
            } else {
                match z.bi_out {
                    None => None,
                    Some(o) => {
                        let b = o + 1;
                        let l = lines[b];
                        if b >= lines.len() {
                            None
                        } else if spec_bsp3_other_parent(segs, next, b) {
                            None
                        } else if l.dir == next.dir {
                            None
                        } else if l.seg_idx != Some(next_seg_idx as usize) && next_seg_idx + 2 < segs.len() {
                            None
                        } else if spec_back2zs(l, z) {
                            None
                        } else if c.bsp3_peak && !spec_break_zspeak(l, z) {
                            None
                        } else {
                            Some(b as usize)
                        }
                    },
                }
            }
        },
    }
}

/// The first line from `j` on, every other line, that may give a
/// third-class point before the next segment's pivot: it stops past `end`,
/// at a line of no segment or of a segment other than `next_seg_idx` and
/// the last ones, and takes the first line that does not come back into
/// pivot `z`.
pub open spec fn spec_bsp3_scan(
    lines: Seq<CLine>,
    z: CZS,
    end: Option<int>,
    next_seg_idx: int,
    m: int,
    j: int,
) -> Option<usize>
    decreases lines.len() - j,
{
    if j < 0 || j >= lines.len() {
        None
    } else if (match end {
        Some(e) => j > e,
        None => false,
    }) {
        None
    } else {
        match lines[j].seg_idx {
            None => None,
            Some(s) => if s != next_seg_idx && s + 1 < m {
                None
            } else if !spec_back2zs(lines[j], z) {
                Some(j as usize)
            } else if j + 2 >= lines.len() {
                None
            } else {
                spec_bsp3_scan(lines, z, end, next_seg_idx, m, j + 2)
            },
        }
    }
}

/// The line of the third-class point before the next segment's pivot: the
/// scan from two lines after the first-class line, against segment `i`'s
/// last pivot of more than one line, which must be left by the first-class
/// line where that is asked for.
pub open spec fn spec_bsp3_before(
    segs: Seq<CSeg>,
    i: int,
    next: Option<usize>,
    bsp1_bi: Option<usize>,
    is_buy: bool,
    lines: Seq<CLine>,
    zs: Seq<CZS>,
    conf: CBSPointConfig,
    next_seg_idx: int,
) -> Option<usize> {
    match spec_last_multi(segs[i].zs_lst@, zs, segs[i].zs_lst@.len() as int) {
        None => None,
        Some(cz) => {
            let z = zs[cz as int];
            match bsp1_bi {
                None => None,
                Some(b1) => if conf.side(is_buy).strict_bsp3 && z.bi_out != Some(b1) {
                    None
                } else {
                    spec_bsp3_scan(lines, z, spec_bsp3_end(segs, zs, next), next_seg_idx, segs.len() as int, b1 + 2)
                },
            }
        },
    }
}

/// The first-class point on line `b`, if there is one among `bsp1`.
pub open spec fn spec_relate(bsp1: Seq<BspView>, b: int) -> Option<usize> {
    if spec_has_bi(bsp1, b) { Some(b as usize) } else { None }
}

/// The third-class points of segment `i`: after the next segment's first
/// pivot and before it. With more than one segment, the first-class line
/// is the segment's last and the next segment follows; with one, it is
/// looked at itself, against its own direction. Where asked, a listed
/// point must stand on the first-class line.
pub open spec fn spec_bs3_step(
    s: (Seq<BspView>, Seq<BspView>),
    segs: Seq<CSeg>,
    i: int,
    lines: Seq<CLine>,
    zs: Seq<CZS>,
    conf: CBSPointConfig,
    pos: Option<usize>,
) -> (Seq<BspView>, Seq<BspView>) {
    let seg = segs[i];
    let m = segs.len();
    let side = conf.side(seg.dir == BI_DIR::DOWN);
    if !spec_need_cal(seg, lines, pos) {
        s
    } else if !(side.target_types@.contains(BSP_TYPE::T3A) || side.target_types@.contains(BSP_TYPE::T3B)) {
        s
    } else {
        let multi = m > 1;
        let bsp1_bi: Option<usize> = if multi { Some(seg.end_bi) } else { None };
        let relate: Option<usize> = if multi { spec_relate(s.1, seg.end_bi as int) } else { None };
        let nsi: int = if multi {
            if seg.idx < usize::MAX { seg.idx + 1 } else { seg.idx as int }
        } else {
            seg.idx as int
        };
        let next: Option<usize> = if multi {
            if i + 1 < m { Some((i + 1) as usize) } else { None }
        } else {
            Some(i as usize)
        };
        let is_buy = if multi { seg.dir == BI_DIR::DOWN } else { seg.dir == BI_DIR::UP };
        let skip = conf.side(is_buy).bsp3_follow_1 && match bsp1_bi {
            Some(b) => !spec_has_bi(s.0, b as int),
            None => true,
        };
        if skip {
            s
        } else {
            let s1 = match next {
                Some(ns) => match spec_bsp3_after(segs, ns as int, is_buy, lines, zs, conf, bsp1_bi, nsi) {
                    Some(b) => spec_put(s, conf, BSP_TYPE::T3A, lines[b as int], relate, true),
                    None => s,
                },
                None => s,
            };
            match spec_bsp3_before(segs, i, next, bsp1_bi, is_buy, lines, zs, conf, nsi) {
                Some(b) => spec_put(s1, conf, BSP_TYPE::T3B, lines[b as int], relate, true),
                None => s1,
            }
        }
    }
}

/// The third-class points of the first `k` segments, in order.
pub open spec fn spec_bs3_pass(
    s: (Seq<BspView>, Seq<BspView>),
    segs: Seq<CSeg>,
    lines: Seq<CLine>,
    zs: Seq<CZS>,
    conf: CBSPointConfig,
    pos: Option<usize>,
    k: int,
) -> (Seq<BspView>, Seq<BspView>)
    decreases k,
{
    if k <= 0 {
        s
    } else {
        spec_bs3_step(spec_bs3_pass(s, segs, lines, zs, conf, pos, k - 1), segs, k - 1, lines, zs, conf, pos)
    }
}

impl CBSPointList {
    /// The third-class point after the next segment's first pivot of more
    /// than one line: the line after the one out of it, when it belongs to
    /// that segment (or to none, the segment being the last), runs against
    /// it, does not come back into the pivot and, where asked, breaks its
    /// peak. Gives the line of the point added.
    fn treat_bsp3_after(
        &mut self,
        segs: &Vec<CSeg>,
        ns: usize,
        is_buy: bool,
        lines: &Vec<CLine>,
        zs: &Vec<CZS>,
        relate: Option<usize>,
        bsp1_bi: Option<usize>,
        next_seg_idx: usize,
        Ghost(kept): Ghost<Seq<BspView>>,
    ) -> (r: Option<usize>)
        requires
            pass_ok(old(self), kept, lines@),
            crate::line::lines_wf(lines@),
            ns < segs@.len(),
        ensures
            pass_ok(final(self), kept, lines@),
            final(self).config == old(self).config,
            final(self).last_sure_pos == old(self).last_sure_pos,
            r == spec_bsp3_after(segs@, ns as int, is_buy, lines@, zs@, old(self).config, bsp1_bi, next_seg_idx as int),
            spec_state(*final(self)) == match r {
                None => spec_state(*old(self)),
                Some(b) => spec_put(spec_state(*old(self)), old(self).config, BSP_TYPE::T3A, lines@[b as int], relate, true),
            },
    {
        let n = lines.len();
        let m = segs.len();
        let next = &segs[ns];
        let fz = match first_multi(next, zs) {
            Some(k) => k,
            None => {
                return None;
            },
        };
        let z = &zs[fz];
        let conf = self.config.get_bs_config(is_buy);
        if conf.strict_bsp3 {
            let ok = match (z.bi_in, bsp1_bi) {
                (Some(bin), Some(b1)) => bin as u128 == b1 as u128 + 1,
                _ => false,
            };
            if !ok {
                return None;
            }
        }
        let o = match z.bi_out {
            Some(o) => o,
            None => {
                return None;
            },
        };
        if o >= n || n - o <= 1 {
            return None;
        }
        let b = o + 1;
        let l = lines[b];
        match parent_of(segs, b) {
            None => if next.idx as u128 + 1 != m as u128 {
                return None;
            },
            Some(p) => if p != next.idx && segs[p].end_bi as u128 + 1 >= segs[p].start_bi as u128 + 3 {
                return None;
            },
        }
        if l.dir == next.dir {
            return None;
        }
        if l.seg_idx != Some(next_seg_idx) && (next_seg_idx as u128) + 2 < m as u128 {
            return None;
        }
        if bsp3_back2zs(&l, z) {
            return None;
        }
        if conf.bsp3_peak && !bsp3_break_zspeak(&l, z) {
            return None;
        }
        self.add_on(BSP_TYPE::T3A, lines, b, relate, true, Ghost(kept));
        Some(b)
    }

    /// The third-class point before the next segment's pivot: the first
    /// line two, four, ... after the first-class point's, up to where
    /// `spec_bsp3_end` stops, that stays in the next segment (or the last
    /// ones) and does not come back into the segment's last pivot of more
    /// than one line. Gives the line of the point added.
    fn treat_bsp3_before(
        &mut self,
        segs: &Vec<CSeg>,
        i: usize,
        next: Option<usize>,
        bsp1_bi: Option<usize>,
        is_buy: bool,
        lines: &Vec<CLine>,
        zs: &Vec<CZS>,
        relate: Option<usize>,
        next_seg_idx: usize,
        Ghost(kept): Ghost<Seq<BspView>>,
    ) -> (r: Option<usize>)
        requires
            pass_ok(old(self), kept, lines@),
            crate::line::lines_wf(lines@),
            i < segs@.len(),
            next matches Some(k) ==> k < segs@.len(),
        ensures
            pass_ok(final(self), kept, lines@),
            final(self).config == old(self).config,
            final(self).last_sure_pos == old(self).last_sure_pos,
            r == spec_bsp3_before(segs@, i as int, next, bsp1_bi, is_buy, lines@, zs@, old(self).config, next_seg_idx as int),
            spec_state(*final(self)) == match r {
                None => spec_state(*old(self)),
                Some(b) => spec_put(spec_state(*old(self)), old(self).config, BSP_TYPE::T3B, lines@[b as int], relate, true),
            },
    {
        let n = lines.len();
        let m = segs.len();
        let cz = match last_multi(&segs[i], zs) {
            Some(k) => k,
            None => {
                return None;
            },
        };
        let z = &zs[cz];
        let b1 = match bsp1_bi {
            Some(b) => b,
            None => {
                return None;
            },
        };
        let conf = self.config.get_bs_config(is_buy);
        if conf.strict_bsp3 && z.bi_out != Some(b1) {
            return None;
        }
        let end = cal_bsp3_bi_end_idx(segs, zs, next);
        if b1 >= n || n - b1 <= 2 {
            return None;
        }
        let mut j: usize = b1 + 2;
        while j < n
            invariant
                pass_ok(self, kept, lines@),
                crate::line::lines_wf(lines@),
                n == lines@.len(),
                m == segs@.len(),
                j >= b1 + 2,
                (j - b1) % 2 == 0,
                bsp1_bi == Some(b1),
                i < segs@.len(),
                Some(cz) == spec_last_multi(segs@[i as int].zs_lst@, zs@, segs@[i as int].zs_lst@.len() as int),
                end is None <==> spec_bsp3_end(segs@, zs@, next) is None,
                end matches Some(x) ==> spec_bsp3_end(segs@, zs@, next) == Some(x as int),
                cz < zs@.len(),
                z == &zs@[cz as int],
                spec_bsp3_scan(lines@, *z, spec_bsp3_end(segs@, zs@, next), next_seg_idx as int, m as int, j as int)
                    == spec_bsp3_before(segs@, i as int, next, bsp1_bi, is_buy, lines@, zs@, self.config, next_seg_idx as int),
                self.lst@ == old(self).lst@,
                self.bsp1_lst@ == old(self).bsp1_lst@,
                self.config == old(self).config,
                self.last_sure_pos == old(self).last_sure_pos,
            decreases n - j,
        {
            match end {
                Some(e) => if j as i128 > e {
                    return None;
                },
                None => {},
            }
            let l = lines[j];
            let s = match l.seg_idx {
                Some(s) => s,
                None => {
                    return None;
                },
            };
            if s != next_seg_idx && (s as u128) + 1 < m as u128 {
                return None;
            }
            if !bsp3_back2zs(&l, z) {
                self.add_on(BSP_TYPE::T3B, lines, j, relate, true, Ghost(kept));
                return Some(j);
            }
            if n - j <= 2 {
                return None;
            }
            j = j + 2;
        }
        None
    }

    /// Third-class points of the segments still to be looked at, after and
    /// before the next segment's pivot.
    fn cal_seg_bs3point_pass(&mut self, segs: &Vec<CSeg>, lines: &Vec<CLine>, zs: &Vec<CZS>, Ghost(kept): Ghost<Seq<BspView>>)
        requires
            pass_ok(old(self), kept, lines@),
            crate::line::lines_wf(lines@),
        ensures
            pass_ok(final(self), kept, lines@),
            final(self).config == old(self).config,
            final(self).last_sure_pos == old(self).last_sure_pos,
            spec_state(*final(self)) == spec_bs3_pass(
                spec_state(*old(self)),
                segs@,
                lines@,
                zs@,
                old(self).config,
                old(self).last_sure_pos,
                segs@.len() as int,
            ),
    {
        let ghost s0 = spec_state(*self);
        let m = segs.len();
        let mut i: usize = 0;
        while i < m
            invariant
                i <= m,
                m == segs@.len(),
                pass_ok(self, kept, lines@),
                crate::line::lines_wf(lines@),
                self.config == old(self).config,
                self.last_sure_pos == old(self).last_sure_pos,
                spec_state(*self) == spec_bs3_pass(s0, segs@, lines@, zs@, self.config, self.last_sure_pos, i as int),
            decreases m - i,
        {
            let ghost before = spec_state(*self);
            let seg = &segs[i];
            if self.seg_need_cal(seg, lines) {
                let conf = self.config.get_bs_config(seg.is_down());
                if conf.is_target(BSP_TYPE::T3A) || conf.is_target(BSP_TYPE::T3B) {
                    let (bsp1_bi, relate, next_seg_idx, next, is_buy) = if m > 1 {
                        let nsi = if seg.idx < usize::MAX { seg.idx + 1 } else { seg.idx };
                        (
                            Some(seg.end_bi),
                            self.real_bsp1(seg.end_bi),
                            nsi,
                            if i + 1 < m { Some(i + 1) } else { None },
                            seg.is_down(),
                        )
                    } else {
                        (None, None, seg.idx, Some(i), seg.is_up())
                    };
                    let follow = self.config.get_bs_config(is_buy).bsp3_follow_1;
                    let skip = follow && match bsp1_bi {
                        Some(b) => !self.has_bsp_on(b),
                        None => true,
                    };
                    if !skip {
                        match next {
                            Some(ns) => {
                                let _ = self.treat_bsp3_after(segs, ns, is_buy, lines, zs, relate, bsp1_bi, next_seg_idx, Ghost(kept));
                            },
                            None => {},
                        }
                        let _ = self.treat_bsp3_before(segs, i, next, bsp1_bi, is_buy, lines, zs, relate, next_seg_idx, Ghost(kept));
                    }
                }
            }
            assert(spec_state(*self) == spec_bs3_step(before, segs@, i as int, lines@, zs@, self.config, self.last_sure_pos));
            i = i + 1;
        }
    }
}

/// The points kept from one pass to the next: those at or before the
/// settled bar; none when no bar is settled.
pub open spec fn spec_kept(v: Seq<BspView>, pos: Option<usize>) -> Seq<BspView>
    decreases v.len(),
{
    if v.len() == 0 {
        Seq::empty()
    } else {
        let rest = spec_kept(v.drop_last(), pos);
        if pos matches Some(p) && v.last().klu <= p {
            rest.push(v.last())
        } else {
            rest
        }
    }
}

/// The points kept from one pass to the next.
fn retained(v: &Vec<CBSPoint>, pos: Option<usize>) -> (r: Vec<CBSPoint>)
    ensures
        views(r@) == spec_kept(views(v@), pos),
        forall|a: int| 0 <= a < r@.len() ==> exists|k: int| 0 <= k < v@.len() && (#[trigger] r@[a])@ == v@[k]@,
        (forall|p: int, q: int| 0 <= p < q < v@.len() ==> #[trigger] v@[p].klu != #[trigger] v@[q].klu) ==> (forall|
            a: int,
            b: int,
        | 0 <= a < b < r@.len() ==> #[trigger] r@[a].klu != #[trigger] r@[b].klu),
{
    let ghost w = views(v@);
    let mut out: Vec<CBSPoint> = Vec::new();
    let mut i: usize = 0;
    while i < v.len()
        invariant
            w == views(v@),
            i <= v@.len(),
            views(out@) == spec_kept(w.take(i as int), pos),
            forall|a: int| 0 <= a < out@.len() ==> exists|k: int| 0 <= k < i && (#[trigger] out@[a])@ == v@[k]@,
            (forall|p: int, q: int| 0 <= p < q < v@.len() ==> #[trigger] v@[p].klu != #[trigger] v@[q].klu) ==> (forall|
                a: int,
                b: int,
            | 0 <= a < b < out@.len() ==> #[trigger] out@[a].klu != #[trigger] out@[b].klu),
        decreases v@.len() - i,
    {
        let keep = match pos {
            Some(p) => v[i].klu <= p,
            None => false,
        };
        let ghost before = out@;
        proof {
            assert(w.take(i + 1).drop_last() =~= w.take(i as int));
            assert(w.take(i + 1).last() == w[i as int]);
        }
        if keep {
            let q = v[i].copy();
            out.push(q);
            proof {
                assert(views(out@) =~= views(before).push(w[i as int]));
                assert forall|a: int| 0 <= a < out@.len() implies exists|k: int| 0 <= k < i + 1 && (#[trigger] out@[a])@ == v@[k]@ by {
                    if a < before.len() {
                        assert(out@[a] == before[a]);
                    } else {
                        assert(out@[a]@ == v@[i as int]@);
                    }
                }
                if forall|p: int, q: int| 0 <= p < q < v@.len() ==> #[trigger] v@[p].klu != #[trigger] v@[q].klu {
                    assert forall|a: int, b: int| 0 <= a < b < out@.len() implies #[trigger] out@[a].klu != #[trigger] out@[b].klu by {
                        assert(out@[a] == before[a]);
                        if b < before.len() {
                            assert(out@[b] == before[b]);
                        } else {
                            let k = choose|k: int| 0 <= k < i && (#[trigger] before[a])@ == v@[k]@;
                            assert(out@[b]@ == v@[i as int]@);
                            assert(v@[k].klu != v@[i as int].klu);
                        }
                    }
                }
            }
        }
        i = i + 1;
    }
    proof {
        assert(w.take(v@.len() as int) =~= w);
    }
    out
}

/// A pass over the points: those at or before the settled bar are kept,
/// then the first-, second- and third-class points of the segments are
/// looked for in turn.
pub open spec fn spec_cal(
    s: (Seq<BspView>, Seq<BspView>),
    pos: Option<usize>,
    segs: Seq<CSeg>,
    lines: Seq<CLine>,
    zs: Seq<CZS>,
    conf: CBSPointConfig,
    div: spec_fn(usize, usize, bool, bool) -> bool,
) -> (Seq<BspView>, Seq<BspView>) {
    let k = segs.len() as int;
    let s0 = (spec_kept(s.0, pos), spec_kept(s.1, pos));
    let s1 = spec_bs1_pass(s0, segs, lines, zs, conf, pos, div, k);
    let s2 = spec_bs2_pass(s1, segs, lines, conf, pos, k);
    spec_bs3_pass(s2, segs, lines, zs, conf, pos, k)
}

impl CBSPointList {
    /// Finds the points again over `lines`, the segments over them and the
    /// pivots: keeps the points at or before the settled bar, looks for
    /// first-, second- and third-class points in the segments still open,
    /// then settles the bar anew at the start of the last sure segment's
    /// last line. `diverge(in, out, is_buy, pz)` tells whether line `out`
    /// diverges from line `in` enough for a first-class point (`pz` when no
    /// pivot serves and the line two before is compared).
    pub fn cal<F: Fn(usize, usize, bool, bool) -> bool>(
        &mut self,
        lines: &Vec<CLine>,
        segs: &Vec<CSeg>,
        zs: &Vec<CZS>,
        diverge: &F,
    )
        requires
            old(self).wf(),
            crate::line::lines_wf(lines@),
            forall|a: usize, b: usize, c: bool, d: bool| diverge.requires((a, b, c, d)),
        ensures
            final(self).wf(),
            final(self).config == old(self).config,
            final(self).last_sure_pos == spec_last_sure_from(segs@, lines@, segs@.len() as int),
            ({
                let kept = spec_kept(views(old(self).lst@), old(self).last_sure_pos);
                &&& kept_first(kept, views(final(self).lst@))
                &&& pts_on_lines(views(final(self).lst@), lines@, kept.len() as int)
            }),
            forall|div: spec_fn(usize, usize, bool, bool) -> bool| answers(diverge, div) ==> spec_state(*final(self))
                == spec_cal(spec_state(*old(self)), old(self).last_sure_pos, segs@, lines@, zs@, old(self).config, div),
    {
        let ghost st0 = spec_state(*self);
        let ghost pos = self.last_sure_pos;
        let ghost v0 = views(self.lst@);
        let ghost w0 = views(self.bsp1_lst@);
        let lst = retained(&self.lst, self.last_sure_pos);
        let bsp1 = retained(&self.bsp1_lst, self.last_sure_pos);
        self.lst = lst;
        self.bsp1_lst = bsp1;
        let ghost kept = views(self.lst@);
        proof {
            let v = views(self.lst@);
            let w = views(self.bsp1_lst@);
            assert forall|k: int| 0 <= k < v.len() implies #[trigger] v[k].types.len() >= 1 && self.config.side(
                v[k].is_buy,
            ).target_types@.contains(v[k].types[0]) by {
                let j = choose|j: int| 0 <= j < old(self).lst@.len() && (#[trigger] self.lst@[k])@ == old(self).lst@[j]@;
                assert(v0[j] == v[k]);
            }
            assert forall|p: int, q: int| 0 <= p < q < old(self).lst@.len() implies #[trigger] old(self).lst@[p].klu
                != #[trigger] old(self).lst@[q].klu by {
                assert(v0[p].klu != v0[q].klu);
            }
            assert forall|a: int, b: int| 0 <= a < b < v.len() implies #[trigger] v[a].klu != #[trigger] v[b].klu by {
                assert(self.lst@[a].klu != self.lst@[b].klu);
            }
            assert forall|k: int| 0 <= k < w.len() implies #[trigger] w[k].types.len() >= 1 && (w[k].types[0]
                == BSP_TYPE::T1 || w[k].types[0] == BSP_TYPE::T1P) by {
                let j = choose|j: int| 0 <= j < old(self).bsp1_lst@.len() && (#[trigger] self.bsp1_lst@[k])@ == old(self).bsp1_lst@[j]@;
                assert(w0[j] == w[k]);
            }
            assert forall|k: int| 0 <= k < kept.len() implies #[trigger] kept[k].types.len() >= 1 by {}
        }
        let ghost sk = spec_state(*self);
        assert(sk == (spec_kept(st0.0, pos), spec_kept(st0.1, pos)));
        self.cal_seg_bs1point_pass(segs, lines, zs, diverge, Ghost(kept));
        let ghost s1 = spec_state(*self);
        self.cal_seg_bs2point_pass(segs, lines, Ghost(kept));
        let ghost s2 = spec_state(*self);
        self.cal_seg_bs3point_pass(segs, lines, zs, Ghost(kept));
        let ghost s3 = spec_state(*self);
        self.update_last_pos(segs, lines);
        proof {
            let k = segs@.len() as int;
            assert forall|div: spec_fn(usize, usize, bool, bool) -> bool| answers(diverge, div) implies spec_state(*self)
                == spec_cal(st0, pos, segs@, lines@, zs@, self.config, div) by {
                assert(s1 == spec_bs1_pass(sk, segs@, lines@, zs@, self.config, pos, div, k));
                assert(s2 == spec_bs2_pass(s1, segs@, lines@, self.config, pos, k));
                assert(s3 == spec_bs3_pass(s2, segs@, lines@, zs@, self.config, pos, k));
            }
        }
    }
}

impl Analyzer {
    /// The segments as lines one level up, as `spec_seg_lines` says.
    pub fn seg_lines(&self) -> (r: Vec<CLine>)
        requires
            self.wf(),
        ensures
            r@ == spec_seg_lines(self.bi_lines(), self.seg_list.lst@),
    {
        let lines = self.bi_list.to_lines(&self.candle_list);
        if self.seg_list.fits_lines(&lines) {
            let r = crate::analyzer::seg_lines_of(&self.seg_list, &lines);
            assert(r@ =~= spec_seg_lines(self.bi_lines(), self.seg_list.lst@));
            r
        } else {
            Vec::new()
        }
    }

    /// Finds the buy/sell points of both levels again: over the strokes,
    /// their segments and pivots; and, when the segments alternate, over
    /// the segments, the segments of segments and their pivots.
    pub fn cal_bsp<F: Fn(usize, usize, bool, bool) -> bool, G: Fn(usize, usize, bool, bool) -> bool>(
        &self,
        bsp: &mut CBSPointList,
        seg_bsp: &mut CBSPointList,
        diverge: &F,
        seg_diverge: &G,
    )
        requires
            self.wf(),
            old(bsp).wf(),
            old(seg_bsp).wf(),
            forall|a: usize, b: usize, c: bool, d: bool| diverge.requires((a, b, c, d)),
            forall|a: usize, b: usize, c: bool, d: bool| seg_diverge.requires((a, b, c, d)),
        ensures
            final(bsp).wf(),
            final(seg_bsp).wf(),
            final(bsp).config == old(bsp).config,
            final(seg_bsp).config == old(seg_bsp).config,
            final(bsp).last_sure_pos == spec_last_sure_from(
                self.seg_list.lst@,
                self.bi_lines(),
                self.seg_list.lst@.len() as int,
            ),
            ({
                let sl = spec_seg_lines(self.bi_lines(), self.seg_list.lst@);
                &&& crate::line::lines_wf(sl) ==> final(seg_bsp).last_sure_pos == spec_last_sure_from(
                    self.segseg_list.lst@,
                    sl,
                    self.segseg_list.lst@.len() as int,
                )
                &&& !crate::line::lines_wf(sl) ==> final(seg_bsp).lst@ == old(seg_bsp).lst@
                &&& crate::line::lines_wf(sl) ==> forall|div: spec_fn(usize, usize, bool, bool) -> bool| answers(seg_diverge, div)
                    ==> spec_state(*final(seg_bsp)) == spec_cal(
                    spec_state(*old(seg_bsp)),
                    old(seg_bsp).last_sure_pos,
                    self.segseg_list.lst@,
                    sl,
                    self.segzs_list.zs_lst@,
                    old(seg_bsp).config,
                    div,
                )
            }),
            forall|div: spec_fn(usize, usize, bool, bool) -> bool| answers(diverge, div) ==> spec_state(*final(bsp))
                == spec_cal(
                spec_state(*old(bsp)),
                old(bsp).last_sure_pos,
                self.seg_list.lst@,
                self.bi_lines(),
                self.zs_list.zs_lst@,
                old(bsp).config,
                div,
            ),
    {
        let lines = self.bi_list.to_lines(&self.candle_list);
        bsp.cal(&lines, &self.seg_list.lst, &self.zs_list.zs_lst, diverge);
        let seg_lines = self.seg_lines();
        if check_lines_wf(&seg_lines) {
            seg_bsp.cal(&seg_lines, &self.segseg_list.lst, &self.segzs_list.zs_lst, seg_diverge);
        }
    }
}

impl CBSPointList {
    /// First-class points of the segments still to be looked at, added to
    /// the points there are.
    pub fn cal_seg_bs1point<F: Fn(usize, usize, bool, bool) -> bool>(
        &mut self,
        segs: &Vec<CSeg>,
        lines: &Vec<CLine>,
        zs: &Vec<CZS>,
        diverge: &F,
    )
        requires
            old(self).wf(),
            crate::line::lines_wf(lines@),
            forall|a: usize, b: usize, c: bool, d: bool| diverge.requires((a, b, c, d)),
        ensures
            final(self).wf(),
            final(self).config == old(self).config,
            final(self).last_sure_pos == old(self).last_sure_pos,
            kept_first(views(old(self).lst@), views(final(self).lst@)),
            pts_on_lines(views(final(self).lst@), lines@, old(self).lst@.len() as int),
            forall|div: spec_fn(usize, usize, bool, bool) -> bool| answers(diverge, div) ==> spec_state(*final(self))
                == spec_bs1_pass(
                spec_state(*old(self)),
                segs@,
                lines@,
                zs@,
                old(self).config,
                old(self).last_sure_pos,
                div,
                segs@.len() as int,
            ),
    {
        let ghost kept = views(self.lst@);
        proof {
            assert(kept_first(kept, kept));
        }
        self.cal_seg_bs1point_pass(segs, lines, zs, diverge, Ghost(kept));
    }

    /// The first-class point of one segment, added to the points there are.
    pub fn cal_single_bs1point<F: Fn(usize, usize, bool, bool) -> bool>(
        &mut self,
        seg: &CSeg,
        lines: &Vec<CLine>,
        zs: &Vec<CZS>,
        diverge: &F,
    )
        requires
            old(self).wf(),
            crate::line::lines_wf(lines@),
            forall|a: usize, b: usize, c: bool, d: bool| diverge.requires((a, b, c, d)),
        ensures
            final(self).wf(),
            final(self).config == old(self).config,
            final(self).last_sure_pos == old(self).last_sure_pos,
            kept_first(views(old(self).lst@), views(final(self).lst@)),
            pts_on_lines(views(final(self).lst@), lines@, old(self).lst@.len() as int),
            forall|div: spec_fn(usize, usize, bool, bool) -> bool| answers(diverge, div) ==> spec_state(*final(self))
                == spec_single_bs1(spec_state(*old(self)), *seg, lines@, zs@, old(self).config, div),
    {
        let ghost kept = views(self.lst@);
        proof {
            assert(kept_first(kept, kept));
        }
        self.cal_single_bs1point_pass(seg, lines, zs, diverge, Ghost(kept));
    }

    /// Third-class points of the segments still to be looked at, added to
    /// the points there are.
    pub fn cal_seg_bs3point(&mut self, segs: &Vec<CSeg>, lines: &Vec<CLine>, zs: &Vec<CZS>)
        requires
            old(self).wf(),
            crate::line::lines_wf(lines@),
        ensures
            final(self).wf(),
            final(self).config == old(self).config,
            final(self).last_sure_pos == old(self).last_sure_pos,
            kept_first(views(old(self).lst@), views(final(self).lst@)),
            pts_on_lines(views(final(self).lst@), lines@, old(self).lst@.len() as int),
            spec_state(*final(self)) == spec_bs3_pass(
                spec_state(*old(self)),
                segs@,
                lines@,
                zs@,
                old(self).config,
                old(self).last_sure_pos,
                segs@.len() as int,
            ),
    {
        let ghost kept = views(self.lst@);
        proof {
            assert(kept_first(kept, kept));
        }
        self.cal_seg_bs3point_pass(segs, lines, zs, Ghost(kept));
    }

    /// The listed points, latest line first; points on the same line keep
    /// their order.
    pub fn get_lastest_bsp_list(&self) -> (r: Vec<CBSPoint>)
        ensures
            r@.len() == self.lst@.len(),
            desc_by_bi(views(r@)),
            forall|a: int| 0 <= a < r@.len() ==> #[trigger] in_seq(views(self.lst@), views(r@)[a]),
            forall|k: int| 0 <= k < self.lst@.len() ==> #[trigger] in_seq(views(r@), views(self.lst@)[k]),
            views(r@).to_multiset() == views(self.lst@).to_multiset(),
    {
        let ghost src = views(self.lst@);
        let mut out: Vec<CBSPoint> = Vec::new();
        let mut i: usize = 0;
        proof {
            assert(views(out@) =~= src.take(0));
        }
        while i < self.lst.len()
            invariant
                src == views(self.lst@),
                i <= self.lst@.len(),
                out@.len() == i,
                desc_by_bi(views(out@)),
                forall|a: int| 0 <= a < out@.len() ==> #[trigger] in_seq(src.take(i as int), views(out@)[a]),
                forall|k: int| 0 <= k < i ==> #[trigger] in_seq(views(out@), src[k]),
                views(out@).to_multiset() == src.take(i as int).to_multiset(),
            decreases self.lst@.len() - i,
        {
            let p = self.lst[i].copy();
            let b = p.bi;
            let mut j: usize = 0;
            while j < out.len() && out[j].bi >= b
                invariant
                    j <= out@.len(),
                    forall|a: int| 0 <= a < j ==> (#[trigger] out@[a]).bi >= b,
                decreases out@.len() - j,
            {
                j = j + 1;
            }
            let ghost before = views(out@);
            let ghost pv = p@;
            out.insert(j, p);
            proof {
                assert(views(out@) =~= before.insert(j as int, pv));
                assert(pv == src[i as int]);
                lemma_insert_step(before, src, i as int, j as int);
                vstd::seq_lib::to_multiset_insert(before, j as int, pv);
                assert(src.take(i + 1) =~= src.take(i as int).push(pv));
                vstd::seq_lib::to_multiset_build(src.take(i as int), pv);
            }
            i = i + 1;
        }
        proof {
            assert(src.take(i as int) =~= src);
        }
        out
    }
}

/// The points go from the latest line to the earliest.
pub open spec fn desc_by_bi(v: Seq<BspView>) -> bool {
    forall|a: int, c: int| 0 <= a < c < v.len() ==> (#[trigger] v[a]).bi >= (#[trigger] v[c]).bi
}

/// Whether a point is one of a list's.
pub open spec fn in_seq(v: Seq<BspView>, p: BspView) -> bool {
    exists|k: int| 0 <= k < v.len() && v[k] == p
}

proof fn lemma_insert_step(before: Seq<BspView>, src: Seq<BspView>, i: int, j: int)
    requires
        0 <= i < src.len(),
        before.len() == i,
        0 <= j <= before.len(),
        desc_by_bi(before),
        forall|a: int| 0 <= a < j ==> (#[trigger] before[a]).bi >= src[i].bi,
        j < before.len() ==> before[j].bi < src[i].bi,
        forall|a: int| 0 <= a < before.len() ==> #[trigger] in_seq(src.take(i), before[a]),
        forall|k: int| 0 <= k < i ==> #[trigger] in_seq(before, src[k]),
    ensures
        desc_by_bi(before.insert(j, src[i])),
        forall|a: int| 0 <= a < before.len() + 1 ==> #[trigger] in_seq(src.take(i + 1), before.insert(j, src[i])[a]),
        forall|k: int| 0 <= k < i + 1 ==> #[trigger] in_seq(before.insert(j, src[i]), src[k]),
{
    let after = before.insert(j, src[i]);
    let p = src[i];
    assert forall|a: int, c: int| 0 <= a < c < after.len() implies (#[trigger] after[a]).bi >= (#[trigger] after[c]).bi by {
        if c < j {
            assert(after[a] == before[a] && after[c] == before[c]);
        } else if c == j {
            assert(after[a] == before[a]);
        } else if a == j {
            assert(after[c] == before[c - 1]);
            if c - 1 > j {
                assert(before[j].bi >= before[c - 1].bi);
            }
        } else if a < j {
            assert(after[a] == before[a] && after[c] == before[c - 1]);
        } else {
            assert(after[a] == before[a - 1] && after[c] == before[c - 1]);
        }
    }
    assert forall|a: int| 0 <= a < before.len() + 1 implies #[trigger] in_seq(src.take(i + 1), after[a]) by {
        if a == j {
            assert(src.take(i + 1)[i] == p);
        } else {
            let x = if a < j { before[a] } else { before[a - 1] };
            assert(after[a] == x);
            assert(in_seq(src.take(i), x));
            let k = choose|k: int| 0 <= k < src.take(i).len() && src.take(i)[k] == x;
            assert(src.take(i + 1)[k] == x);
        }
    }
    assert forall|k: int| 0 <= k < i + 1 implies #[trigger] in_seq(after, src[k]) by {
        if k == i {
            assert(after[j] == p);
        } else {
            assert(in_seq(before, src[k]));
            let a = choose|a: int| 0 <= a < before.len() && before[a] == src[k];
            if a < j {
                assert(after[a] == before[a]);
            } else {
                assert(after[a + 1] == before[a]);
            }
        }
    }
}

impl CSeg {
    /// How many of the segment's pivots span more than one line.
    pub fn get_multi_bi_zs_cnt(&self, zs: &Vec<CZS>) -> (r: usize)
        ensures
            r == spec_multi_cnt(self.zs_lst@, zs@, self.zs_lst@.len() as int),
    {
        multi_cnt(self, zs)
    }

    /// The segment's first pivot of more than one line.
    pub fn get_first_multi_bi_zs(&self, zs: &Vec<CZS>) -> (r: Option<usize>)
        ensures
            r == spec_first_multi_from(self.zs_lst@, zs@, 0),
    {
        first_multi(self, zs)
    }

    /// The segment's last pivot of more than one line.
    pub fn get_final_multi_bi_zs(&self, zs: &Vec<CZS>) -> (r: Option<usize>)
        ensures
            r == spec_last_multi(self.zs_lst@, zs@, self.zs_lst@.len() as int),
    {
        last_multi(self, zs)
    }
}

} // verus!

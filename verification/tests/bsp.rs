use std::collections::VecDeque;
use chan::analyzer::Analyzer;
use chan::bsp::{CBSPointConfig, CBSPointList, CPointConfig};
use chan::cbi_config::CBiConfig;
use chan::enums::{BI_DIR, BSP_TYPE};
use chan::kline_unit::CKLineUnit;
use chan::line::CLine;
use chan::seg::CSeg;
use chan::seg_config::CSegConfig;
use chan::zs::CZS;
use chan::zs_config::CZsConfig;

fn line(idx: usize, begin: i64, end: i64, seg: usize) -> CLine {
    let dir = if end > begin { BI_DIR::UP } else { BI_DIR::DOWN };
    let (low, high) = if end > begin { (begin, end) } else { (end, begin) };
    CLine {
        idx,
        dir,
        high,
        low,
        begin_val: begin,
        end_val: end,
        is_sure: true,
        begin_klu: 10 * idx,
        end_klu: 10 * (idx + 1),
        begin_klu_high: if dir == BI_DIR::UP { low + 1 } else { high },
        begin_klu_low: if dir == BI_DIR::UP { low } else { high - 1 },
        end_klu_high: if dir == BI_DIR::UP { high } else { low + 1 },
        end_klu_low: if dir == BI_DIR::UP { high - 1 } else { low },
        seg_idx: Some(seg),
    }
}

fn seg(idx: usize, start: usize, end: usize, dir: BI_DIR, sure: bool) -> CSeg {
    CSeg {
        idx,
        start_bi: start,
        end_bi: end,
        is_sure: sure,
        dir,
        zs_lst: VecDeque::new(),
        eigen_fx: None,
        seg_idx: None,
        reason: "normal".to_string(),
        ele_inside_is_sure: false,
    }
}

/// Down from 120 to 90 in three lines, then up from 90 to 130.
fn two_segments() -> (Vec<CLine>, Vec<CSeg>) {
    let lines = vec![
        line(0, 120, 100, 0),
        line(1, 100, 110, 0),
        line(2, 110, 90, 0),
        line(3, 90, 120, 1),
        line(4, 120, 100, 1),
        line(5, 100, 130, 1),
    ];
    let segs = vec![seg(0, 0, 2, BI_DIR::DOWN, true), seg(1, 3, 5, BI_DIR::UP, false)];
    (lines, segs)
}

#[test]
fn test_bsp_found_on_two_segments() {
    let (lines, segs) = two_segments();
    let zs: Vec<CZS> = Vec::new();
    let mut l = CBSPointList::new(CBSPointConfig::default());
    l.cal(&lines, &segs, &zs, &|_: usize, _: usize, _: bool, _: bool| true);
    let got: Vec<(usize, bool, Vec<BSP_TYPE>)> = l.lst.iter().map(|p| (p.bi, p.is_buy, p.bsp_type.clone())).collect();
    assert_eq!(
        got,
        vec![(2, true, vec![BSP_TYPE::T1P]), (5, false, vec![BSP_TYPE::T1P]), (4, true, vec![BSP_TYPE::T2])]
    );
    for p in &l.lst {
        assert_eq!(p.klu, lines[p.bi].end_klu);
    }
    assert_eq!(l.bsp1_lst.len(), 2);
    // The last sure segment ends with line 2, which begins at bar 20.
    assert_eq!(l.last_sure_pos, Some(20));
    // The second-class point follows the first-class one of its segment.
    assert_eq!(l.lst[2].relate_bsp1, Some(2));
}

#[test]
fn test_bsp_without_divergence_no_first_class_target() {
    let (lines, segs) = two_segments();
    let zs: Vec<CZS> = Vec::new();
    let mut l = CBSPointList::new(CBSPointConfig::default());
    l.cal(&lines, &segs, &zs, &|_: usize, _: usize, _: bool, _: bool| false);
    let got: Vec<usize> = l.lst.iter().map(|p| p.bi).collect();
    assert_eq!(got, vec![4]);
    // First-class points are still remembered.
    assert_eq!(l.bsp1_lst.len(), 2);
    assert_eq!(l.bsp1_lst[0].bsp_type, vec![BSP_TYPE::T1P]);
}

#[test]
fn test_bsp_retrace_too_deep() {
    let (mut lines, segs) = two_segments();
    // The line after the break comes all the way back.
    lines[4] = line(4, 120, 85, 1);
    lines[5] = line(5, 85, 130, 1);
    let zs: Vec<CZS> = Vec::new();
    let mut l = CBSPointList::new(CBSPointConfig::default());
    l.cal(&lines, &segs, &zs, &|_: usize, _: usize, _: bool, _: bool| true);
    assert!(l.lst.iter().all(|p| !p.bsp_type.contains(&BSP_TYPE::T2)));
}

#[test]
fn test_bsp_only_targets_listed() {
    let (lines, segs) = two_segments();
    let zs: Vec<CZS> = Vec::new();
    let mut conf = CPointConfig::default();
    conf.target_types = vec![BSP_TYPE::T2];
    let mut l = CBSPointList::new(CBSPointConfig { b_conf: conf, s_conf: CPointConfig::default() });
    l.cal(&lines, &segs, &zs, &|_: usize, _: usize, _: bool, _: bool| true);
    // Buy side looks for second-class points only; the sell side for all.
    let got: Vec<(usize, Vec<BSP_TYPE>)> = l.lst.iter().map(|p| (p.bi, p.bsp_type.clone())).collect();
    assert_eq!(got, vec![(5, vec![BSP_TYPE::T1P]), (4, vec![BSP_TYPE::T2])]);
}

#[test]
fn test_bsp_kept_up_to_settled_bar() {
    let (lines, segs) = two_segments();
    let zs: Vec<CZS> = Vec::new();
    let mut l = CBSPointList::new(CBSPointConfig::default());
    l.cal(&lines, &segs, &zs, &|_: usize, _: usize, _: bool, _: bool| true);
    // A second pass over the same lines finds the same points again.
    l.cal(&lines, &segs, &zs, &|_: usize, _: usize, _: bool, _: bool| true);
    let got: Vec<usize> = l.lst.iter().map(|p| p.bi).collect();
    assert_eq!(got[0], 2);
    assert_eq!(l.lst[0].bsp_type, vec![BSP_TYPE::T1P]);
    let mut klus: Vec<usize> = l.lst.iter().map(|p| p.klu).collect();
    klus.sort();
    klus.dedup();
    assert_eq!(klus.len(), l.lst.len());
}

fn zigzag(legs: usize, leg: usize) -> Vec<CKLineUnit> {
    let mut out = Vec::new();
    let mut p: i64 = 1000;
    let mut idx = 0;
    for l in 0..legs {
        for _ in 0..leg {
            out.push(CKLineUnit::new(idx as i64 * 60, idx, p + 2, p + 15, p, p + 13, false).unwrap());
            idx += 1;
            if l % 2 == 0 {
                p += 10;
            } else {
                p -= 10;
            }
        }
    }
    out
}

#[test]
fn test_bsp_over_analysis() {
    let mut a = Analyzer::new(1, CBiConfig::default_strict(), CSegConfig::default(), CZsConfig::default());
    for u in zigzag(14, 6) {
        a.add_k(u).unwrap();
    }
    let lines = a.bi_list.to_lines(&a.candle_list);
    let mut l = CBSPointList::new(CBSPointConfig::default());
    l.cal(&lines, &a.seg_list.lst, &a.zs_list.zs_lst, &|_: usize, _: usize, _: bool, _: bool| true);
    assert!(!l.lst.is_empty());
    for p in &l.lst {
        assert_eq!(p.klu, lines[p.bi].end_klu);
        assert_eq!(p.is_buy, lines[p.bi].dir == BI_DIR::DOWN);
        assert!(!p.bsp_type.is_empty());
    }
}

#[test]
fn test_cal_bsp_both_levels() {
    let mut a = Analyzer::new(1, CBiConfig::default_strict(), CSegConfig::default(), CZsConfig::default());
    for u in zigzag(16, 6) {
        a.add_k(u).unwrap();
    }
    let mut bsp = CBSPointList::new(CBSPointConfig::default());
    let mut seg_bsp = CBSPointList::new(CBSPointConfig::default());
    a.cal_bsp(&mut bsp, &mut seg_bsp, &|_: usize, _: usize, _: bool, _: bool| true, &|_: usize, _: usize, _: bool, _: bool| true);
    let lines = a.bi_list.to_lines(&a.candle_list);
    assert!(!bsp.lst.is_empty());
    for p in &bsp.lst {
        assert_eq!(p.klu, lines[p.bi].end_klu);
    }
    let seg_lines = a.seg_lines();
    assert_eq!(seg_lines.len(), a.seg_list.lst.len());
    for (k, s) in a.seg_list.lst.iter().enumerate() {
        assert_eq!(seg_lines[k].begin_klu, lines[s.start_bi].begin_klu);
        assert_eq!(seg_lines[k].end_klu, lines[s.end_bi].end_klu);
    }
    for p in &seg_bsp.lst {
        assert_eq!(p.klu, seg_lines[p.bi].end_klu);
    }
}

#[test]
fn test_bsp_point_kinds() {
    let l = line(4, 120, 100, 1);
    let mut p = chan::bsp::CBSPoint::new(&l, BSP_TYPE::T2, None);
    assert_eq!(p.bi, 4);
    assert_eq!(p.klu, 50);
    assert!(p.is_buy);
    assert_eq!(p.type2str(), "2");
    p.add_another_bsp_prop(BSP_TYPE::T2S, Some(2));
    assert_eq!(p.relate_bsp1, Some(2));
    p.add_another_bsp_prop(BSP_TYPE::T3B, Some(7));
    assert_eq!(p.relate_bsp1, Some(2));
    assert_eq!(p.type2str(), "2,2s,3b");
    p.add_type(BSP_TYPE::T1P);
    assert_eq!(p.bsp_type.len(), 4);
    assert_eq!(BSP_TYPE::T3A.text(), "3a");
    assert_eq!(BSP_TYPE::T1P.text(), "1p");
}

#[test]
fn test_bsp_latest_first() {
    let (lines, segs) = two_segments();
    let zs: Vec<CZS> = Vec::new();
    let mut l = CBSPointList::new(CBSPointConfig::default());
    l.cal(&lines, &segs, &zs, &|_: usize, _: usize, _: bool, _: bool| true);
    let latest: Vec<usize> = l.get_lastest_bsp_list().iter().map(|p| p.bi).collect();
    assert_eq!(latest, vec![5, 4, 2]);
    assert_eq!(l.get(0).map(|p| p.bi), Some(2));
    assert!(l.get(3).is_none());
    assert_eq!(l.len(), 3);
    assert!(!l.is_empty());
}

#[test]
fn test_segment_multi_line_pivots() {
    let (lines, _) = two_segments();
    let one = CZS::new(Some(vec![lines[1]]), true);
    let multi = CZS::new(Some(vec![lines[1], lines[2], lines[3]]), true);
    let zs = vec![one, multi];
    let mut s = seg(0, 0, 4, BI_DIR::DOWN, false);
    s.zs_lst = VecDeque::from(vec![0, 1]);
    assert_eq!(s.get_multi_bi_zs_cnt(&zs), 1);
    assert_eq!(s.get_first_multi_bi_zs(&zs), Some(1));
    assert_eq!(s.get_final_multi_bi_zs(&zs), Some(1));
    s.zs_lst = VecDeque::from(vec![0]);
    assert_eq!(s.get_multi_bi_zs_cnt(&zs), 0);
    assert_eq!(s.get_first_multi_bi_zs(&zs), None);
}

#[test]
fn test_bsp_price_tests() {
    let (lines, _) = two_segments();
    let z = CZS::new(Some(vec![lines[1], lines[2], lines[3]]), true);
    // Pivot range: highest low 100 (line 1), lowest high 110 (line 1).
    assert_eq!((z.low, z.high), (100, 110));
    // A down line that stays above the pivot does not come back into it.
    assert!(!chan::bsp::bsp3_back2zs(&line(6, 130, 115, 1), &z));
    assert!(chan::bsp::bsp3_back2zs(&line(6, 130, 105, 1), &z));
    // An up line below the pivot's low does not come back into it.
    assert!(!chan::bsp::bsp3_back2zs(&line(6, 80, 95, 1), &z));
    assert!(chan::bsp::bsp2s_break_bsp1(&line(6, 120, 85, 1), &lines[2]));
    assert!(!chan::bsp::bsp2s_break_bsp1(&line(6, 120, 95, 1), &lines[2]));
}

use chan::eigen_fx::CEigenFX;
use chan::enums::{BI_DIR, FX_TYPE, SEG_TYPE};
use chan::exception::ErrCode;
use chan::line::CLine;
use chan::seg::CSeg;
use chan::seg_config::CSegConfig;
use chan::seg_list::{check_lines_wf, find_peak_bi, CSegListChan};

/// A line from `from` to `to`, going up when `to` is higher.
fn line(idx: usize, from: i64, to: i64) -> CLine {
    let dir = if to > from { BI_DIR::UP } else { BI_DIR::DOWN };
    let (low, high) = if to > from { (from, to) } else { (to, from) };
    CLine {
        idx,
        dir,
        high,
        low,
        begin_val: from,
        end_val: to,
        is_sure: true,
        begin_klu: idx * 5,
        end_klu: idx * 5 + 5,
        begin_klu_high: if dir == BI_DIR::UP { from + 1 } else { from },
        begin_klu_low: if dir == BI_DIR::UP { from } else { from - 1 },
        end_klu_high: if dir == BI_DIR::UP { to } else { to + 1 },
        end_klu_low: if dir == BI_DIR::UP { to - 1 } else { to },
        seg_idx: None,
    }
}

/// Lines through the given turning points.
fn path(points: &[i64]) -> Vec<CLine> {
    (0..points.len() - 1).map(|i| line(i, points[i], points[i + 1])).collect()
}

#[test]
fn test_seg_new_and_check() {
    // up 10->20, down 20->15, up 15->30: a sure up segment of three lines.
    let lines = path(&[10, 20, 15, 30]);
    let s = CSeg::new(0, 0, 2, true, None, "normal", &lines).unwrap();
    assert!(s.is_sure);
    assert_eq!(s.dir, BI_DIR::UP);
    assert_eq!(s.cal_bi_cnt(), 3);
    assert_eq!(s.get_begin_val(&lines), 10);
    assert_eq!(s.get_end_val(&lines), 30);
    assert_eq!(s.amp(&lines), 20);
    assert_eq!(s.high(&lines), 30);
    assert_eq!(s.low(&lines), 10);
    assert_eq!(s.get_begin_klu(&lines), 0);
    assert_eq!(s.get_end_klu(&lines), 15);
    assert_eq!(s.get_klu_cnt(&lines), 16);
    assert_eq!(s.reason, "normal");
    // Fewer than three lines are never sure.
    let short = CSeg::new(1, 0, 1, true, Some(BI_DIR::UP), "x", &lines).unwrap();
    assert!(!short.is_sure);
}

#[test]
fn test_seg_new_refusals() {
    // A sure down segment ending above its start.
    let lines = path(&[20, 10, 25, 22, 40, 35]);
    let e = CSeg::new(3, 0, 2, true, Some(BI_DIR::DOWN), "x", &lines).err().unwrap();
    assert_eq!(e.errcode, ErrCode::SegEndValueErr);
    assert_eq!(e.msg, "下降线段起始点应该高于结束点! idx=3");
    // A sure up segment ending below its start.
    let lines2 = path(&[30, 40, 10, 20]);
    let e = CSeg::new(4, 0, 2, true, Some(BI_DIR::UP), "x", &lines2).err().unwrap();
    assert_eq!(e.msg, "上升线段起始点应该低于结束点! idx=4");
    // Start line against the end line, not the first line.
    let e = CSeg::new(0, 1, 4, true, None, "x", &lines).err().unwrap();
    assert_eq!(e.errcode, ErrCode::CommonError);
    // The same, unsure, is accepted.
    assert!(CSeg::new(0, 1, 4, false, None, "x", &lines).is_ok());
}

#[test]
fn test_seg_check_len() {
    let lines = path(&[10, 20, 15, 30]);
    let mut s = CSeg::new(0, 0, 1, false, Some(BI_DIR::UP), "x", &lines).unwrap();
    s.is_sure = true;
    let e = s.check(&lines).unwrap_err();
    assert_eq!(e.errcode, ErrCode::SegLenErr);
    assert_eq!(e.msg, "线段(0-1)长度不能小于2! idx=0");
}

#[test]
fn test_seg_to_line() {
    let lines = path(&[10, 20, 15, 30, 25]);
    let mut s = CSeg::new(0, 0, 2, true, None, "x", &lines).unwrap();
    s.set_seg_idx(7);
    let l = s.to_line(&lines);
    assert_eq!(l.idx, 0);
    assert_eq!(l.dir, BI_DIR::UP);
    assert_eq!(l.begin_val, 10);
    assert_eq!(l.end_val, 30);
    assert_eq!(l.high, 30);
    assert_eq!(l.low, 10);
    assert_eq!(l.seg_idx, Some(7));
    s.add_zs(3);
    s.add_zs(5);
    assert_eq!(s.zs_lst, vec![5, 3]);
    s.clear_zs_lst();
    assert!(s.zs_lst.is_empty());
}

#[test]
fn test_find_peak_bi() {
    // Up lines end at 20, 30 and 25.
    let lines = path(&[10, 20, 15, 30, 22, 25, 21]);
    let all: Vec<usize> = (0..lines.len()).collect();
    assert_eq!(find_peak_bi(&lines, &all, true), Some(2));
    // Down lines end at 15, 22 and 21: 15 stays lowest.
    assert_eq!(find_peak_bi(&lines, &all, false), Some(1));
    // Line 4 (25) would be skipped: the up line two before ended higher (30).
    let tail: Vec<usize> = vec![4, 5];
    assert_eq!(find_peak_bi(&lines, &tail, true), None);
    assert_eq!(find_peak_bi(&lines, &vec![], true), None);
}

#[test]
fn test_check_lines_wf() {
    let lines = path(&[10, 20, 15, 30]);
    assert!(check_lines_wf(&lines));
    let mut bad = lines.clone();
    bad[1].dir = BI_DIR::UP;
    assert!(!check_lines_wf(&bad));
    let mut bad2 = lines.clone();
    bad2[2].idx = 7;
    assert!(!check_lines_wf(&bad2));
}

#[test]
fn test_eigen_fx_finds_top() {
    // An up segment: down lines 1, 3, 5 against it. Their ranges rise, then
    // fall: the middle element is a top.
    let lines = path(&[10, 30, 20, 40, 28, 38, 25, 30]);
    let mut fx = CEigenFX::new(BI_DIR::UP, false, SEG_TYPE::BI);
    assert!(!fx.add(&lines[1], &lines));
    assert!(!fx.add(&lines[3], &lines));
    assert!(fx.add(&lines[5], &lines));
    assert_eq!(fx.ele1.as_ref().unwrap().fx, FX_TYPE::TOP);
    assert_eq!(fx.lst, vec![1, 3, 5]);
    assert_eq!(fx.get_peak_bi_idx(&lines), 2);
    assert!(fx.all_bi_is_sure(&lines));
    // No gap between the first two elements: the segment may end here.
    assert_eq!(fx.can_be_end(&lines), Some(true));
}

#[test]
fn test_seg_list_finds_sure_segment() {
    // Up to 50 through rising pullbacks, then down to 5.
    let lines = path(&[10, 30, 20, 40, 35, 50, 30, 45, 15, 25, 5]);
    let mut sl = CSegListChan::new(CSegConfig::default(), SEG_TYPE::BI);
    assert!(sl.fits_lines(&lines));
    sl.update(&lines).unwrap();
    assert!(sl.fits_lines(&lines));
    assert!(sl.len() >= 1);
    let first = &sl.lst[0];
    assert_eq!(first.start_bi, 0);
    assert_eq!(first.end_bi, 4);
    assert_eq!(first.dir, BI_DIR::UP);
    assert!(first.is_sure);
    // The segments follow each other over the lines.
    for i in 1..sl.len() {
        assert_eq!(sl.lst[i].start_bi, sl.lst[i - 1].end_bi + 1);
        assert_eq!(sl.lst[i].idx, i);
    }
    assert!(sl.exist_sure_seg());
    // Found again over the same lines, the result is the same.
    let before: Vec<(usize, usize, bool)> = sl.lst.iter().map(|s| (s.start_bi, s.end_bi, s.is_sure)).collect();
    sl.update(&lines).unwrap();
    let after: Vec<(usize, usize, bool)> = sl.lst.iter().map(|s| (s.start_bi, s.end_bi, s.is_sure)).collect();
    assert_eq!(before, after);
}

#[test]
fn test_seg_list_too_few_lines() {
    let lines = path(&[10, 20, 15]);
    let mut sl = CSegListChan::new(CSegConfig::default(), SEG_TYPE::BI);
    sl.update(&lines).unwrap();
    assert_eq!(sl.len(), 0);
    assert!(!sl.left_bi_break(&lines));
}

#[test]
fn test_seg_list_collect_all() {
    let lines = path(&[10, 20, 15, 30, 25]);
    let mut sl = CSegListChan::new(CSegConfig::new("chan".to_string(), "all".to_string()).unwrap(), SEG_TYPE::BI);
    sl.update(&lines).unwrap();
    assert_eq!(sl.len(), 1);
    assert_eq!(sl.lst[0].start_bi, 0);
    assert_eq!(sl.lst[0].end_bi, 3);
    assert_eq!(sl.lst[0].dir, BI_DIR::UP);
    assert!(!sl.lst[0].is_sure);
}

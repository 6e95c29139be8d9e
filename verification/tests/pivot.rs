use chan::enums::{ZsAlgo, ZsCombineMode, BI_DIR, SEG_TYPE};
use chan::line::CLine;
use chan::seg::CSeg;
use chan::seg_config::CSegConfig;
use chan::seg_list::CSegListChan;
use chan::zs::CZS;
use chan::zs_config::CZsConfig;
use chan::zs_list::{update_zs_in_seg, CZSList};

fn line(idx: usize, from: i64, to: i64) -> CLine {
    let dir = if to > from { BI_DIR::UP } else { BI_DIR::DOWN };
    let (low, high) = if to > from { (from, to) } else { (to, from) };
    CLine {
        idx,
        dir,
        high,
        low,
        begin_val: from,
        end_val: to,
        is_sure: true,
        begin_klu: idx * 5,
        end_klu: idx * 5 + 5,
        begin_klu_high: from,
        begin_klu_low: from,
        end_klu_high: to,
        end_klu_low: to,
        seg_idx: None,
    }
}

fn path(points: &[i64]) -> Vec<CLine> {
    (0..points.len() - 1).map(|i| line(i, points[i], points[i + 1])).collect()
}

#[test]
fn test_zs_new_range() {
    let a = line(1, 30, 20);
    let b = line(2, 20, 40);
    let z = CZS::new(Some(vec![a, b]), true);
    assert!(z.is_sure);
    assert_eq!(z.low, 20);
    assert_eq!(z.high, 30);
    assert_eq!(z.mid, 25);
    assert_eq!(z.begin, Some(5));
    assert_eq!(z.begin_bi, Some(1));
    assert_eq!(z.end, Some(15));
    assert_eq!(z.end_bi, Some(2));
    assert_eq!(z.peak_low, 20);
    assert_eq!(z.peak_high, 40);
    assert!(!z.is_one_bi_zs());
    let empty = CZS::new(None, false);
    assert_eq!(empty.begin_bi, None);
    assert_eq!(empty.peak_high, i64::MIN);
    assert_eq!(empty.peak_low, i64::MAX);
}

#[test]
fn test_zs_in_range_and_extend() {
    let lines = path(&[10, 30, 20, 40, 25, 35]);
    let mut z = CZS::new(Some(vec![lines[1], lines[2]]), false);
    assert_eq!((z.low, z.high), (20, 30));
    assert!(z.in_range(&lines[3]));
    assert!(!z.in_range(&line(9, 30, 35)));
    assert!(z.try_add_to_end(&lines[3], &lines));
    assert_eq!(z.end_bi, Some(3));
    assert_eq!((z.low, z.high), (20, 30));
    assert_eq!(z.peak_low, 20);
    assert_eq!(z.peak_high, 40);
    assert!(!z.try_add_to_end(&line(9, 31, 45), &lines));
    assert_eq!(z.end_bi, Some(3));
}

#[test]
fn test_one_line_zs_narrows() {
    let lines = path(&[10, 30, 20, 40, 25, 35]);
    let mut z = CZS::new(Some(vec![lines[1]]), false);
    assert!(z.is_one_bi_zs());
    assert!(z.try_add_to_end(&lines[3], &lines));
    // The range becomes where line 1 (20..30) and line 3 (25..40) overlap.
    assert_eq!((z.low, z.high), (25, 30));
    assert_eq!(z.end_bi, Some(3));
}

#[test]
fn test_zs_combine() {
    let lines = path(&[10, 30, 20, 40, 25, 35, 22, 50, 45, 60]);
    let mut a = CZS::new(Some(vec![lines[1], lines[2]]), true);
    let b = CZS::new(Some(vec![lines[5], lines[6]]), true);
    assert_eq!((b.low, b.high), (22, 35));
    assert!(a.combine(&b, ZsCombineMode::Zs, &lines));
    assert_eq!((a.low, a.high), (20, 35));
    assert_eq!(a.end_bi, Some(6));
    assert_eq!(a.sub_zs_lst.len(), 2);
    // A one-line pivot never combines.
    let c = CZS::new(Some(vec![lines[7]]), true);
    let mut a2 = CZS::new(Some(vec![lines[1], lines[2]]), true);
    assert!(!a2.combine(&c, ZsCombineMode::Zs, &lines));
    // Pivots starting in different segments never combine.
    let mut lines2 = lines.clone();
    lines2[5].seg_idx = Some(1);
    let b2 = CZS::new(Some(vec![lines2[5], lines2[6]]), true);
    assert!(!a2.combine(&b2, ZsCombineMode::Zs, &lines2));
    // By peaks: the extremes must overlap strictly.
    let far = CZS::new(Some(vec![lines[7], lines[8]]), true);
    assert!(!a2.combine(&far, ZsCombineMode::Peak, &lines));
}

#[test]
fn test_zs_inside_and_break() {
    let lines = path(&[10, 30, 20, 40, 25, 35, 5]);
    let mut z = CZS::new(Some(vec![lines[1], lines[2]]), true);
    let seg = CSeg::new(0, 0, 4, false, None, "x", &lines).unwrap();
    assert!(z.is_inside(&seg));
    let seg2 = CSeg::new(0, 2, 4, false, None, "x", &lines).unwrap();
    assert!(!z.is_inside(&seg2));
    z.set_bi_in(0);
    z.set_bi_out(5);
    assert_eq!(z.get_bi_in(), 0);
    assert_eq!(z.get_bi_out(), 5);
    // Line 5 goes down from 35 to 5, below the low 20.
    assert!(z.end_bi_break(None, &lines));
    assert!(!z.end_bi_break(Some(lines[3]), &lines));
    assert!(z.end_bi_break(Some(lines[4]), &lines));
    z.set_bi_lst(1, 3);
    assert_eq!(z.bi_lst, vec![1, 2]);
    let (is_peak, dist) = z.out_bi_is_peak(2, &lines);
    assert!(is_peak);
    // Ends of lines 1 and 2 (20, 40) against the out line's end 5.
    assert_eq!(dist, Some(15));
    let copy = z.make_copy();
    assert_eq!(copy.begin_bi, z.begin_bi);
    assert!(copy.sub_zs_lst.is_empty());
    assert!(copy.bi_lst.is_empty());
}

#[test]
fn test_out_bi_is_peak_counts_no_line() {
    let lines = path(&[10, 30, 20, 40, 25, 35, 5]);
    let mut z = CZS::new(Some(vec![lines[1], lines[2]]), true);
    z.set_bi_out(5);
    z.set_bi_lst(1, 3);
    // No line of the pivot comes before line 1: no distance, an infinite rate.
    assert_eq!(z.out_bi_is_peak(0, &lines), (true, None));
    // Line 2 reaches 40, above the high 35 of the up line out: it goes beyond.
    z.set_bi_out(4);
    z.set_bi_lst(1, 4);
    assert_eq!(z.out_bi_is_peak(3, &lines), (false, None));
}

#[test]
fn test_try_construct_zs() {
    let lines = path(&[10, 30, 20, 40, 25, 35]);
    let zl = CZSList::new(CZsConfig::default());
    let segs: Vec<CSeg> = Vec::new();
    assert!(zl.try_construct_zs(&vec![1], true, ZsAlgo::Normal, &lines, &segs).is_none());
    let z = zl.try_construct_zs(&vec![1, 3], true, ZsAlgo::Normal, &lines, &segs).unwrap();
    // Lines 1 (20..30) and 3 (25..40) overlap on 25..30.
    assert_eq!((z.low, z.high), (25, 30));
    assert_eq!(z.begin_bi, Some(1));
    assert_eq!(z.end_bi, Some(3));
    // Lines 0 (10..30) and 4 (25..35): only the last two are tried.
    let z = zl.try_construct_zs(&vec![0, 1, 4], false, ZsAlgo::Normal, &lines, &segs).unwrap();
    assert_eq!(z.begin_bi, Some(1));
    // No overlap.
    let far = path(&[10, 20, 15, 50, 40, 60]);
    assert!(zl.try_construct_zs(&vec![0, 4], true, ZsAlgo::Normal, &far, &segs).is_none());
}

#[test]
fn test_cal_bi_zs_in_segment() {
    // A down segment whose up lines overlap, then more lines.
    let lines = path(&[100, 60, 80, 55, 75, 40, 50, 30, 60, 45]);
    let mut sl = CSegListChan::new(CSegConfig::default(), SEG_TYPE::BI);
    sl.update(&lines).unwrap();
    assert!(sl.fits_lines(&lines));
    let mut zl = CZSList::new(CZsConfig::default());
    zl.cal_bi_zs(&lines, &sl);
    assert!(zl.fits(lines.len()));
    for z in &zl.zs_lst {
        assert!(z.begin_bi.unwrap() >= 1);
        assert!(z.low <= z.high);
    }
}

#[test]
fn test_update_zs_in_seg_records_pivots() {
    let lines = path(&[100, 60, 80, 55, 75, 40, 50, 30, 60, 45]);
    let mut sl = CSegListChan::new(CSegConfig::default(), SEG_TYPE::BI);
    sl.update(&lines).unwrap();
    let mut zl = CZSList::new(CZsConfig::default());
    zl.cal_bi_zs(&lines, &sl);
    let before: Vec<(Option<usize>, Option<usize>)> = zl.zs_lst.iter().map(|z| (z.begin_bi, z.end_bi)).collect();
    update_zs_in_seg(&lines, &mut sl, &mut zl);
    assert_eq!(zl.zs_lst.len(), before.len());
    let n = lines.len();
    for (z, be) in zl.zs_lst.iter().zip(before.iter()) {
        assert_eq!((z.begin_bi, z.end_bi), *be);
        let b = z.begin_bi.unwrap();
        let e = z.end_bi.unwrap();
        assert_eq!(z.bi_in, Some(b - 1));
        if e + 1 < n {
            assert_eq!(z.bi_out, Some(e + 1));
        }
        assert_eq!(z.bi_lst, (b..=e).collect::<Vec<usize>>());
    }
    for s in &sl.lst {
        for &k in &s.zs_lst {
            let b = zl.zs_lst[k].begin_bi.unwrap();
            assert!(s.start_bi <= b && b <= s.end_bi);
        }
        let ids: Vec<usize> = s.zs_lst.iter().copied().collect();
        for w in ids.windows(2) {
            assert!(w[0] < w[1]);
        }
    }
}

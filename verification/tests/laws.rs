use chan::analyzer::Analyzer;
use chan::cbi_config::CBiConfig;
use chan::enums::{BI_DIR, FX_TYPE};
use chan::func_util::{has_overlap, revert_bi_dir};
use chan::kline_unit::CKLineUnit;
use chan::seg_config::CSegConfig;
use chan::zs_config::CZsConfig;

fn zigzag(legs: usize, leg: usize) -> Vec<CKLineUnit> {
    let mut out = Vec::new();
    let mut p: i64 = 1000;
    let mut idx = 0;
    for l in 0..legs {
        for _ in 0..leg {
            out.push(CKLineUnit::new(idx as i64 * 60, idx, p + 2, p + 15, p, p + 13, false).unwrap());
            idx += 1;
            if l % 2 == 0 {
                p += 10;
            } else {
                p -= 10;
            }
        }
    }
    out
}

fn run(bars: &[CKLineUnit]) -> Analyzer {
    let mut a = Analyzer::new(1, CBiConfig::default_strict(), CSegConfig::default(), CZsConfig::default());
    for u in bars {
        a.add_k(*u).unwrap();
    }
    a
}

#[test]
fn test_law_revert_twice() {
    for d in [BI_DIR::UP, BI_DIR::DOWN] {
        assert_eq!(revert_bi_dir(&revert_bi_dir(&d)), d);
        assert_ne!(revert_bi_dir(&d), d);
    }
}

#[test]
fn test_law_overlap_symmetric() {
    let cases = [(1, 3, 2, 4), (1, 2, 3, 4), (1, 3, 3, 4), (5, 9, 6, 7), (-4, -1, -2, 0)];
    for (l1, h1, l2, h2) in cases {
        for eq in [false, true] {
            assert_eq!(has_overlap(l1, h1, l2, h2, eq), has_overlap(l2, h2, l1, h1, eq));
        }
    }
}

#[test]
fn test_law_valid_bar_unchanged_by_check() {
    for fix in [false, true] {
        let mut u = CKLineUnit::new(7, 2, 10, 12, 9, 11, false).unwrap();
        let before = u;
        assert!(u.check(fix).is_ok());
        assert_eq!(u, before);
    }
}

#[test]
fn test_law_fractal_extremes() {
    let a = run(&zigzag(6, 5));
    let ks = &a.candle_list.lst;
    for i in 1..ks.len().saturating_sub(1) {
        let (p, k, n) = (&ks[i - 1], &ks[i], &ks[i + 1]);
        if k.fx == FX_TYPE::TOP {
            assert!(k.high > p.high && k.high > n.high && k.low > p.low && k.low > n.low);
        } else if k.fx == FX_TYPE::BOTTOM {
            assert!(k.high < p.high && k.high < n.high && k.low < p.low && k.low < n.low);
        }
    }
}

#[test]
fn test_law_segments_tile_and_sure_segments() {
    let a = run(&zigzag(14, 6));
    let lines = a.bi_list.to_lines(&a.candle_list);
    let segs = &a.seg_list.lst;
    assert!(!segs.is_empty());
    let last_end = segs[segs.len() - 1].end_bi;
    for j in 0..=last_end {
        let n = segs.iter().filter(|s| s.start_bi <= j && j <= s.end_bi).count();
        assert_eq!(n, 1);
    }
    for s in segs.iter().filter(|s| s.is_sure) {
        assert!(s.end_bi - s.start_bi + 1 >= 3);
        assert!(s.eigen_fx.as_ref().unwrap().is_found());
        let (b, e) = (s.get_begin_val(&lines), s.get_end_val(&lines));
        if s.dir == BI_DIR::UP {
            assert!(e >= b);
        } else {
            assert!(e <= b);
        }
    }
}

#[test]
fn test_law_line_directions_alternate() {
    let a = run(&zigzag(8, 6));
    let lines = a.bi_list.to_lines(&a.candle_list);
    for i in 0..lines.len() {
        for j in i..lines.len() {
            assert_eq!(lines[i].dir == lines[j].dir, (j - i) % 2 == 0);
        }
    }
}

#[test]
fn test_law_pivot_within_peaks() {
    let a = run(&zigzag(14, 6));
    let n = a.bi_list.bi_list.len();
    assert!(a.zs_list.fits(n));
    for z in &a.zs_list.zs_lst {
        assert!(z.peak_low <= z.low);
        assert!(z.high <= z.peak_high);
        let b = z.begin_bi.unwrap();
        assert!(1 <= b && b < n);
        assert!(z.end_bi.unwrap() < n);
    }
}

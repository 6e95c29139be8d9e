use chan::analyzer::Analyzer;
use chan::bi_list::{BiListTrait, CBiList};
use chan::cbi_config::CBiConfig;
use chan::enums::{BI_DIR, FX_TYPE};
use chan::kline_unit::CKLineUnit;
use chan::seg_config::CSegConfig;
use chan::zs_config::CZsConfig;

/// Bars going up and down in legs of `leg` bars, each bar 10 above or below
/// the one before, so that no bar contains its neighbour.
fn zigzag(legs: usize, leg: usize) -> Vec<CKLineUnit> {
    let mut out = Vec::new();
    let mut p: i64 = 1000;
    let mut idx = 0;
    for l in 0..legs {
        for _ in 0..leg {
            let u = CKLineUnit::new(idx as i64 * 60, idx, p + 2, p + 15, p, p + 13, false).unwrap();
            out.push(u);
            idx += 1;
            if l % 2 == 0 {
                p += 10;
            } else {
                p -= 10;
            }
        }
    }
    out
}

fn run(bars: &[CKLineUnit]) -> Analyzer {
    let mut a = Analyzer::new(1, CBiConfig::default_strict(), CSegConfig::default(), CZsConfig::default());
    for u in bars {
        a.add_k(*u).unwrap();
    }
    a
}

#[test]
fn test_strokes_alternate_and_chain() {
    let a = run(&zigzag(8, 7));
    let bis = &a.bi_list.bi_list;
    assert!(bis.len() >= 4);
    for i in 0..bis.len() {
        assert_eq!(bis[i].idx, i);
        if i + 1 < bis.len() {
            assert!(bis[i].is_sure);
            assert_ne!(bis[i].dir, bis[i + 1].dir);
            assert_eq!(bis[i + 1].begin_klc, bis[i].end_klc);
        }
    }
    // A sure stroke starts at the fractal its direction calls for.
    for b in bis.iter().filter(|b| b.is_sure) {
        let fx = a.candle_list.lst[b.begin_klc].fx;
        if b.dir == BI_DIR::UP {
            assert_eq!(fx, FX_TYPE::BOTTOM);
            assert_eq!(a.candle_list.lst[b.end_klc].fx, FX_TYPE::TOP);
        } else {
            assert_eq!(fx, FX_TYPE::TOP);
            assert_eq!(a.candle_list.lst[b.end_klc].fx, FX_TYPE::BOTTOM);
        }
    }
}

#[test]
fn test_segments_and_pivots_fit_strokes() {
    let a = run(&zigzag(12, 6));
    let lines = a.bi_list.to_lines(&a.candle_list);
    assert_eq!(lines.len(), a.bi_list.bi_list.len());
    assert!(a.seg_list.fits_lines(&lines));
    assert!(a.zs_list.fits(lines.len()));
    // Each stroke knows its segment.
    for (j, b) in a.bi_list.bi_list.iter().enumerate() {
        let s = b.seg_idx.unwrap();
        if s < a.seg_list.lst.len() {
            let seg = &a.seg_list.lst[s];
            assert!(seg.start_bi <= j && j <= seg.end_bi);
        } else {
            assert_eq!(s, a.seg_list.lst.len());
        }
    }
}

#[test]
fn test_bars_kept_in_order() {
    let bars = zigzag(3, 5);
    let a = run(&bars);
    assert_eq!(a.candle_list.units.len(), bars.len());
    for (i, u) in a.candle_list.units.iter().enumerate() {
        assert_eq!(u.idx, i);
        assert_eq!(u.high, bars[i].high);
    }
}

#[test]
fn test_no_bars_no_strokes() {
    let a = run(&[]);
    assert!(a.bi_list.bi_list.is_empty());
    assert!(a.seg_list.lst.is_empty());
    assert!(a.zs_list.zs_lst.is_empty());
}

#[test]
fn test_bi_list_read_by_position() {
    let empty = CBiList::new(CBiConfig::default_strict());
    assert!(BiListTrait::get(&empty, 0).is_none());
    assert!(empty.items().is_empty());
    let a = run(&zigzag(8, 7));
    let n = a.bi_list.bi_list.len();
    assert!(n >= 4);
    assert_eq!(a.bi_list.items().len(), n);
    let second = BiListTrait::get(&a.bi_list, 1).unwrap();
    assert_eq!(second.idx, 1);
    assert_eq!(second.begin_klc, a.bi_list.bi_list[0].end_klc);
    assert!(BiListTrait::get(&a.bi_list, n).is_none());
}

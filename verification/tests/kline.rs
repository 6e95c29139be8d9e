use chan::enums::{FX_TYPE, KLINE_DIR};
use chan::exception::ErrCode;
use chan::kline_list::CKLineList;
use chan::kline_unit::CKLineUnit;

fn bar(idx: usize, low: i64, high: i64) -> CKLineUnit {
    CKLineUnit::new(idx as i64 * 60, idx, low + 1, high, low, high - 1, false).unwrap()
}

#[test]
fn test_kline_unit_checks_prices() {
    let e = CKLineUnit::new(0, 0, 10, 12, 11, 9, false).unwrap_err();
    assert_eq!(e.errcode, ErrCode::KlDataInvalid);
    assert_eq!(e.msg, "0 low price=11 is not min of [low=11, open=10, high=12, close=9]");
    let e = CKLineUnit::new(5, 0, 10, 11, 9, 12, false).unwrap_err();
    assert_eq!(e.msg, "5 high price=11 is not max of [low=9, open=10, high=11, close=12]");
    let u = CKLineUnit::new(0, 3, 10, 12, 11, 9, true).unwrap();
    assert_eq!(u.low, 9);
    assert_eq!(u.high, 12);
    assert_eq!(u.idx, 3);
    let u = CKLineUnit::new(0, 0, 10, 11, 9, 12, true).unwrap();
    assert_eq!(u.high, 12);
    assert_eq!(u.low(), 9);
    assert_eq!(u.high(), 12);
}

#[test]
fn test_inside_bar_is_combined() {
    let mut kl = CKLineList::new();
    // The first bar starts the first K-line: nothing before it to settle.
    assert!(!kl.update_candle(bar(0, 100, 110)));
    assert!(kl.update_candle(bar(1, 105, 120)));
    // Inside the previous K-line going up: combined, keeping the higher extremes.
    assert!(!kl.update_candle(bar(2, 108, 118)));
    assert_eq!(kl.len(), 2);
    assert_eq!(kl.lst[1].high, 120);
    assert_eq!(kl.lst[1].low, 108);
    assert_eq!(kl.lst[1].lst, vec![1, 2]);
    assert_eq!(kl.lst[1].dir, KLINE_DIR::UP);
}

#[test]
fn test_top_fractal_found() {
    let mut kl = CKLineList::new();
    kl.update_candle(bar(0, 100, 110));
    kl.update_candle(bar(1, 105, 120));
    kl.update_candle(bar(2, 98, 115));
    assert_eq!(kl.len(), 3);
    assert_eq!(kl.lst[1].fx, FX_TYPE::TOP);
    assert_eq!(kl.lst[2].dir, KLINE_DIR::DOWN);
    kl.update_candle(bar(3, 101, 117));
    assert_eq!(kl.lst[2].fx, FX_TYPE::BOTTOM);
    // Neighbours never contain each other.
    for i in 1..kl.len() {
        let (a, b) = (&kl.lst[i - 1], &kl.lst[i]);
        assert!((b.high > a.high && b.low > a.low) || (b.high < a.high && b.low < a.low));
    }
}

#[test]
fn test_peak_bar_of_combined_kline() {
    let mut kl = CKLineList::new();
    kl.update_candle(bar(0, 100, 110));
    kl.update_candle(bar(1, 105, 120));
    kl.update_candle(bar(2, 108, 120));
    // Both bars reach the high: the last one counts.
    assert_eq!(kl.get_peak_klu(1, true), Some(2));
    assert_eq!(kl.get_peak_klu(1, false), Some(2));
    assert_eq!(kl.get_klu_max_high(1), 120);
}

use chan::enums::{EqualMode, BI_DIR, KLINE_DIR, KL_TYPE};
use chan::func_util::{
    check_kltype_order, has_overlap, kltype_lt_day, kltype_lte_day, revert_bi_dir,
    slice_has_overlap, test_combine, HighLow,
};

#[test]
fn test_revert_bi_dir() {
    assert_eq!(revert_bi_dir(&BI_DIR::UP), BI_DIR::DOWN);
    assert_eq!(revert_bi_dir(&BI_DIR::DOWN), BI_DIR::UP);
}

#[test]
fn test_has_overlap() {
    assert!(has_overlap(1, 3, 2, 4, false));
    assert!(has_overlap(1, 3, 2, 4, true));
    assert!(!has_overlap(1, 2, 3, 4, false));
    assert!(!has_overlap(1, 2, 3, 4, true));
    assert!(has_overlap(1, 3, 3, 4, true));
    assert!(!has_overlap(1, 3, 3, 4, false));
}

#[test]
fn test_kltype_lt_day() {
    assert!(kltype_lt_day(&KL_TYPE::K_1M));
    assert!(!kltype_lt_day(&KL_TYPE::K_DAY));
    assert!(!kltype_lt_day(&KL_TYPE::K_WEEK));
}

#[test]
fn test_kltype_lte_day() {
    assert!(kltype_lte_day(&KL_TYPE::K_1M));
    assert!(kltype_lte_day(&KL_TYPE::K_DAY));
    assert!(!kltype_lte_day(&KL_TYPE::K_WEEK));
}

#[test]
fn test_check_kltype_order() {
    let valid_order = vec![KL_TYPE::K_WEEK, KL_TYPE::K_DAY, KL_TYPE::K_1M];
    assert!(check_kltype_order(&valid_order).is_ok());
    let invalid_order = vec![KL_TYPE::K_DAY, KL_TYPE::K_WEEK, KL_TYPE::K_1M];
    assert_eq!(
        check_kltype_order(&invalid_order),
        Err("lv_list的顺序必须从大级别到小级别".to_string())
    );
    let equal_order = vec![KL_TYPE::K_DAY, KL_TYPE::K_DAY];
    assert!(check_kltype_order(&equal_order).is_err());
    assert!(check_kltype_order(&[KL_TYPE::K_1S]).is_ok());
}

#[test]
fn test_slice_has_overlap() {
    let a = [HighLow { high: 10, low: 5 }, HighLow { high: 8, low: 6 }, HighLow { high: 12, low: 7 }];
    assert!(slice_has_overlap(&a));
    let b = [HighLow { high: 10, low: 5 }, HighLow { high: 4, low: 1 }];
    assert!(!slice_has_overlap(&b));
    let c = [HighLow { high: 10, low: 5 }, HighLow { high: 12, low: 10 }];
    assert!(!slice_has_overlap(&c));
}

#[test]
fn test_test_combine_dirs() {
    let a = HighLow { high: 10, low: 5 };
    assert_eq!(test_combine(&a, &HighLow { high: 12, low: 6 }, false, None), KLINE_DIR::UP);
    assert_eq!(test_combine(&a, &HighLow { high: 9, low: 4 }, false, None), KLINE_DIR::DOWN);
    assert_eq!(test_combine(&a, &HighLow { high: 9, low: 6 }, false, None), KLINE_DIR::COMBINE);
    assert_eq!(test_combine(&a, &HighLow { high: 9, low: 6 }, true, None), KLINE_DIR::INCLUDED);
    assert_eq!(test_combine(&a, &HighLow { high: 11, low: 4 }, true, None), KLINE_DIR::COMBINE);
    assert_eq!(
        test_combine(&a, &HighLow { high: 10, low: 5 }, true, Some(EqualMode::TopEqual)),
        KLINE_DIR::INCLUDED
    );
}

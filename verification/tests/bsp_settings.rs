use chan::bsp_settings::{
    macd_algo_of, parse_count, parse_flag, parse_rate, set_bsp_config, type_names, CPointSettings,
};
use chan::enums::{BSP_TYPE, MACD_ALGO};
use chan::exception::{CChanException, ErrCode};

fn err_of<T>(r: Result<T, CChanException>) -> CChanException {
    match r {
        Ok(_) => panic!("expected an error"),
        Err(e) => e,
    }
}

fn pairs(v: &[(&str, &str)]) -> Vec<(String, String)> {
    v.iter().map(|(k, x)| (k.to_string(), x.to_string())).collect()
}

#[test]
fn test_parse_flag() {
    assert_eq!(parse_flag("true"), Some(true));
    assert_eq!(parse_flag("false"), Some(false));
    assert_eq!(parse_flag("True"), None);
    assert_eq!(parse_flag("yes"), None);
}

#[test]
fn test_parse_count() {
    assert_eq!(parse_count("12"), Some(12));
    assert_eq!(parse_count("0"), Some(0));
    assert_eq!(parse_count("-1"), None);
    assert_eq!(parse_count("1.5"), None);
    assert_eq!(parse_count("inf"), None);
    assert_eq!(parse_count(""), None);
}

#[test]
fn test_parse_rate() {
    assert_eq!(parse_rate("inf"), Some(None));
    assert_eq!(parse_rate("+infinity"), Some(None));
    assert_eq!(parse_rate("0.9999"), Some(Some(99_990_000)));
    assert_eq!(parse_rate("2"), Some(Some(200_000_000)));
    assert_eq!(parse_rate("-0.5"), Some(Some(-50_000_000)));
    assert_eq!(parse_rate("abc"), None);
}

#[test]
fn test_macd_algo_names() {
    assert_eq!(macd_algo_of("peak"), Some(MACD_ALGO::PEAK));
    assert_eq!(macd_algo_of("full_area"), Some(MACD_ALGO::FULL_AREA));
    assert_eq!(macd_algo_of("turnrate_avg"), Some(MACD_ALGO::AMOUNT_AVG));
    assert_eq!(macd_algo_of("volumn_avg"), Some(MACD_ALGO::VOLUMN_AVG));
    assert_eq!(macd_algo_of("median"), None);
}

#[test]
fn test_type_names_trimmed() {
    assert_eq!(type_names("1, 2s ,3a"), vec!["1".to_string(), "2s".to_string(), "3a".to_string()]);
    assert_eq!(type_names("1p"), vec!["1p".to_string()]);
}

#[test]
fn test_point_settings_new_and_set() {
    let mut p = CPointSettings::new(&pairs(&[("min_zs_cnt", "2"), ("bs_type", "1,3b")])).unwrap();
    assert_eq!(p.conf.min_zs_cnt, 2);
    assert_eq!(p.conf.target_types, vec![BSP_TYPE::T1, BSP_TYPE::T3B]);
    assert_eq!(p.macd_algo, MACD_ALGO::SLOPE);
    p.set("macd_algo", "area").unwrap();
    assert_eq!(p.macd_algo, MACD_ALGO::AREA);
    p.set("max_bsp2s_lv", "3").unwrap();
    assert_eq!(p.conf.max_bsp2s_lv, Some(3));
    p.set("max_bsp2s_lv", "inf").unwrap();
    assert_eq!(p.conf.max_bsp2s_lv, None);
    let e = err_of(p.set("bs1_peak", "maybe"));
    assert_eq!(e.errcode, ErrCode::ParaError);
    assert_eq!(e.msg, "bad value for bs1_peak: maybe");
    let e = err_of(p.set("colour", "red"));
    assert_eq!(e.msg, "bad value for colour: red");
    p.set("bs_type", "2s").unwrap();
    p.parse_target_type().unwrap();
    assert_eq!(p.conf.target_types, vec![BSP_TYPE::T2S]);
}

#[test]
fn test_point_settings_rate_limit() {
    let e = err_of(CPointSettings::new(&pairs(&[("max_bs2_rate", "1.5")])));
    assert_eq!(e.errcode, ErrCode::ParaError);
    assert_eq!(e.msg, "max_bs2_rate must not exceed 1");
    let e = err_of(CPointSettings::new(&pairs(&[("bs_type", "1,9")])));
    assert_eq!(e.msg, "bad value for bs_type: 9");
}

#[test]
fn test_set_bsp_config_defaults() {
    let (bs, seg) = set_bsp_config(&Vec::new()).unwrap();
    for p in [&bs.b_conf, &bs.s_conf] {
        assert_eq!(p.divergence_rate, None);
        assert_eq!(p.macd_algo, MACD_ALGO::PEAK);
        assert_eq!(p.conf.min_zs_cnt, 1);
        assert!(p.conf.bsp1_only_multibi_zs);
        assert_eq!(p.conf.max_bs2_rate, 99_990_000);
        assert!(p.conf.bs1_peak);
        assert_eq!(
            p.conf.target_types,
            vec![BSP_TYPE::T1, BSP_TYPE::T1P, BSP_TYPE::T2, BSP_TYPE::T2S, BSP_TYPE::T3A, BSP_TYPE::T3B]
        );
        assert!(p.conf.bsp2_follow_1 && p.conf.bsp3_follow_1);
        assert!(!p.conf.bsp3_peak && !p.conf.bsp2s_follow_2 && !p.conf.strict_bsp3);
        assert_eq!(p.conf.max_bsp2s_lv, None);
    }
    for p in [&seg.b_conf, &seg.s_conf] {
        assert_eq!(p.macd_algo, MACD_ALGO::SLOPE);
        assert!(!p.conf.bsp1_only_multibi_zs);
        assert_eq!(p.conf.min_zs_cnt, 1);
        assert!(p.conf.bs1_peak);
    }
}

#[test]
fn test_set_bsp_config_routing() {
    let conf = pairs(&[
        ("divergence_rate", "0.5"),
        ("min_zs_cnt-buy", "3"),
        ("bs1_peak-sell", "false"),
        ("macd_algo-seg", "area"),
        ("strict_bsp3-segbuy", "true"),
        ("bs_type-segsell", "1,2"),
    ]);
    let (bs, seg) = set_bsp_config(&conf).unwrap();
    assert_eq!(bs.b_conf.divergence_rate, Some(50_000_000));
    assert_eq!(seg.s_conf.divergence_rate, Some(50_000_000));
    assert_eq!(bs.b_conf.conf.min_zs_cnt, 3);
    assert_eq!(bs.s_conf.conf.min_zs_cnt, 1);
    assert!(bs.b_conf.conf.bs1_peak);
    assert!(!bs.s_conf.conf.bs1_peak);
    assert_eq!(seg.b_conf.macd_algo, MACD_ALGO::AREA);
    assert_eq!(seg.s_conf.macd_algo, MACD_ALGO::AREA);
    assert_eq!(bs.b_conf.macd_algo, MACD_ALGO::PEAK);
    assert!(seg.b_conf.conf.strict_bsp3);
    assert!(!seg.s_conf.conf.strict_bsp3);
    assert_eq!(seg.s_conf.conf.target_types, vec![BSP_TYPE::T1, BSP_TYPE::T2]);
    assert_eq!(seg.b_conf.conf.target_types.len(), 6);
}

#[test]
fn test_set_bsp_config_errors() {
    let e = err_of(set_bsp_config(&pairs(&[("colour", "red")])));
    assert_eq!(e.errcode, ErrCode::ParaError);
    assert_eq!(e.msg, "unknown para = colour");
    let e = err_of(set_bsp_config(&pairs(&[("min_zs_cnt-buy", "x")])));
    assert_eq!(e.msg, "bad value for min_zs_cnt: x");
    let e = err_of(set_bsp_config(&pairs(&[("bs_type-sell", "1,4")])));
    assert_eq!(e.msg, "bad value for bs_type: 4");
    let e = err_of(set_bsp_config(&pairs(&[("max_bs2_rate", "2")])));
    assert_eq!(e.msg, "max_bs2_rate must not exceed 1");
}

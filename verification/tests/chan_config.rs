use chan::chan_config::{CChanConfig, ConfValue};
use chan::enums::{ZsAlgo, ZsCombineMode, FX_CHECK_METHOD, LEFT_SEG_METHOD, MACD_ALGO};
use chan::exception::{CChanException, ErrCode};

fn text(k: &str, v: &str) -> (String, ConfValue) {
    (k.to_string(), ConfValue::Text(v.to_string()))
}

fn err_of<T>(r: Result<T, CChanException>) -> CChanException {
    match r {
        Ok(_) => panic!("expected an error"),
        Err(e) => e,
    }
}

fn ok_of(r: Result<CChanConfig, CChanException>) -> CChanConfig {
    match r {
        Ok(c) => c,
        Err(e) => panic!("unexpected error: {}", e.msg),
    }
}

#[test]
fn test_chan_config_defaults() {
    let c = ok_of(CChanConfig::new(&Vec::new()));
    assert_eq!(c.bi_conf.bi_algo, "normal");
    assert!(c.bi_conf.is_strict);
    assert_eq!(c.bi_conf.bi_fx_check, FX_CHECK_METHOD::STRICT);
    assert!(!c.bi_conf.gap_as_kl);
    assert!(c.bi_conf.bi_end_is_peak && c.bi_conf.bi_allow_sub_peak);
    assert_eq!(c.seg_conf.seg_algo, "chan");
    assert_eq!(c.seg_conf.left_method, LEFT_SEG_METHOD::PEAK);
    assert!(c.zs_conf.need_combine && !c.zs_conf.one_bi_zs);
    assert_eq!(c.zs_conf.zs_combine_mode, ZsCombineMode::Zs);
    assert_eq!(c.zs_conf.zs_algo, ZsAlgo::Normal);
    assert!(!c.trigger_step && c.kl_data_check && c.print_warning && !c.print_err_time);
    assert!(!c.auto_skip_illegal_sub_lv);
    assert_eq!((c.skip_step, c.max_kl_misalgin_cnt, c.max_kl_inconsistent_cnt), (0, 2, 5));
    assert!(c.mean_metrics.is_empty() && c.trend_metrics.is_empty());
    assert_eq!(
        c.macd_config,
        vec![("fast".to_string(), 12), ("slow".to_string(), 26), ("signal".to_string(), 9)]
    );
    assert!(!c.cal_demark && !c.cal_rsi && !c.cal_kdj);
    assert_eq!((c.rsi_cycle, c.kdj_cycle, c.boll_n), (14, 9, 20));
    assert_eq!(c.demark_config.len(), 7);
    assert_eq!(c.demark_config[0], ("demark_len".to_string(), "9".to_string()));
    assert_eq!(c.bs_point_conf.b_conf.macd_algo, MACD_ALGO::PEAK);
    assert_eq!(c.seg_bs_point_conf.s_conf.macd_algo, MACD_ALGO::SLOPE);
    assert_eq!(c.bs_point_conf.s_conf.conf.max_bs2_rate, 99_990_000);
}

#[test]
fn test_chan_config_given_values() {
    let conf = vec![
        text("bi_strict", "false"),
        text("bi_fx_check", "half"),
        text("left_seg_method", "all"),
        text("zs_algo", "over_seg"),
        text("skip_step", "3"),
        text("cal_rsi", "true"),
        ("mean_metrics".to_string(), ConfValue::List(vec!["5".to_string(), "10".to_string()])),
        ("macd".to_string(), ConfValue::Table(vec![("fast".to_string(), "6".to_string())])),
        text("divergence_rate", "0.8"),
        text("min_zs_cnt-segbuy", "2"),
    ];
    let c = ok_of(CChanConfig::new(&conf));
    assert!(!c.bi_conf.is_strict);
    assert_eq!(c.bi_conf.bi_fx_check, FX_CHECK_METHOD::HALF);
    assert_eq!(c.seg_conf.left_method, LEFT_SEG_METHOD::ALL);
    assert_eq!(c.zs_conf.zs_algo, ZsAlgo::OverSeg);
    assert_eq!(c.skip_step, 3);
    assert!(c.cal_rsi);
    assert_eq!(c.mean_metrics, vec![5, 10]);
    assert_eq!(c.macd_config, vec![("fast".to_string(), 6)]);
    assert_eq!(c.bs_point_conf.b_conf.divergence_rate, Some(80_000_000));
    assert_eq!(c.seg_bs_point_conf.b_conf.conf.min_zs_cnt, 2);
    assert_eq!(c.seg_bs_point_conf.s_conf.conf.min_zs_cnt, 1);
}

#[test]
fn test_chan_config_errors() {
    let e = err_of(CChanConfig::new(&vec![text("skip_step", "-1")]));
    assert_eq!(e.errcode, ErrCode::ParaError);
    assert_eq!(e.msg, "bad value for skip_step: -1");
    let e = err_of(CChanConfig::new(&vec![text("mean_metrics", "5")]));
    assert_eq!(e.msg, "bad value for mean_metrics: 5");
    let e = err_of(CChanConfig::new(&vec![("cal_kdj".to_string(), ConfValue::List(Vec::new()))]));
    assert_eq!(e.msg, "bad value for cal_kdj: a list");
    let e = err_of(CChanConfig::new(&vec![text("bi_fx_check", "none")]));
    assert_eq!(e.msg, "unknown bi_fx_check=none");
    let e = err_of(CChanConfig::new(&vec![text("left_seg_method", "middle")]));
    assert_eq!(e.msg, "unknown left_seg_method=middle");
    let e = err_of(CChanConfig::new(&vec![text("zs_algo", "fast")]));
    assert_eq!(e.msg, "unknown zs settings: zs / fast");
    let e = err_of(CChanConfig::new(&vec![text("colour", "red")]));
    assert_eq!(e.msg, "unknown para = colour");
    let e = err_of(CChanConfig::new(&vec![("bs_type".to_string(), ConfValue::List(Vec::new()))]));
    assert_eq!(e.msg, "bad value for bs_type: a list");
    let e = err_of(CChanConfig::new(&vec![text("macd_algo-buy", "median")]));
    assert_eq!(e.msg, "bad value for macd_algo: median");
}

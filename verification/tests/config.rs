use chan::bi_config;
use chan::cbi_config::CBiConfig;
use chan::conf_keys::{route_bsp_key, BspKeyTarget};
use chan::enums::{ZsAlgo, ZsCombineMode, BSP_TYPE, DATA_FIELD, FX_CHECK_METHOD, LEFT_SEG_METHOD};
use chan::exception::ErrCode;
use chan::seg_config::CSegConfig;
use chan::zs_config::{CZSConfig, CZsConfig};

#[test]
fn test_seg_config_new() {
    let c = CSegConfig::new("chan".to_string(), "peak".to_string()).unwrap();
    assert_eq!(c.seg_algo, "chan");
    assert_eq!(c.left_method, LEFT_SEG_METHOD::PEAK);
    let c = CSegConfig::new("chan".to_string(), "all".to_string()).unwrap();
    assert_eq!(c.left_method, LEFT_SEG_METHOD::ALL);
    let e = CSegConfig::new("chan".to_string(), "middle".to_string()).unwrap_err();
    assert_eq!(e.errcode, ErrCode::ParaError);
    assert_eq!(e.msg, "unknown left_seg_method=middle");
}

#[test]
fn test_seg_config_default() {
    let c = CSegConfig::default();
    assert_eq!(c.seg_algo, "chan");
    assert_eq!(c.left_method, LEFT_SEG_METHOD::PEAK);
}

#[test]
fn test_zs_config_new_defaults() {
    let c = CZSConfig::new(None, None, None, None);
    assert!(c.need_combine);
    assert_eq!(c.zs_combine_mode, "zs");
    assert!(!c.one_bi_zs);
    assert_eq!(c.zs_algo, "normal");
    let c = CZSConfig::new(Some(false), Some("peak".to_string()), Some(true), Some("over_seg".to_string()));
    assert!(!c.need_combine);
    assert_eq!(c.zs_combine_mode, "peak");
    assert!(c.one_bi_zs);
    assert_eq!(c.zs_algo, "over_seg");
    let d = CZSConfig::default();
    assert!(d.need_combine);
    assert_eq!(d.zs_algo, "normal");
}

#[test]
fn test_typed_zs_config_default() {
    let c = CZsConfig::default();
    assert!(c.need_combine);
    assert_eq!(c.zs_combine_mode, ZsCombineMode::Zs);
    assert!(!c.one_bi_zs);
    assert_eq!(c.zs_algo, ZsAlgo::Normal);
}

#[test]
fn test_bi_config_by_name() {
    let c = bi_config::CBiConfig::new(None, None, None, None, None, None).unwrap();
    assert_eq!(c.bi_algo, "normal");
    assert!(c.is_strict);
    assert_eq!(c.bi_fx_check, FX_CHECK_METHOD::HALF);
    assert!(c.gap_as_kl);
    assert!(c.bi_end_is_peak);
    assert!(c.bi_allow_sub_peak);
    let c = bi_config::CBiConfig::new(
        Some("fx".to_string()),
        Some(false),
        Some("totally".to_string()),
        Some(false),
        Some(false),
        Some(false),
    )
    .unwrap();
    assert_eq!(c.bi_algo, "fx");
    assert!(!c.is_strict);
    assert_eq!(c.bi_fx_check, FX_CHECK_METHOD::TOTALLY);
    assert!(!c.gap_as_kl && !c.bi_end_is_peak && !c.bi_allow_sub_peak);
    assert_eq!(
        bi_config::CBiConfig::new(None, None, Some("strict".to_string()), None, None, None).unwrap().bi_fx_check,
        FX_CHECK_METHOD::STRICT
    );
    assert_eq!(
        bi_config::CBiConfig::new(None, None, Some("loss".to_string()), None, None, None).unwrap().bi_fx_check,
        FX_CHECK_METHOD::LOSS
    );
    let e = bi_config::CBiConfig::new(None, None, Some("bad".to_string()), None, None, None).unwrap_err();
    assert_eq!(e.errcode, ErrCode::ParaError);
    assert_eq!(e.msg, "unknown bi_fx_check=bad");
}

#[test]
fn test_bi_config_presets() {
    let s = CBiConfig::default_strict();
    assert_eq!(s.bi_fx_check, FX_CHECK_METHOD::STRICT);
    assert!(s.is_strict && s.bi_end_is_peak && !s.gap_as_kl);
    let l = CBiConfig::default_loss();
    assert_eq!(l.bi_fx_check, FX_CHECK_METHOD::LOSS);
    let n = CBiConfig::new(false, FX_CHECK_METHOD::HALF, true, false, true);
    assert_eq!(n.bi_algo, "normal");
    assert!(!n.is_strict);
    assert!(n.gap_as_kl);
    assert!(!n.bi_end_is_peak);
}

#[test]
fn test_bsp_main_type() {
    assert_eq!(BSP_TYPE::T1.main_type(), "1");
    assert_eq!(BSP_TYPE::T1P.main_type(), "1");
    assert_eq!(BSP_TYPE::T2.main_type(), "2");
    assert_eq!(BSP_TYPE::T2S.main_type(), "2");
    assert_eq!(BSP_TYPE::T3A.main_type(), "3");
    assert_eq!(BSP_TYPE::T3B.main_type(), "3");
}

#[test]
fn test_zs_config_typed() {
    let c = CZSConfig::new(None, None, None, None).typed().unwrap();
    assert!(c.need_combine);
    assert_eq!(c.zs_combine_mode, ZsCombineMode::Zs);
    assert_eq!(c.zs_algo, ZsAlgo::Normal);
    let c = CZSConfig::new(Some(false), Some("peak".to_string()), Some(true), Some("over_seg".to_string())).typed().unwrap();
    assert!(!c.need_combine);
    assert!(c.one_bi_zs);
    assert_eq!(c.zs_combine_mode, ZsCombineMode::Peak);
    assert_eq!(c.zs_algo, ZsAlgo::OverSeg);
    assert!(CZSConfig::new(None, Some("both".to_string()), None, None).typed().is_none());
    assert!(CZSConfig::new(None, None, None, Some("fast".to_string())).typed().is_none());
}

#[test]
fn test_data_field_names() {
    assert_eq!(DATA_FIELD::field_time(), "time_key");
    assert_eq!(DATA_FIELD::field_open(), "open");
    assert_eq!(DATA_FIELD::field_high(), "high");
    assert_eq!(DATA_FIELD::field_low(), "low");
    assert_eq!(DATA_FIELD::field_close(), "close");
    assert_eq!(DATA_FIELD::field_volume(), "volume");
    assert_eq!(DATA_FIELD::field_turnover(), "turnover");
    assert_eq!(DATA_FIELD::field_turnrate(), "turnover_rate");
}

#[test]
fn test_route_bsp_key() {
    assert_eq!(route_bsp_key("min_zs_cnt-buy"), (BspKeyTarget::Buy, "min_zs_cnt".to_string()));
    assert_eq!(route_bsp_key("bs_type-sell"), (BspKeyTarget::Sell, "bs_type".to_string()));
    assert_eq!(route_bsp_key("bs1_peak-segbuy"), (BspKeyTarget::SegBuy, "bs1_peak".to_string()));
    assert_eq!(route_bsp_key("bs1_peak-segsell"), (BspKeyTarget::SegSell, "bs1_peak".to_string()));
    assert_eq!(route_bsp_key("macd_algo-seg"), (BspKeyTarget::Seg, "macd_algo".to_string()));
    assert_eq!(route_bsp_key("x-buy-buy"), (BspKeyTarget::Buy, "x".to_string()));
    assert_eq!(route_bsp_key("strict_bsp3"), (BspKeyTarget::Both, "strict_bsp3".to_string()));
    assert_eq!(route_bsp_key("colour"), (BspKeyTarget::Unknown, "colour".to_string()));
}

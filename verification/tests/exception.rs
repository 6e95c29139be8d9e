use chan::exception::{CChanException, ErrCode};

#[test]
fn test_chan_exception() {
    let e = CChanException::new("Config error".to_string(), ErrCode::ConfigError);
    assert_eq!(e.errcode, ErrCode::ConfigError);
    assert_eq!(e.msg, "Config error");
    assert!(e.is_chan_err());
    assert!(!e.is_kldata_err());

    let e2 = CChanException::new("KL data invalid".to_string(), ErrCode::KlDataInvalid);
    assert_eq!(e2.errcode, ErrCode::KlDataInvalid);
    assert_eq!(e2.msg, "KL data invalid");
    assert!(!e2.is_chan_err());
    assert!(e2.is_kldata_err());
}

#[test]
fn test_err_code_numbers() {
    assert_eq!(ErrCode::ChanErrBegin.code(), 0);
    assert_eq!(ErrCode::SegEndValueErr.code(), 7);
    assert_eq!(ErrCode::ConfigError.code(), 17);
    assert_eq!(ErrCode::ChanErrEnd.code(), 99);
    assert_eq!(ErrCode::TradeErrBegin.code(), 100);
    assert_eq!(ErrCode::KlErrBegin.code(), 200);
    assert_eq!(ErrCode::KlErrEnd.code(), 299);
}

#[test]
fn test_error_ranges_exclude_bounds() {
    let begin = CChanException::new(String::new(), ErrCode::ChanErrBegin);
    assert!(!begin.is_chan_err());
    let end = CChanException::new(String::new(), ErrCode::ChanErrEnd);
    assert!(!end.is_chan_err());
    let kl_end = CChanException::new(String::new(), ErrCode::KlErrEnd);
    assert!(!kl_end.is_kldata_err());
    let trade = CChanException::new(String::new(), ErrCode::SignalExisted);
    assert!(!trade.is_chan_err());
    assert!(!trade.is_kldata_err());
}

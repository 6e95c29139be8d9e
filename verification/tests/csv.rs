use chan::csv_api::{parse_price, parse_time_column, split_fields, text_less, time_from_parsed};
use chan::csv_api::{CommonStockApiImpl, CsvApi, DataField, PRICE_SCALE};
use chan::enums::KL_TYPE;
use chan::exception::ErrCode;

#[test]
fn test_split_fields() {
    assert_eq!(split_fields("a,b,c"), vec!["a", "b", "c"]);
    assert_eq!(split_fields(""), vec![""]);
    assert_eq!(split_fields("a,,b,"), vec!["a", "", "b", ""]);
    assert_eq!(split_fields("2021-01-05,1.5"), vec!["2021-01-05", "1.5"]);
}

#[test]
fn test_parse_price_values() {
    assert_eq!(PRICE_SCALE, 100_000_000);
    assert_eq!(parse_price("12.5"), 1_250_000_000);
    assert_eq!(parse_price("12"), 1_200_000_000);
    assert_eq!(parse_price("-0.1"), -10_000_000);
    assert_eq!(parse_price(".5"), 50_000_000);
    assert_eq!(parse_price("3."), 300_000_000);
    assert_eq!(parse_price("0.123456789"), 12_345_678);
    assert_eq!(parse_price("0"), 0);
}

#[test]
fn test_parse_price_refused_text_is_zero() {
    assert_eq!(parse_price("abc"), 0);
    assert_eq!(parse_price(""), 0);
    assert_eq!(parse_price("-"), 0);
    assert_eq!(parse_price("."), 0);
    assert_eq!(parse_price("1.2.3"), 0);
    assert_eq!(parse_price("99999999999999999999"), 0);
}

#[test]
fn test_parse_price_exponent_form() {
    assert_eq!(parse_price("1e2"), 10_000_000_000);
    assert_eq!(parse_price("1.5E-1"), 15_000_000);
    assert_eq!(parse_price("-2.5e3"), -250_000_000_000);
    assert_eq!(parse_price("1e+2"), 10_000_000_000);
    assert_eq!(parse_price("12345e-4"), 123_450_000);
    assert_eq!(parse_price("-1e-9"), 0);
    assert_eq!(parse_price("1e-30"), 0);
    assert_eq!(parse_price("0e500"), 0);
    assert_eq!(parse_price("1e30"), 0);
    assert_eq!(parse_price("1e"), 0);
    assert_eq!(parse_price("e5"), 0);
    assert_eq!(parse_price("1e2.5"), 0);
}

#[test]
fn test_text_less() {
    assert!(text_less("2021-01-04", "2021-01-05"));
    assert!(!text_less("2021-01-05", "2021-01-05"));
    assert!(!text_less("2021-01-06", "2021-01-05"));
    assert!(text_less("2021", "2021-01-05"));
    assert!(!text_less("2021-01-05", "2021"));
}

#[test]
fn test_parse_time_column_formats() {
    assert_eq!(parse_time_column("2021-01-05").unwrap(), 1_609_804_800);
    assert_eq!(parse_time_column("2021-01-05 09:30:00").unwrap(), 1_609_839_000);
    assert_eq!(parse_time_column("20210105093000000").unwrap(), 1_609_839_000);
}

#[test]
fn test_parse_time_column_errors() {
    let e = parse_time_column("2021/1/5").unwrap_err();
    assert_eq!(e.errcode, ErrCode::SrcDataFormatError);
    assert_eq!(e.msg, "unknown time column from csv:2021/1/5");
    let e = parse_time_column("2021-13-45").unwrap_err();
    assert_eq!(e.errcode, ErrCode::SrcDataFormatError);
    assert_eq!(e.msg, "Failed to parse time: 2021-13-45");
}

#[test]
fn test_time_from_parsed() {
    assert_eq!(time_from_parsed("x", Some(42)).unwrap(), 42);
    let e = time_from_parsed("x", None).unwrap_err();
    assert_eq!(e.errcode, ErrCode::SrcDataFormatError);
}

#[test]
fn test_csv_api_new() {
    let api = CsvApi::new("000001".to_string(), KL_TYPE::K_DAY, None, None, None);
    assert_eq!(api.code, "000001");
    assert_eq!(api.k_type, KL_TYPE::K_DAY);
    assert!(api.headers_exist);
    assert_eq!(api.time_column_idx, 0);
    assert_eq!(
        api.columns,
        vec![
            DataField::FieldTime,
            DataField::FieldOpen,
            DataField::FieldHigh,
            DataField::FieldLow,
            DataField::FieldClose,
            DataField::FieldVolume
        ]
    );
}

#[test]
fn test_csv_parse_line_bar() {
    let api = CsvApi::new("000001".to_string(), KL_TYPE::K_DAY, None, None, None);
    let u = api.parse_line("2021-01-05,10.5,11,10,10.8,1000", 3).unwrap().unwrap();
    assert_eq!(u.idx, 3);
    assert_eq!(u.time, 1_609_804_800);
    assert_eq!(u.open, 1_050_000_000);
    assert_eq!(u.high, 1_100_000_000);
    assert_eq!(u.low, 1_000_000_000);
    assert_eq!(u.close, 1_080_000_000);
}

#[test]
fn test_csv_parse_line_wrong_field_count() {
    let api = CsvApi::new("000001".to_string(), KL_TYPE::K_DAY, None, None, None);
    let e = api.parse_line("2021-01-05,10.5,11,10,10.8", 0).unwrap_err();
    assert_eq!(e.errcode, ErrCode::SrcDataFormatError);
    assert_eq!(e.msg, "file format error: /opt/data/raw_data/000001.csv");
}

#[test]
fn test_csv_parse_line_outside_dates() {
    let api = CsvApi::new(
        "000001".to_string(),
        KL_TYPE::K_DAY,
        Some("2021-02-01".to_string()),
        Some("2021-03-01".to_string()),
        None,
    );
    assert!(api.parse_line("2021-01-05,10,11,9,10,1", 0).unwrap().is_none());
    assert!(api.parse_line("2021-03-02,10,11,9,10,1", 0).unwrap().is_none());
    assert!(api.parse_line("2021-02-15,10,11,9,10,1", 0).unwrap().is_some());
}

#[test]
fn test_csv_parse_line_bad_bar() {
    let api = CsvApi::new("000001".to_string(), KL_TYPE::K_DAY, None, None, None);
    let e = api.parse_line("2021-01-05,10,9,8,9.5,1", 0).unwrap_err();
    assert_eq!(e.errcode, ErrCode::KlDataInvalid);
    let e = api.parse_line("01/05/2021,10,11,9,10,1", 0).unwrap_err();
    assert_eq!(e.errcode, ErrCode::SrcDataFormatError);
}

#[test]
fn test_common_stock_api_new() {
    let a = CommonStockApiImpl::new(
        "000001".to_string(),
        "day".to_string(),
        "2021-01-01".to_string(),
        "2021-12-31".to_string(),
        "qfq".to_string(),
    );
    assert_eq!(a.code, "000001");
    assert_eq!(a.k_type, "day");
    assert_eq!(a.begin_date, "2021-01-01");
    assert_eq!(a.end_date, "2021-12-31");
    assert_eq!(a.autype, "qfq");
    assert!(a.name.is_none());
    assert!(a.is_stock.is_none());
}

#[test]
fn test_parse_price_signs() {
    assert_eq!(parse_price("+5"), 500_000_000);
    assert_eq!(parse_price("-5.5"), -550_000_000);
    assert_eq!(parse_price("+"), 0);
}

use chan::ctime::CTime;
use chan::exception::ErrCode;

#[test]
fn test_ctime_new_timestamp() {
    let t = CTime::new(2024, 1, 1, 0, 0, 0, false);
    assert_eq!(t.ts, 1704067200);
    assert_eq!((t.year, t.month, t.day, t.hour, t.minute, t.second), (2024, 1, 1, 0, 0, 0));
    let t = CTime::new(2024, 3, 1, 9, 30, 15, false);
    assert_eq!(t.ts, 1709285415);
    let t = CTime::new(1969, 12, 31, 23, 59, 59, false);
    assert_eq!(t.ts, -1);
}

#[test]
fn test_ctime_auto_day_counts_as_last_minute() {
    let t = CTime::new(2024, 3, 1, 0, 0, 0, true);
    assert_eq!(t.ts, 1709337540);
    let t = CTime::new(2024, 3, 1, 0, 0, 30, true);
    assert_eq!(t.ts, 1709337570);
    let t = CTime::new(2024, 3, 1, 10, 0, 0, true);
    assert_eq!(t.ts, 1709287200);
}

#[test]
fn test_ctime_leap_day() {
    let a = CTime::new(2024, 2, 29, 0, 0, 0, false);
    let b = CTime::new(2024, 3, 1, 0, 0, 0, false);
    assert_eq!(b.ts - a.ts, 86400);
    let c = CTime::new(2000, 2, 29, 12, 0, 0, false);
    assert_eq!(c.ts, 951825600);
}

#[test]
fn test_ctime_to_str() {
    assert_eq!(CTime::new(2024, 1, 5, 0, 0, 0, false).to_str(), "2024/01/05");
    assert_eq!(CTime::new(2024, 1, 5, 9, 3, 7, false).to_str(), "2024/01/05 09:03");
    assert_eq!(CTime::new(2024, 1, 5, 0, 7, 0, false).to_str(), "2024/01/05 00:07");
    assert_eq!(CTime::new(987, 11, 30, 0, 0, 0, false).to_str(), "0987/11/30");
    assert_eq!(CTime::new(-5, 6, 1, 0, 0, 0, false).to_str(), "-005/06/01");
}

#[test]
fn test_ctime_to_date_str() {
    let t = CTime::new(2023, 7, 4, 15, 45, 0, false);
    assert_eq!(t.to_date_str("-"), "2023-07-04");
    assert_eq!(t.to_date_str(""), "20230704");
    assert_eq!(t.to_date_str("/"), "2023/07/04");
}

#[test]
fn test_ctime_to_date() {
    let t = CTime::new(2023, 7, 4, 15, 45, 12, true);
    let d = t.to_date();
    assert_eq!((d.year, d.month, d.day, d.hour, d.minute, d.second), (2023, 7, 4, 0, 0, 0));
    assert!(!d.auto);
    assert_eq!(d.ts, 1688428800);
}

#[test]
fn test_ctime_from_timestamp() {
    let t = CTime::from_timestamp(1709285415);
    assert_eq!((t.year, t.month, t.day, t.hour, t.minute, t.second), (2024, 3, 1, 9, 30, 15));
    assert!(t.auto);
    assert_eq!(t.ts, 1709285415);
    let t = CTime::from_timestamp(-1);
    assert_eq!((t.year, t.month, t.day, t.hour, t.minute, t.second), (1969, 12, 31, 23, 59, 59));
    let t = CTime::from_timestamp(i64::MAX);
    assert_eq!((t.year, t.month, t.day, t.hour, t.minute, t.second), (1970, 1, 1, 0, 0, 0));
    assert_eq!(t.ts, i64::MAX);
}

#[test]
fn test_ctime_from_timestamp_millis() {
    let t = CTime::from_timestamp_millis(1709285415999);
    assert_eq!((t.year, t.month, t.day, t.hour, t.minute, t.second), (2024, 3, 1, 9, 30, 15));
    assert_eq!(t.ts, 1709285415999);
    let t = CTime::from_timestamp_millis(-1);
    assert_eq!((t.year, t.month, t.day, t.hour, t.minute, t.second), (1969, 12, 31, 23, 59, 59));
}

#[test]
fn test_ctime_from_datetime_str() {
    let t = CTime::from_datetime_str("2024-03-01 09:30:15").unwrap();
    assert_eq!((t.year, t.month, t.day, t.hour, t.minute, t.second), (2024, 3, 1, 9, 30, 15));
    assert_eq!(t.ts, 1709285415);
    assert!(t.auto);
    let e = CTime::from_datetime_str("2024-03-01").unwrap_err();
    assert_eq!(e.errcode, ErrCode::SrcDataFormatError);
    assert!(CTime::from_datetime_str("2024-02-30 00:00:00").is_err());
}

#[test]
fn test_ctime_order_by_timestamp() {
    let a = CTime::new(2024, 1, 1, 0, 0, 0, false);
    let b = CTime::from_timestamp(1704067200);
    assert!(a == b);
    let c = CTime::new(2024, 1, 1, 0, 0, 0, true);
    assert!(a != c);
    assert!(a < c);
    assert!(c > b);
    assert!(a <= b && a >= b);
}

#[test]
fn test_check_after_refuses_time_not_increasing() {
    let a = CTime::new(2021, 1, 5, 0, 0, 0, false);
    let b = CTime::new(2021, 1, 6, 9, 30, 0, false);
    assert!(b.check_after(&a).is_ok());
    let e = a.check_after(&b).unwrap_err();
    assert_eq!(e.errcode, ErrCode::KlNotMonotonous);
    assert_eq!(e.msg, "kline time err, cur=2021/01/05, last=2021/01/06 09:30");
    assert!(a.check_after(&a).is_err());
}

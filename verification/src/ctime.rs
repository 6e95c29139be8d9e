use vstd::prelude::*;
use crate::csv_api::{chrono_datetime, spec_chrono_datetime, time_parse_message};
use crate::exception::{CChanException, ErrCode};
use crate::text::{padded_text, spec_padded};
use core::cmp::Ordering;

verus! {

// ---------------------------------------------------------------------------
// The proleptic Gregorian calendar and UTC timestamps

/// Leap years of the Gregorian calendar, extended to all years.
pub open spec fn is_leap_year(y: int) -> bool {
    (y % 4 == 0 && y % 100 != 0) || y % 400 == 0
}

/// The number of days of month `m` (1 to 12) of year `y`.
pub open spec fn days_in_month(y: int, m: int) -> int {
    if m == 2 {
        if is_leap_year(y) { 29 } else { 28 }
    } else if m == 4 || m == 6 || m == 9 || m == 11 {
        30
    } else {
        31
    }
}

/// The day exists in the calendar, in the years that chrono can hold
/// (from -262143 to 262142).
pub open spec fn date_exists(y: int, m: int, d: int) -> bool {
    &&& -262143 <= y <= 262142
    &&& 1 <= m <= 12
    &&& 1 <= d <= days_in_month(y, m)
}

/// A date that exists and a time of day without leap second.
pub open spec fn civil_ok(y: int, mo: int, d: int, h: int, mi: int, s: int) -> bool {
    &&& date_exists(y, mo, d)
    &&& 0 <= h < 24
    &&& 0 <= mi < 60
    &&& 0 <= s < 60
}

/// The leap years up to year `n`, counted from a fixed origin.
pub open spec fn leap_count(n: int) -> int {
    n / 4 - n / 100 + n / 400
}

/// The days of year `y` before month `m`.
pub open spec fn days_before_month(y: int, m: int) -> int {
    let base: int = if m <= 1 {
        0
    } else if m == 2 {
        31
    } else if m == 3 {
        59
    } else if m == 4 {
        90
    } else if m == 5 {
        120
    } else if m == 6 {
        151
    } else if m == 7 {
        181
    } else if m == 8 {
        212
    } else if m == 9 {
        243
    } else if m == 10 {
        273
    } else if m == 11 {
        304
    } else {
        334
    };
    if m > 2 && is_leap_year(y) { base + 1 } else { base }
}

/// The days from 1970-01-01 to the given day (negative before it).
pub open spec fn epoch_days(y: int, m: int, d: int) -> int {
    365 * (y - 1970) + leap_count(y - 1) - leap_count(1969) + days_before_month(y, m) + d - 1
}

/// The seconds, leap seconds not counted, from 1970-01-01 00:00:00 UTC to
/// the given date and time.
pub open spec fn epoch_seconds(y: int, mo: int, d: int, h: int, mi: int, s: int) -> int {
    epoch_days(y, mo, d) * 86400 + h * 3600 + mi * 60 + s
}

/// The days of year `y`.
pub open spec fn year_days(y: int) -> int {
    if is_leap_year(y) { 366 } else { 365 }
}

proof fn lemma_div_step(y: int, k: int)
    requires
        k > 0,
    ensures
        y / k - (y - 1) / k == (if y % k == 0 { 1int } else { 0int }),
{
    let q1 = y / k;
    let r1 = y % k;
    let q2 = (y - 1) / k;
    let r2 = (y - 1) % k;
    vstd::arithmetic::div_mod::lemma_fundamental_div_mod(y, k);
    vstd::arithmetic::div_mod::lemma_fundamental_div_mod(y - 1, k);
    vstd::arithmetic::div_mod::lemma_mod_bound(y, k);
    vstd::arithmetic::div_mod::lemma_mod_bound(y - 1, k);
    assert(q1 - q2 == (if r1 == 0 { 1int } else { 0int })) by (nonlinear_arith)
        requires
            y == k * q1 + r1,
            y - 1 == k * q2 + r2,
            0 <= r1 < k,
            0 <= r2 < k,
    {
        if q1 - q2 >= 2 {
            assert(k * (q1 - q2) >= 2 * k);
        } else if q1 - q2 <= -1 {
            assert(k * (q1 - q2) <= -k);
        }
    }
}

proof fn lemma_year_step(y: int)
    ensures
        epoch_days(y + 1, 1, 1) == epoch_days(y, 1, 1) + year_days(y),
{
    lemma_div_step(y, 4);
    lemma_div_step(y, 100);
    lemma_div_step(y, 400);
    lemma_mod_divides(y, 25, 4);
    lemma_mod_divides(y, 4, 100);
    let a = y / 4 - (y - 1) / 4;
    let b = y / 100 - (y - 1) / 100;
    let c = y / 400 - (y - 1) / 400;
    assert(leap_count(y) - leap_count(y - 1) == a - b + c);
    assert(a - b + c == (if is_leap_year(y) { 1int } else { 0int }));
}

/// A multiple of `a * b` is a multiple of `b`.
proof fn lemma_mod_divides(y: int, a: int, b: int)
    requires
        a > 0,
        b > 0,
    ensures
        y % (a * b) == 0 ==> y % b == 0,
{
    assert(a * b > 0) by (nonlinear_arith)
        requires
            a > 0,
            b > 0,
    ;
    if y % (a * b) == 0 {
        vstd::arithmetic::div_mod::lemma_fundamental_div_mod(y, a * b);
        let q = y / (a * b);
        assert(y == (q * a) * b) by (nonlinear_arith)
            requires
                y == (a * b) * q + 0,
        ;
        vstd::arithmetic::div_mod::lemma_mod_multiples_basic(q * a, b);
    }
}

proof fn lemma_month_step(y: int, m: int)
    requires
        1 <= m < 12,
    ensures
        days_before_month(y, m + 1) == days_before_month(y, m) + days_in_month(y, m),
{
}

proof fn lemma_month_order(y: int, m1: int, m2: int)
    requires
        1 <= m1 < m2 <= 12,
    ensures
        days_before_month(y, m1) + days_in_month(y, m1) <= days_before_month(y, m2),
    decreases m2 - m1,
{
    lemma_month_step(y, m1);
    if m1 + 1 < m2 {
        lemma_month_order(y, m1 + 1, m2);
    }
}

proof fn lemma_day_in_year(y: int, m: int, d: int)
    requires
        date_exists(y, m, d),
    ensures
        epoch_days(y, 1, 1) <= epoch_days(y, m, d) < epoch_days(y, 1, 1) + year_days(y),
{
    if m < 12 {
        lemma_month_order(y, m, 12);
    }
}

proof fn lemma_year_order(y1: int, y2: int)
    requires
        y1 < y2,
    ensures
        epoch_days(y1, 1, 1) + year_days(y1) <= epoch_days(y2, 1, 1),
    decreases y2 - y1,
{
    lemma_year_step(y1);
    if y1 + 1 < y2 {
        lemma_year_order(y1 + 1, y2);
    }
}

/// Two existing days with the same day count are the same day.
proof fn lemma_days_unique(y1: int, m1: int, d1: int, y2: int, m2: int, d2: int)
    requires
        date_exists(y1, m1, d1),
        date_exists(y2, m2, d2),
        epoch_days(y1, m1, d1) == epoch_days(y2, m2, d2),
    ensures
        y1 == y2 && m1 == m2 && d1 == d2,
{
    lemma_day_in_year(y1, m1, d1);
    lemma_day_in_year(y2, m2, d2);
    if y1 < y2 {
        lemma_year_order(y1, y2);
    } else if y2 < y1 {
        lemma_year_order(y2, y1);
    } else if m1 < m2 {
        lemma_month_order(y1, m1, m2);
    } else if m2 < m1 {
        lemma_month_order(y1, m2, m1);
    }
}

/// A timestamp is the timestamp of one date and time at most.
pub proof fn lemma_civil_unique(
    y1: int, mo1: int, d1: int, h1: int, mi1: int, s1: int,
    y2: int, mo2: int, d2: int, h2: int, mi2: int, s2: int,
)
    requires
        civil_ok(y1, mo1, d1, h1, mi1, s1),
        civil_ok(y2, mo2, d2, h2, mi2, s2),
        epoch_seconds(y1, mo1, d1, h1, mi1, s1) == epoch_seconds(y2, mo2, d2, h2, mi2, s2),
    ensures
        y1 == y2 && mo1 == mo2 && d1 == d2 && h1 == h2 && mi1 == mi2 && s1 == s2,
{
    let e1 = epoch_days(y1, mo1, d1);
    let e2 = epoch_days(y2, mo2, d2);
    assert(e1 == e2) by (nonlinear_arith)
        requires
            e1 * 86400 + h1 * 3600 + mi1 * 60 + s1 == e2 * 86400 + h2 * 3600 + mi2 * 60 + s2,
            0 <= h1 < 24, 0 <= mi1 < 60, 0 <= s1 < 60,
            0 <= h2 < 24, 0 <= mi2 < 60, 0 <= s2 < 60,
    ;
    lemma_days_unique(y1, mo1, d1, y2, mo2, d2);
}

/// The timestamps of the first and the last second that chrono can hold:
/// -262143-01-01 00:00:00 and 262142-12-31 23:59:59.
pub open spec fn in_chrono_range(t: int) -> bool {
    epoch_seconds(-262143, 1, 1, 0, 0, 0) <= t <= epoch_seconds(262142, 12, 31, 23, 59, 59)
}

/// `chrono::NaiveDate::from_ymd_opt` and `chrono::NaiveTime::from_hms_opt`,
/// joined and read with `and_utc().timestamp()`. chrono documents that the
/// date is refused exactly when the day does not exist or the year is out
/// of its range, that the time is refused exactly when an hour, minute or
/// second is out of range, and that the timestamp counts the non-leap
/// seconds since 1970-01-01 00:00:00 UTC. Claimed as `epoch_seconds` says.
#[verifier::external_body]
fn utc_seconds(year: i32, month: u32, day: u32, hour: u32, minute: u32, second: u32) -> (r: Option<i64>)
    ensures
        r is Some <==> civil_ok(year as int, month as int, day as int, hour as int, minute as int, second as int),
        r matches Some(t) ==> t == epoch_seconds(year as int, month as int, day as int, hour as int, minute as int, second as int),
{
    match chrono::NaiveDate::from_ymd_opt(year, month, day) {
        Some(d) => match chrono::NaiveTime::from_hms_opt(hour, minute, second) {
            Some(t) => Some(d.and_time(t).and_utc().timestamp()),
            None => None,
        },
        None => None,
    }
}

/// `chrono::DateTime::<Utc>::from_timestamp` with no nanoseconds, read back
/// as year, month, day, hour, minute and second. chrono documents that it
/// refuses exactly the timestamps out of its range and that it round-trips
/// with `timestamp`. Claimed: `None` exactly out of `in_chrono_range`, and
/// otherwise a date and time whose `epoch_seconds` is `t`.
#[verifier::external_body]
fn civil_of(t: i64) -> (r: Option<(i32, u32, u32, u32, u32, u32)>)
    ensures
        r is Some <==> in_chrono_range(t as int),
        r matches Some(f) ==> civil_ok(f.0 as int, f.1 as int, f.2 as int, f.3 as int, f.4 as int, f.5 as int)
            && epoch_seconds(f.0 as int, f.1 as int, f.2 as int, f.3 as int, f.4 as int, f.5 as int) == t,
{
    match chrono::DateTime::<chrono::Utc>::from_timestamp(t, 0) {
        Some(d) => Some((
            chrono::Datelike::year(&d),
            chrono::Datelike::month(&d),
            chrono::Datelike::day(&d),
            chrono::Timelike::hour(&d),
            chrono::Timelike::minute(&d),
            chrono::Timelike::second(&d),
        )),
        None => None,
    }
}

/// `chrono::DateTime::<Utc>::from_timestamp_millis`, read back as year,
/// month, day, hour, minute and second. Its source splits the milliseconds
/// into whole seconds (rounded down) and a remainder, and hands both to
/// `from_timestamp`. Claimed: as `civil_of` says of `ms / 1000`.
#[verifier::external_body]
fn civil_of_millis(ms: i64) -> (r: Option<(i32, u32, u32, u32, u32, u32)>)
    ensures
        r is Some <==> in_chrono_range(ms as int / 1000),
        r matches Some(f) ==> civil_ok(f.0 as int, f.1 as int, f.2 as int, f.3 as int, f.4 as int, f.5 as int)
            && epoch_seconds(f.0 as int, f.1 as int, f.2 as int, f.3 as int, f.4 as int, f.5 as int) == ms as int / 1000,
{
    match chrono::DateTime::<chrono::Utc>::from_timestamp_millis(ms) {
        Some(d) => Some((
            chrono::Datelike::year(&d),
            chrono::Datelike::month(&d),
            chrono::Datelike::day(&d),
            chrono::Timelike::hour(&d),
            chrono::Timelike::minute(&d),
            chrono::Timelike::second(&d),
        )),
        None => None,
    }
}

// ---------------------------------------------------------------------------
// Times of bars

/// A time of a bar: its calendar fields, whether it was read from data
/// that gives days only (`auto`), and its timestamp in seconds.
#[derive(Debug, Clone, Copy)]
pub struct CTime {
    pub year: i32,
    pub month: u32,
    pub day: u32,
    pub hour: u32,
    pub minute: u32,
    pub second: u32,
    pub auto: bool,
    pub ts: i64,
}

/// The timestamp of a time: a day read without a clock (`auto`, at
/// midnight) counts as its last minute, 23:59.
pub open spec fn spec_stamp(y: int, mo: int, d: int, h: int, mi: int, s: int, auto: bool) -> int {
    if h == 0 && mi == 0 && auto {
        epoch_seconds(y, mo, d, 23, 59, s)
    } else {
        epoch_seconds(y, mo, d, h, mi, s)
    }
}

impl CTime {
    /// The calendar fields form a date and a time of day.
    pub open spec fn fields_ok(self) -> bool {
        civil_ok(self.year as int, self.month as int, self.day as int, self.hour as int, self.minute as int, self.second as int)
    }

    /// The timestamp these fields give.
    pub open spec fn stamp(self) -> int {
        spec_stamp(self.year as int, self.month as int, self.day as int, self.hour as int, self.minute as int, self.second as int, self.auto)
    }

    /// A time from its fields, with its timestamp.
    pub fn new(year: i32, month: u32, day: u32, hour: u32, minute: u32, second: u32, auto: bool) -> (r: CTime)
        requires
            civil_ok(year as int, month as int, day as int, hour as int, minute as int, second as int),
        ensures
            r.year == year && r.month == month && r.day == day,
            r.hour == hour && r.minute == minute && r.second == second,
            r.auto == auto,
            r.ts == r.stamp(),
    {
        let mut t = CTime { year, month, day, hour, minute, second, auto, ts: 0 };
        t.set_timestamp();
        t
    }

    /// Sets the timestamp from the fields.
    pub fn set_timestamp(&mut self)
        requires
            old(self).fields_ok(),
        ensures
            final(self).year == old(self).year && final(self).month == old(self).month,
            final(self).day == old(self).day && final(self).hour == old(self).hour,
            final(self).minute == old(self).minute && final(self).second == old(self).second,
            final(self).auto == old(self).auto,
            final(self).ts == final(self).stamp(),
    {
        let (h, mi) = if self.hour == 0 && self.minute == 0 && self.auto {
            (23u32, 59u32)
        } else {
            (self.hour, self.minute)
        };
        match utc_seconds(self.year, self.month, self.day, h, mi, self.second) {
            Some(t) => {
                self.ts = t;
            },
            None => {
                proof {
                    assert(false);
                }
            },
        }
    }

    /// The seconds from the epoch that the fields name, the clock as it is.
    pub open spec fn seconds(self) -> int {
        epoch_seconds(self.year as int, self.month as int, self.day as int, self.hour as int, self.minute as int, self.second as int)
    }

    /// The time a timestamp falls on, marked `auto`; a timestamp that chrono
    /// cannot place gives the fields of 1970-01-01 00:00:00.
    pub fn from_timestamp(timestamp: i64) -> (r: CTime)
        ensures
            r.auto && r.ts == timestamp,
            in_chrono_range(timestamp as int) ==> r.fields_ok() && r.seconds() == timestamp,
            !in_chrono_range(timestamp as int) ==> r.year == 1970 && r.month == 1 && r.day == 1
                && r.hour == 0 && r.minute == 0 && r.second == 0,
    {
        let (year, month, day, hour, minute, second) = match civil_of(timestamp) {
            Some(f) => f,
            None => (1970i32, 1u32, 1u32, 0u32, 0u32, 0u32),
        };
        CTime { year, month, day, hour, minute, second, auto: true, ts: timestamp }
    }

    /// The time a timestamp in milliseconds falls on, to the second,
    /// marked `auto`; it keeps the milliseconds as its timestamp.
    pub fn from_timestamp_millis(timestamp_ms: i64) -> (r: CTime)
        requires
            in_chrono_range(timestamp_ms as int / 1000),
        ensures
            r.auto && r.ts == timestamp_ms,
            r.fields_ok() && r.seconds() == timestamp_ms as int / 1000,
    {
        match civil_of_millis(timestamp_ms) {
            Some((year, month, day, hour, minute, second)) => {
                CTime { year, month, day, hour, minute, second, auto: true, ts: timestamp_ms }
            },
            None => {
                proof {
                    assert(false);
                }
                CTime { year: 1970, month: 1, day: 1, hour: 0, minute: 0, second: 0, auto: true, ts: timestamp_ms }
            },
        }
    }

    /// Reads a time written `%Y-%m-%d %H:%M:%S`, marked `auto`, with its UTC
    /// timestamp; text that chrono does not read in that format is a format
    /// error.
    pub fn from_datetime_str(datetime_str: &str) -> (r: Result<CTime, CChanException>)
        ensures
            r is Ok <==> spec_chrono_datetime(datetime_str@, "%Y-%m-%d %H:%M:%S"@) is Some,
            r matches Ok(c) ==> {
                &&& spec_chrono_datetime(datetime_str@, "%Y-%m-%d %H:%M:%S"@) == Some(c.ts)
                &&& c.auto
                &&& c.fields_ok()
                &&& c.seconds() == c.ts
            },
            r matches Err(e) ==> e.errcode == ErrCode::SrcDataFormatError,
    {
        match chrono_datetime(datetime_str, "%Y-%m-%d %H:%M:%S") {
            Some(t) => {
                match civil_of(t) {
                    Some((year, month, day, hour, minute, second)) => {
                        Ok(CTime { year, month, day, hour, minute, second, auto: true, ts: t })
                    },
                    None => {
                        proof {
                            assert(false);
                        }
                        Err(CChanException::new(time_parse_message(datetime_str), ErrCode::SrcDataFormatError))
                    },
                }
            },
            None => Err(CChanException::new(time_parse_message(datetime_str), ErrCode::SrcDataFormatError)),
        }
    }

    /// The same day at midnight, not `auto`.
    pub fn to_date(&self) -> (r: CTime)
        requires
            date_exists(self.year as int, self.month as int, self.day as int),
        ensures
            r.year == self.year && r.month == self.month && r.day == self.day,
            r.hour == 0 && r.minute == 0 && r.second == 0 && !r.auto,
            r.ts == epoch_seconds(self.year as int, self.month as int, self.day as int, 0, 0, 0),
    {
        CTime::new(self.year, self.month, self.day, 0, 0, 0, false)
    }

    /// The text of a time: `YYYY/MM/DD`, then ` HH:MM` unless the clock
    /// reads midnight.
    pub open spec fn spec_to_str(self) -> Seq<char> {
        let date = spec_padded(self.year as int, 4) + seq!['/'] + spec_padded(self.month as int, 2)
            + seq!['/'] + spec_padded(self.day as int, 2);
        if self.hour == 0 && self.minute == 0 {
            date
        } else {
            date + seq![' '] + spec_padded(self.hour as int, 2) + seq![':'] + spec_padded(self.minute as int, 2)
        }
    }

    /// Writes a time as `spec_to_str` says.
    pub fn to_str(&self) -> (r: String)
        ensures
            r@ == self.spec_to_str(),
    {
        proof {
            reveal_strlit("/");
            reveal_strlit(" ");
            reveal_strlit(":");
        }
        let mut out = padded_text(self.year as i64, 4);
        out.append("/");
        out.append(padded_text(self.month as i64, 2).as_str());
        out.append("/");
        out.append(padded_text(self.day as i64, 2).as_str());
        if !(self.hour == 0 && self.minute == 0) {
            out.append(" ");
            out.append(padded_text(self.hour as i64, 2).as_str());
            out.append(":");
            out.append(padded_text(self.minute as i64, 2).as_str());
        }
        assert(out@ =~= self.spec_to_str());
        out
    }

    /// Checks that a bar at this time may follow a bar at time `last`: a
    /// time not after the last one is refused.
    pub fn check_after(&self, last: &CTime) -> (r: Result<(), CChanException>)
        ensures
            r is Err <==> self.ts <= last.ts,
            r matches Err(e) ==> e.errcode == ErrCode::KlNotMonotonous,
            r matches Err(e) ==> e.msg@ == "kline time err, cur="@ + self.spec_to_str() + ", last="@
                + last.spec_to_str(),
    {
        if self.ts > last.ts {
            return Ok(());
        }
        let mut msg = "kline time err, cur=".to_owned();
        msg.append(self.to_str().as_str());
        msg.append(", last=");
        msg.append(last.to_str().as_str());
        proof {
            assert(msg@ =~= "kline time err, cur="@ + self.spec_to_str() + ", last="@ + last.spec_to_str());
        }
        Err(CChanException::new(msg, ErrCode::KlNotMonotonous))
    }

    /// The date with `splt` between year, month and day.
    pub fn to_date_str(&self, splt: &str) -> (r: String)
        ensures
            r@ == spec_padded(self.year as int, 4) + splt@ + spec_padded(self.month as int, 2) + splt@
                + spec_padded(self.day as int, 2),
    {
        let mut out = padded_text(self.year as i64, 4);
        out.append(splt);
        out.append(padded_text(self.month as i64, 2).as_str());
        out.append(splt);
        out.append(padded_text(self.day as i64, 2).as_str());
        out
    }
}

/// Two times are equal when their timestamps are.
impl PartialEq for CTime {
    fn eq(&self, other: &Self) -> (r: bool) {
        self.ts == other.ts
    }
}

impl Eq for CTime {}

impl vstd::std_specs::cmp::PartialEqSpecImpl for CTime {
    open spec fn obeys_eq_spec() -> bool {
        true
    }

    open spec fn eq_spec(&self, other: &CTime) -> bool {
        self.ts == other.ts
    }
}

/// Times are ordered by their timestamps.
impl PartialOrd for CTime {
    fn partial_cmp(&self, other: &Self) -> (r: Option<Ordering>) {
        if self.ts < other.ts {
            Some(Ordering::Less)
        } else if self.ts == other.ts {
            Some(Ordering::Equal)
        } else {
            Some(Ordering::Greater)
        }
    }
}

impl vstd::std_specs::cmp::PartialOrdSpecImpl for CTime {
    open spec fn obeys_partial_cmp_spec() -> bool {
        true
    }

    open spec fn partial_cmp_spec(&self, other: &CTime) -> Option<Ordering> {
        if self.ts < other.ts {
            Some(Ordering::Less)
        } else if self.ts == other.ts {
            Some(Ordering::Equal)
        } else {
            Some(Ordering::Greater)
        }
    }
}

} // verus!

use vstd::prelude::*;
use crate::ctime::{civil_ok, epoch_seconds, in_chrono_range, lemma_civil_unique};
use crate::enums::{BI_DIR, BI_TYPE, BSP_TYPE, FX_TYPE, KLINE_DIR};

verus! {

// ---------------------------------------------------------------------------
// Numbers

/// The character of a decimal digit.
pub open spec fn digit_char(d: int) -> char {
    (('0' as int) + d) as char
}

/// The decimal digits of a natural number.
pub open spec fn spec_nat_text(n: nat) -> Seq<char>
    decreases n,
{
    if n < 10 {
        seq![digit_char(n as int)]
    } else {
        spec_nat_text(n / 10) + seq![digit_char((n % 10) as int)]
    }
}

/// The decimal text of an integer, with a minus sign when it is negative.
pub open spec fn spec_int_text(n: int) -> Seq<char> {
    if n < 0 {
        seq!['-'] + spec_nat_text((-n) as nat)
    } else {
        spec_nat_text(n as nat)
    }
}

/// A decimal digit as text.
fn digit_text(d: u128) -> (r: String)
    requires
        d < 10,
    ensures
        r@ == seq![digit_char(d as int)],
{
    let all = "0123456789";
    proof {
        reveal_strlit("0123456789");
    }
    let s = all.substring_char(d as usize, (d + 1) as usize);
    assert(s@ =~= seq![digit_char(d as int)]);
    s.to_owned()
}

/// The decimal digits of a natural number.
pub fn nat_text(n: u128) -> (r: String)
    ensures
        r@ == spec_nat_text(n as nat),
    decreases n,
{
    if n < 10 {
        digit_text(n)
    } else {
        let mut s = nat_text(n / 10);
        let t = digit_text(n % 10);
        s.append(t.as_str());
        s
    }
}

/// An integer in decimal, with a minus sign when it is negative, as std's
/// `to_string` writes it.
pub fn int_text(n: i128) -> (r: String)
    ensures
        r@ == spec_int_text(n as int),
{
    if n < 0 {
        let m: u128 = ((-(n + 1)) as u128) + 1;
        assert(m == -n);
        proof {
            reveal_strlit("-");
        }
        let mut s = "-".to_owned();
        let t = nat_text(m);
        s.append(t.as_str());
        s
    } else {
        nat_text(n as u128)
    }
}

/// The text of a count or an index.
pub fn usize_text(n: usize) -> (r: String)
    ensures
        r@ == spec_nat_text(n as nat),
{
    int_text(n as i128)
}

proof fn lemma_nat_text_len(n: nat, k: nat, p: int)
    requires
        n < p,
        p == crate::csv_api::pow10(k),
        k >= 1,
    ensures
        1 <= spec_nat_text(n).len() <= k,
    decreases n,
{
    if n >= 10 {
        assert(crate::csv_api::pow10(k) == 10 * crate::csv_api::pow10((k - 1) as nat));
        if k == 1 {
            assert(false);
        }
        lemma_nat_text_len(n / 10, (k - 1) as nat, crate::csv_api::pow10((k - 1) as nat));
    }
}

/// `k` zeros.
pub open spec fn spec_zeros(k: nat) -> Seq<char> {
    Seq::new(k, |i: int| '0')
}

/// An integer in decimal, padded with zeros after its sign to `w`
/// characters, as std's `{:0w}` writes it.
pub open spec fn spec_padded(n: int, w: nat) -> Seq<char> {
    let sign: Seq<char> = if n < 0 { seq!['-'] } else { Seq::empty() };
    let digits = spec_nat_text(if n < 0 { (-n) as nat } else { n as nat });
    let used = sign.len() + digits.len();
    sign + spec_zeros(if used < w { (w - used) as nat } else { 0 }) + digits
}

/// Writes an integer as `spec_padded` says.
pub fn padded_text(n: i64, w: usize) -> (r: String)
    ensures
        r@ == spec_padded(n as int, w as nat),
{
    let a: i128 = if n < 0 { -(n as i128) } else { n as i128 };
    let digits = int_text(a);
    let ds = digits.as_str();
    let dl = ds.unicode_len();
    proof {
        reveal_strlit("-");
        reveal_strlit("0");
    }
    let ghost sign: Seq<char> = if n < 0 { seq!['-'] } else { Seq::empty() };
    let mut out = String::new();
    let target: usize = if n < 0 {
        out.append("-");
        if w > 0 { w - 1 } else { 0 }
    } else {
        w
    };
    assert(out@ =~= sign);
    let mut k: usize = dl;
    while k < target
        invariant
            dl <= k,
            dl < target ==> k <= target,
            dl >= target ==> k == dl,
            out@ =~= sign + spec_zeros((k - dl) as nat),
            "0"@ == seq!['0'],
        decreases target - k,
    {
        out.append("0");
        k = k + 1;
        assert(out@ =~= sign + spec_zeros((k - dl) as nat));
    }
    out.append(ds);
    proof {
        assert(ds@ == spec_nat_text(if n < 0 { (-n) as nat } else { n as nat }));
        if dl >= target {
            assert(spec_zeros(0) =~= Seq::<char>::empty());
        }
        assert(out@ =~= spec_padded(n as int, w as nat));
    }
    out
}

/// A text without its trailing zeros.
pub open spec fn spec_trim_zeros(s: Seq<char>) -> Seq<char>
    decreases s.len(),
{
    if s.len() > 0 && s.last() == '0' {
        spec_trim_zeros(s.drop_last())
    } else {
        s
    }
}

/// The decimals of a fraction of `r` hundred-millionths, `0 < r < 10^8`:
/// eight digits, trailing zeros dropped.
pub open spec fn spec_frac_text(r: nat) -> Seq<char> {
    let t = spec_nat_text(r);
    spec_trim_zeros(spec_zeros((8 - t.len()) as nat) + t)
}

/// The text of a price held as hundred-millionths: its decimal value,
/// without trailing zeros, and without a dot when it is whole.
pub open spec fn spec_price_text(p: int) -> Seq<char> {
    let a: int = if p < 0 { -p } else { p };
    let q = a / 100_000_000;
    let r = a % 100_000_000;
    let sign: Seq<char> = if p < 0 { seq!['-'] } else { Seq::empty() };
    if r == 0 {
        sign + spec_nat_text(q as nat)
    } else {
        sign + spec_nat_text(q as nat) + seq!['.'] + spec_frac_text(r as nat)
    }
}

/// Writes a price as `spec_price_text` says.
pub fn price_text(p: i64) -> (r: String)
    ensures
        r@ == spec_price_text(p as int),
{
    let a: i128 = if p < 0 { -(p as i128) } else { p as i128 };
    let q: i128 = a / 100_000_000;
    let rem: i128 = a % 100_000_000;
    let ghost sign: Seq<char> = if p < 0 { seq!['-'] } else { Seq::empty() };
    proof {
        reveal_strlit("-");
        reveal_strlit(".");
        reveal_strlit("0");
    }
    let mut out = String::new();
    if p < 0 {
        out.append("-");
    }
    assert(out@ == sign);
    let qt = int_text(q);
    out.append(qt.as_str());
    assert(out@ == sign + spec_nat_text(q as nat));
    if rem != 0 {
        out.append(".");
        let t = int_text(rem);
        let ts = t.as_str();
        let tl = ts.unicode_len();
        proof {
            assert(crate::csv_api::pow10(8) == 100_000_000) by {
                reveal_with_fuel(crate::csv_api::pow10, 9);
            }
            lemma_nat_text_len(rem as nat, 8, 100_000_000);
        }
        let mut k: usize = tl;
        let mut frac = String::new();
        while k < 8
            invariant
                0 < rem,
                tl == spec_nat_text(rem as nat).len(),
                tl <= k <= 8,
                frac@ == spec_zeros((k - tl) as nat),
                "0"@ == seq!['0'],
            decreases 8 - k,
        {
            frac.append("0");
            k = k + 1;
            assert(frac@ =~= spec_zeros((k - tl) as nat));
        }
        frac.append(ts);
        let ghost s = frac@;
        assert(s == spec_zeros((8 - spec_nat_text(rem as nat).len()) as nat) + spec_nat_text(rem as nat));
        let fs = frac.as_str();
        let n = fs.unicode_len();
        let mut j: usize = n;
        proof {
            assert(s.take(n as int) =~= s);
        }
        while j > 0 && fs.get_char(j - 1) == '0'
            invariant
                fs@ == s,
                n == s.len(),
                j <= n,
                spec_trim_zeros(s.take(j as int)) == spec_trim_zeros(s),
            decreases j,
        {
            proof {
                assert(s.take(j as int).drop_last() =~= s.take(j - 1));
            }
            j = j - 1;
        }
        proof {
            assert(s.take(n as int) =~= s);
            assert(spec_trim_zeros(s.take(j as int)) == s.take(j as int));
        }
        out.append(fs.substring_char(0, j));
        proof {
            assert(fs@.subrange(0, j as int) =~= s.take(j as int));
        }
    }
    out
}

// ---------------------------------------------------------------------------
// Names

pub open spec fn spec_kline_dir_text(d: KLINE_DIR) -> Seq<char> {
    match d {
        KLINE_DIR::UP => "UP"@,
        KLINE_DIR::DOWN => "DOWN"@,
        KLINE_DIR::COMBINE => "COMBINE"@,
        KLINE_DIR::INCLUDED => "INCLUDED"@,
    }
}

pub open spec fn spec_fx_text(f: FX_TYPE) -> Seq<char> {
    match f {
        FX_TYPE::BOTTOM => "BOTTOM"@,
        FX_TYPE::TOP => "TOP"@,
        FX_TYPE::UNKNOWN => "UNKNOWN"@,
    }
}

pub open spec fn spec_bi_dir_text(d: BI_DIR) -> Seq<char> {
    match d {
        BI_DIR::UP => "UP"@,
        BI_DIR::DOWN => "DOWN"@,
    }
}

pub open spec fn spec_bi_type_text(t: BI_TYPE) -> Seq<char> {
    match t {
        BI_TYPE::UNKNOWN => "UNKNOWN"@,
        BI_TYPE::STRICT => "STRICT"@,
        BI_TYPE::SUB_VALUE => "SUB_VALUE"@,
        BI_TYPE::TIAOKONG_THRED => "TIAOKONG_THRED"@,
        BI_TYPE::DAHENG => "DAHENG"@,
        BI_TYPE::TUIBI => "TUIBI"@,
        BI_TYPE::UNSTRICT => "UNSTRICT"@,
        BI_TYPE::TIAOKONG_VALUE => "TIAOKONG_VALUE"@,
    }
}

/// The name of a buy/sell point kind, as the settings write it.
pub open spec fn spec_bsp_type_text(t: BSP_TYPE) -> Seq<char> {
    match t {
        BSP_TYPE::T1 => "1"@,
        BSP_TYPE::T1P => "1p"@,
        BSP_TYPE::T2 => "2"@,
        BSP_TYPE::T2S => "2s"@,
        BSP_TYPE::T3A => "3a"@,
        BSP_TYPE::T3B => "3b"@,
    }
}

impl BSP_TYPE {
    /// The kind's name, as the settings write it.
    pub fn text(&self) -> (r: String)
        ensures
            r@ == spec_bsp_type_text(*self),
    {
        match self {
            BSP_TYPE::T1 => "1".to_owned(),
            BSP_TYPE::T1P => "1p".to_owned(),
            BSP_TYPE::T2 => "2".to_owned(),
            BSP_TYPE::T2S => "2s".to_owned(),
            BSP_TYPE::T3A => "3a".to_owned(),
            BSP_TYPE::T3B => "3b".to_owned(),
        }
    }
}

/// A flag as the tables write it.
pub open spec fn spec_bool_text(b: bool) -> Seq<char> {
    if b { "True"@ } else { "False"@ }
}

impl KLINE_DIR {
    /// The variant's name.
    pub fn text(&self) -> (r: String)
        ensures
            r@ == spec_kline_dir_text(*self),
    {
        match self {
            KLINE_DIR::UP => "UP".to_owned(),
            KLINE_DIR::DOWN => "DOWN".to_owned(),
            KLINE_DIR::COMBINE => "COMBINE".to_owned(),
            KLINE_DIR::INCLUDED => "INCLUDED".to_owned(),
        }
    }
}

impl FX_TYPE {
    /// The variant's name.
    pub fn text(&self) -> (r: String)
        ensures
            r@ == spec_fx_text(*self),
    {
        match self {
            FX_TYPE::BOTTOM => "BOTTOM".to_owned(),
            FX_TYPE::TOP => "TOP".to_owned(),
            FX_TYPE::UNKNOWN => "UNKNOWN".to_owned(),
        }
    }
}

impl BI_DIR {
    /// The variant's name.
    pub fn text(&self) -> (r: String)
        ensures
            r@ == spec_bi_dir_text(*self),
    {
        match self {
            BI_DIR::UP => "UP".to_owned(),
            BI_DIR::DOWN => "DOWN".to_owned(),
        }
    }
}

impl BI_TYPE {
    /// The variant's name.
    pub fn text(&self) -> (r: String)
        ensures
            r@ == spec_bi_type_text(*self),
    {
        match self {
            BI_TYPE::UNKNOWN => "UNKNOWN".to_owned(),
            BI_TYPE::STRICT => "STRICT".to_owned(),
            BI_TYPE::SUB_VALUE => "SUB_VALUE".to_owned(),
            BI_TYPE::TIAOKONG_THRED => "TIAOKONG_THRED".to_owned(),
            BI_TYPE::DAHENG => "DAHENG".to_owned(),
            BI_TYPE::TUIBI => "TUIBI".to_owned(),
            BI_TYPE::UNSTRICT => "UNSTRICT".to_owned(),
            BI_TYPE::TIAOKONG_VALUE => "TIAOKONG_VALUE".to_owned(),
        }
    }
}

/// Writes a flag as the tables do.
pub fn bool_text(b: bool) -> (r: String)
    ensures
        r@ == spec_bool_text(b),
{
    if b { "True".to_owned() } else { "False".to_owned() }
}

// ---------------------------------------------------------------------------
// Times

/// A year as chrono's `%Y` writes it: four digits from 0 to 9999,
/// otherwise with its sign, negative years padded to four digits.
pub open spec fn spec_year_text(y: int) -> Seq<char> {
    if 0 <= y <= 9999 {
        spec_padded(y, 4)
    } else if y < 0 {
        spec_padded(y, 5)
    } else {
        seq!['+'] + spec_nat_text(y as nat)
    }
}

/// A minute as chrono writes it with `%Y-%m-%d %H:%M`.
pub open spec fn spec_minute_text(y: int, mo: int, d: int, h: int, mi: int) -> Seq<char> {
    spec_year_text(y) + seq!['-'] + spec_padded(mo, 2) + seq!['-'] + spec_padded(d, 2) + seq![' '] + spec_padded(h, 2)
        + seq![':'] + spec_padded(mi, 2)
}

/// `chrono::DateTime::<Utc>::from_timestamp`, then `format` with the
/// format `fmt`, which is to be `%Y-%m-%d %H:%M`; `None` where chrono has no
/// date for the timestamp. Claimed: there is a text exactly in chrono's
/// range, and it is the minute of a date and time whose timestamp is `t`
/// (UTC), written as chrono's formatting source writes each field.
#[verifier::external_body]
fn time_text(t: i64, fmt: &str) -> (r: Option<String>)
    requires
        fmt@ == "%Y-%m-%d %H:%M"@,
    ensures
        r is Some <==> in_chrono_range(t as int),
        r matches Some(s) ==> exists|y: int, mo: int, d: int, h: int, mi: int, sec: int|
            #[trigger] civil_ok(y, mo, d, h, mi, sec) && epoch_seconds(y, mo, d, h, mi, sec) == t
                && s@ == spec_minute_text(y, mo, d, h, mi),
{
    match chrono::DateTime::<chrono::Utc>::from_timestamp(t, 0) {
        Some(d) => Some(d.format(fmt).to_string()),
        None => None,
    }
}

/// The text of a time in the tables: the minute it falls in (UTC), as
/// `%Y-%m-%d %H:%M` writes it, or nothing out of chrono's range.
pub open spec fn spec_time_cell(t: i64) -> Seq<char> {
    if in_chrono_range(t as int) {
        let (y, mo, d, h, mi, sec) = choose|y: int, mo: int, d: int, h: int, mi: int, sec: int|
            civil_ok(y, mo, d, h, mi, sec) && epoch_seconds(y, mo, d, h, mi, sec) == t;
        spec_minute_text(y, mo, d, h, mi)
    } else {
        Seq::empty()
    }
}

/// Writes a time as `spec_time_cell` says.
pub fn time_cell(t: i64) -> (r: String)
    ensures
        r@ == spec_time_cell(t),
{
    match time_text(t, "%Y-%m-%d %H:%M") {
        Some(s) => {
            proof {
                let (y1, mo1, d1, h1, mi1, s1) = choose|y: int, mo: int, d: int, h: int, mi: int, sec: int|
                    #[trigger] civil_ok(y, mo, d, h, mi, sec) && epoch_seconds(y, mo, d, h, mi, sec) == t
                        && s@ == spec_minute_text(y, mo, d, h, mi);
                let (y2, mo2, d2, h2, mi2, s2) = choose|y: int, mo: int, d: int, h: int, mi: int, sec: int|
                    civil_ok(y, mo, d, h, mi, sec) && epoch_seconds(y, mo, d, h, mi, sec) == t;
                lemma_civil_unique(y1, mo1, d1, h1, mi1, s1, y2, mo2, d2, h2, mi2, s2);
            }
            s
        },
        None => String::new(),
    }
}

} // verus!

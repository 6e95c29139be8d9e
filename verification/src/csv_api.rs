use vstd::prelude::*;
use vstd::string::StringSliceAdditionalSpecFns;
use vstd::utf8::encode_utf8;
use crate::enums::KL_TYPE;
use crate::exception::{CChanException, ErrCode};
use crate::kline_unit::{unit_prices_ok, CKLineUnit};

verus! {

/// Prices are held as integers: the price times `PRICE_SCALE`, that is with
/// eight decimals.
pub const PRICE_SCALE: i64 = 100_000_000;

/// The columns of a bar file.
#[derive(Debug, Clone, Copy, PartialEq, Eq, Structural)]
pub enum DataField {
    FieldTime,
    FieldOpen,
    FieldHigh,
    FieldLow,
    FieldClose,
    FieldVolume,
}

// ---------------------------------------------------------------------------
// Splitting a row into fields

/// The index of the first comma at or after `i`, or the length.
pub open spec fn next_comma(s: Seq<char>, i: int) -> int
    decreases s.len() - i,
{
    if i >= s.len() {
        s.len() as int
    } else if s[i] == ',' {
        i
    } else {
        next_comma(s, i + 1)
    }
}

/// The fields of a row from position `i` on, separated by commas.
pub open spec fn spec_split_from(s: Seq<char>, i: int) -> Seq<Seq<char>>
    decreases s.len() - i,
{
    if i > s.len() || i < 0 {
        seq![]
    } else {
        let j = next_comma(s, i);
        proof {
            lemma_next_comma(s, i);
        }
        if j >= s.len() {
            seq![s.subrange(i, s.len() as int)]
        } else {
            seq![s.subrange(i, j)] + spec_split_from(s, j + 1)
        }
    }
}

pub proof fn lemma_next_comma(s: Seq<char>, i: int)
    requires
        0 <= i <= s.len(),
    ensures
        i <= next_comma(s, i) <= s.len(),
        next_comma(s, i) < s.len() ==> s[next_comma(s, i)] == ',',
        forall|k: int| i <= k < next_comma(s, i) ==> s[k] != ',',
    decreases s.len() - i,
{
    if i < s.len() && s[i] != ',' {
        lemma_next_comma(s, i + 1);
    }
}

/// The fields of a row, split at every comma.
pub fn split_fields(line: &str) -> (r: Vec<String>)
    ensures
        r@.len() == spec_split_from(line@, 0).len(),
        forall|k: int| 0 <= k < r@.len() ==> #[trigger] r@[k]@ == spec_split_from(line@, 0)[k],
{
    let n = line.unicode_len();
    let mut out: Vec<String> = Vec::new();
    let mut start: usize = 0;
    let mut i: usize = 0;
    let ghost s = line@;
    while i < n
        invariant
            n == s.len(),
            s == line@,
            start <= i <= n,
            forall|k: int| start <= k < i ==> s[k] != ',',
            out@.len() + spec_split_from(s, start as int).len() == spec_split_from(s, 0).len(),
            forall|k: int| 0 <= k < out@.len() ==> #[trigger] out@[k]@ == spec_split_from(s, 0)[k],
            forall|k: int| 0 <= k < spec_split_from(s, start as int).len() ==> #[trigger] spec_split_from(s, start as int)[k]
                == spec_split_from(s, 0)[out@.len() + k],
        decreases n - i,
    {
        if line.get_char(i) == ',' {
            proof {
                assert(next_comma(s, start as int) == i) by {
                    lemma_next_comma_at(s, start as int, i as int);
                }
            }
            let field = line.substring_char(start, i).to_owned();
            let ghost before = out@;
            let ghost rest = spec_split_from(s, start as int);
            out.push(field);
            proof {
                assert(rest == seq![s.subrange(start as int, i as int)] + spec_split_from(s, i + 1));
                assert(rest[0] == s.subrange(start as int, i as int));
                assert(out@[before.len() as int]@ == spec_split_from(s, 0)[before.len() as int]);
                assert forall|k: int| 0 <= k < spec_split_from(s, i + 1).len() implies #[trigger] spec_split_from(s, i + 1)[k]
                    == spec_split_from(s, 0)[out@.len() + k] by {
                    assert(spec_split_from(s, i + 1)[k] == rest[k + 1]);
                }
            }
            start = i + 1;
        }
        i = i + 1;
    }
    proof {
        assert(next_comma(s, start as int) == n) by {
            lemma_next_comma_at(s, start as int, n as int);
        }
    }
    let field = line.substring_char(start, n).to_owned();
    let ghost before = out@;
    out.push(field);
    proof {
        assert(spec_split_from(s, start as int) == seq![s.subrange(start as int, n as int)]);
        assert(spec_split_from(s, start as int)[0] == spec_split_from(s, 0)[before.len() as int]);
        assert(out@[before.len() as int]@ == s.subrange(start as int, n as int));
        assert forall|k: int| 0 <= k < out@.len() implies #[trigger] out@[k]@ == spec_split_from(s, 0)[k] by {
            if k < before.len() {
                assert(out@[k] == before[k]);
            }
        }
    }
    out
}

proof fn lemma_next_comma_at(s: Seq<char>, i: int, j: int)
    requires
        0 <= i <= j <= s.len(),
        forall|k: int| i <= k < j ==> s[k] != ',',
        j == s.len() || s[j] == ',',
    ensures
        next_comma(s, i) == j,
    decreases j - i,
{
    if i < j {
        lemma_next_comma_at(s, i + 1, j);
    }
}

// ---------------------------------------------------------------------------
// Decimal prices

pub open spec fn is_digit(c: char) -> bool {
    '0' <= c && c <= '9'
}

pub open spec fn digit_val(c: char) -> int {
    c as int - '0' as int
}

/// The value of the decimal digits `s[lo..hi]`.
pub open spec fn digits_val(s: Seq<char>, lo: int, hi: int) -> int
    decreases hi - lo,
{
    if hi <= lo {
        0
    } else {
        digits_val(s, lo, hi - 1) * 10 + digit_val(s[hi - 1])
    }
}

pub open spec fn all_digits(s: Seq<char>, lo: int, hi: int) -> bool {
    forall|k: int| lo <= k < hi ==> #[trigger] is_digit(s[k])
}

/// The index of the first dot at or after `i`, or the length.
pub open spec fn next_dot(s: Seq<char>, i: int) -> int
    decreases s.len() - i,
{
    if i >= s.len() {
        s.len() as int
    } else if s[i] == '.' {
        i
    } else {
        next_dot(s, i + 1)
    }
}

pub open spec fn pow10(n: nat) -> int
    decreases n,
{
    if n == 0 { 1 } else { 10 * pow10((n - 1) as nat) }
}

/// A decimal number (an optional sign, digits, an optional dot and more
/// digits, at least one digit in all) times `PRICE_SCALE`, decimals past the
/// eighth dropped; `None` for any other text.
pub open spec fn spec_decimal(s: Seq<char>) -> Option<int> {
    let neg = s.len() > 0 && s[0] == '-';
    let st: int = if s.len() > 0 && (s[0] == '-' || s[0] == '+') { 1 } else { 0 };
    let dot = next_dot(s, st);
    let fst: int = if dot < s.len() { dot + 1 } else { s.len() as int };
    let flen = s.len() - fst;
    let used: int = if flen > 8 { 8 } else { flen };
    let int_part = digits_val(s, st, dot);
    let frac = digits_val(s, fst, fst + used) * pow10((8 - used) as nat);
    let v = int_part * 100_000_000 + frac;
    if all_digits(s, st, dot) && all_digits(s, fst, s.len() as int) && (dot - st) + flen > 0 {
        Some(if neg { -v } else { v })
    } else {
        None
    }
}

/// A price read from text: its value times `PRICE_SCALE` (see
/// `spec_number`), or 0 when the text is no number of that form or the value
/// does not fit.
pub open spec fn spec_price(s: Seq<char>) -> i64 {
    match spec_number_i64(s) {
        Some(v) => v,
        None => 0,
    }
}

pub(crate) proof fn lemma_digits_grow(s: Seq<char>, lo: int, k: int, hi: int)
    requires
        lo <= k <= hi,
        all_digits(s, lo, hi),
    ensures
        0 <= digits_val(s, lo, k) <= digits_val(s, lo, hi),
    decreases hi - k,
{
    lemma_digits_nonneg(s, lo, hi);
    if k < hi {
        lemma_digits_grow(s, lo, k, hi - 1);
        assert(is_digit(s[hi - 1]));
        lemma_digits_nonneg(s, lo, hi - 1);
    }
}

pub(crate) proof fn lemma_digits_nonneg(s: Seq<char>, lo: int, hi: int)
    requires
        all_digits(s, lo, hi),
    ensures
        digits_val(s, lo, hi) >= 0,
    decreases hi - lo,
{
    if hi > lo {
        lemma_digits_nonneg(s, lo, hi - 1);
        assert(is_digit(s[hi - 1]));
    }
}

proof fn lemma_next_dot(s: Seq<char>, i: int)
    requires
        0 <= i <= s.len(),
    ensures
        i <= next_dot(s, i) <= s.len(),
        next_dot(s, i) < s.len() ==> s[next_dot(s, i)] == '.',
        forall|k: int| i <= k < next_dot(s, i) ==> s[k] != '.',
    decreases s.len() - i,
{
    if i < s.len() && s[i] != '.' {
        lemma_next_dot(s, i + 1);
    }
}

/// Reads a price, as `spec_price` says.
pub fn parse_price(text: &str) -> (r: i64)
    ensures
        r == spec_price(text@),
{
    match parse_number(text) {
        Some(v) => v,
        None => 0,
    }
}

/// A decimal number, as `spec_decimal` reads it, when it fits an `i64`.
pub open spec fn spec_decimal_i64(s: Seq<char>) -> Option<i64> {
    match spec_decimal(s) {
        Some(v) => if i64::MIN <= v <= i64::MAX { Some(v as i64) } else { None },
        None => None,
    }
}

/// Reads a decimal number, as `spec_decimal_i64` says.
pub fn parse_decimal(text: &str) -> (r: Option<i64>)
    ensures
        r == spec_decimal_i64(text@),
{
    let ghost s = text@;
    let n = text.unicode_len();
    let c0 = if n > 0 { text.get_char(0) } else { ' ' };
    let neg = n > 0 && c0 == '-';
    let st: usize = if n > 0 && (c0 == '-' || c0 == '+') { 1 } else { 0 };
    // Integer part.
    let mut i = st;
    let mut int_part: i128 = 0;
    let limit: i128 = i64::MAX as i128 / 100_000_000 + 1;
    let mut too_big = false;
    while i < n && text.get_char(i) != '.'
        invariant
            n == s.len(),
            s == text@,
            st <= i <= n,
            st == (if s.len() > 0 && (s[0] == '-' || s[0] == '+') { 1int } else { 0int }),
            neg == (s.len() > 0 && s[0] == '-'),
            limit == i64::MAX as i128 / 100_000_000 + 1,
            forall|k: int| st <= k < i ==> s[k] != '.',
            !too_big ==> all_digits(s, st as int, i as int) && int_part == digits_val(s, st as int, i as int)
                && 0 <= int_part < limit,
            too_big ==> (all_digits(s, st as int, i as int) ==> digits_val(s, st as int, i as int) >= limit),
        decreases n - i,
    {
        let c = text.get_char(i);
        if !('0' <= c && c <= '9') {
            proof {
                lemma_next_dot(s, st as int);
                assert(next_dot(s, st as int) >= i + 1 || s[next_dot(s, st as int)] == '.') by {
                    if next_dot(s, st as int) <= i {
                        assert(s[next_dot(s, st as int)] == '.');
                    }
                }
                assert(!all_digits(s, st as int, next_dot(s, st as int))) by {
                    if next_dot(s, st as int) > i {
                        assert(!is_digit(s[i as int]));
                    } else {
                        assert(s[next_dot(s, st as int)] == '.');
                        assert(false);
                    }
                }
            }
            return None;
        }
        if !too_big {
            let d = (c as u32 - '0' as u32) as i128;
            int_part = int_part * 10 + d;
            proof {
                assert(digit_val(s[i as int]) == d);
            }
            if int_part >= limit {
                too_big = true;
            }
        } else {
            proof {
                if all_digits(s, st as int, i + 1) {
                    lemma_digits_grow(s, st as int, i as int, i + 1);
                }
            }
        }
        i = i + 1;
    }
    let dot = i;
    proof {
        lemma_next_dot(s, st as int);
        lemma_next_dot_at(s, st as int, dot as int);
    }
    let fst = if dot < n { dot + 1 } else { n };
    let flen = n - fst;
    let used = if flen > 8 { 8 } else { flen };
    proof {
        reveal_with_fuel(pow10, 9);
        assert(pow10(8) == 100_000_000);
    }
    // Fraction part: all must be digits, the first eight are used.
    let mut k = fst;
    let mut frac: i128 = 0;
    while k < n
        invariant
            n == s.len(),
            s == text@,
            fst <= k <= n,
            dot as int == next_dot(s, st as int),
            fst as int == (if dot < n { dot + 1 } else { n as int }),
            st == (if s.len() > 0 && (s[0] == '-' || s[0] == '+') { 1int } else { 0int }),
            neg == (s.len() > 0 && s[0] == '-'),
            used <= 8,
            used == (if n - fst > 8 { 8 } else { n - fst }),
            all_digits(s, fst as int, k as int),
            frac == digits_val(s, fst as int, if k <= fst + used { k as int } else { (fst + used) as int }),
            0 <= frac < pow10((if k <= fst + used { k - fst } else { used as int }) as nat),
            pow10(8) == 100_000_000,
        decreases n - k,
    {
        let c = text.get_char(k);
        if !('0' <= c && c <= '9') {
            proof {
                assert(!is_digit(s[k as int]));
            }
            return None;
        }
        if k < fst + used {
            let d = (c as u32 - '0' as u32) as i128;
            proof {
                assert(digit_val(s[k as int]) == d);
                lemma_pow_mono((k - fst) as nat, 7);
                reveal_with_fuel(pow10, 9);
                assert(pow10((k + 1 - fst) as nat) == 10 * pow10((k - fst) as nat));
            }
            frac = frac * 10 + d;
        }
        proof {
            assert(is_digit(s[k as int]));
        }
        k = k + 1;
    }
    if (dot - st) + flen == 0 {
        return None;
    }
    if too_big {
        proof {
            lemma_digits_nonneg(s, fst as int, (fst + used) as int);
            lemma_pow_pos((8 - used) as nat);
            let f = digits_val(s, fst as int, (fst + used) as int);
            let p = pow10((8 - used) as nat);
            assert(f * p >= 0) by (nonlinear_arith)
                requires
                    f >= 0,
                    p >= 1,
            ;
        }
        return None;
    }
    let mut scale: i128 = 1;
    let mut m = used;
    while m < 8
        invariant
            used <= m <= 8,
            scale == pow10((m - used) as nat),
            pow10(8) == 100_000_000,
        decreases 8 - m,
    {
        proof {
            lemma_pow_mono((m + 1 - used) as nat, 8);
            reveal_with_fuel(pow10, 2);
        }
        scale = scale * 10;
        m = m + 1;
    }
    proof {
        lemma_pow_split(used as nat, (8 - used) as nat);
        let p1 = pow10(used as nat);
        let p2 = pow10((8 - used) as nat);
        assert(frac * scale < 100_000_000 && frac * scale >= 0) by (nonlinear_arith)
            requires
                0 <= frac < p1,
                scale == p2,
                p2 >= 1,
                p1 * p2 == 100_000_000,
        ;
    }
    let v: i128 = int_part * 100_000_000 + frac * scale;
    let signed = if neg { -v } else { v };
    if signed < i64::MIN as i128 || signed > i64::MAX as i128 {
        return None;
    }
    Some(signed as i64)
}

proof fn lemma_next_dot_at(s: Seq<char>, i: int, j: int)
    requires
        0 <= i <= j <= s.len(),
        forall|k: int| i <= k < j ==> s[k] != '.',
        j == s.len() || s[j] == '.',
    ensures
        next_dot(s, i) == j,
    decreases j - i,
{
    if i < j {
        lemma_next_dot_at(s, i + 1, j);
    }
}

proof fn lemma_pow_pos(n: nat)
    ensures
        pow10(n) >= 1,
    decreases n,
{
    if n > 0 {
        lemma_pow_pos((n - 1) as nat);
    }
}

proof fn lemma_pow_mono(a: nat, b: nat)
    requires
        a <= b,
    ensures
        1 <= pow10(a) <= pow10(b),
    decreases b,
{
    lemma_pow_pos(a);
    if a < b {
        lemma_pow_mono(a, (b - 1) as nat);
    }
}

proof fn lemma_pow_split(a: nat, b: nat)
    ensures
        pow10(a) * pow10(b) == pow10(a + b),
        pow10(b) >= 1,
    decreases a,
{
    lemma_pow_pos(b);
    if a > 0 {
        lemma_pow_split((a - 1) as nat, b);
        assert(pow10(a) * pow10(b) == 10 * (pow10((a - 1) as nat) * pow10(b))) by (nonlinear_arith)
            requires
                pow10(a) == 10 * pow10((a - 1) as nat),
        ;
    }
}

// ---------------------------------------------------------------------------
// Numbers in exponent form

/// The index of the first `e` or `E` at or after `i`, or the length.
pub open spec fn next_exp(s: Seq<char>, i: int) -> int
    decreases s.len() - i,
{
    if i >= s.len() {
        s.len() as int
    } else if s[i] == 'e' || s[i] == 'E' {
        i
    } else {
        next_exp(s, i + 1)
    }
}

/// An exponent: an optional sign and at least one digit.
pub open spec fn spec_exponent(t: Seq<char>) -> Option<int> {
    let neg = t.len() > 0 && t[0] == '-';
    let st: int = if t.len() > 0 && (t[0] == '-' || t[0] == '+') { 1 } else { 0 };
    if st < t.len() && all_digits(t, st, t.len() as int) {
        let v = digits_val(t, st, t.len() as int);
        Some(if neg { -v } else { v })
    } else {
        None
    }
}

/// `v` times ten to the `e`, toward zero.
pub open spec fn scale10(v: int, e: int) -> int {
    if e >= 0 {
        v * pow10(e as nat)
    } else if v >= 0 {
        v / pow10((-e) as nat)
    } else {
        -((-v) / pow10((-e) as nat))
    }
}

/// A number times `PRICE_SCALE`, in decimal form (as `spec_decimal` reads
/// it) or in exponent form: a decimal mantissa that fits an `i64` once
/// scaled, `e` or `E`, and an exponent; the mantissa is read to eight
/// decimals and then scaled, toward zero.
pub open spec fn spec_number(s: Seq<char>) -> Option<int> {
    let p = next_exp(s, 0);
    if p == s.len() {
        spec_decimal(s)
    } else {
        match (spec_decimal_i64(s.subrange(0, p)), spec_exponent(s.subrange(p + 1, s.len() as int))) {
            (Some(m), Some(e)) => Some(scale10(m as int, e)),
            _ => None,
        }
    }
}

/// A number, as `spec_number` reads it, when it fits an `i64`.
pub open spec fn spec_number_i64(s: Seq<char>) -> Option<i64> {
    match spec_number(s) {
        Some(v) => if i64::MIN <= v <= i64::MAX { Some(v as i64) } else { None },
        None => None,
    }
}

proof fn lemma_next_exp(s: Seq<char>, i: int)
    requires
        0 <= i <= s.len(),
    ensures
        i <= next_exp(s, i) <= s.len(),
        next_exp(s, i) < s.len() ==> (s[next_exp(s, i)] == 'e' || s[next_exp(s, i)] == 'E'),
        forall|k: int| i <= k < next_exp(s, i) ==> s[k] != 'e' && s[k] != 'E',
    decreases s.len() - i,
{
    if i < s.len() && s[i] != 'e' && s[i] != 'E' {
        lemma_next_exp(s, i + 1);
    }
}

/// The index of the first `e` or `E`, or the length.
fn exp_at(text: &str) -> (p: usize)
    ensures
        p == next_exp(text@, 0),
        p <= text@.len(),
{
    let ghost s = text@;
    let n = text.unicode_len();
    let mut i: usize = 0;
    while i < n
        invariant
            n == s.len(),
            s == text@,
            i <= n,
            next_exp(s, 0) == next_exp(s, i as int),
        decreases n - i,
    {
        let c = text.get_char(i);
        if c == 'e' || c == 'E' {
            return i;
        }
        i = i + 1;
    }
    i
}

/// An exponent, as `spec_exponent` reads it, held within a thousand either
/// way: a larger one reads as a thousand and one, with its sign.
fn parse_exponent(t: &str) -> (r: Option<i64>)
    ensures
        r is Some <==> spec_exponent(t@) is Some,
        r matches Some(x) ==> {
            let e = spec_exponent(t@)->0;
            &&& -1001 <= x <= 1001
            &&& -1000 <= e <= 1000 ==> x == e
            &&& e > 1000 ==> x == 1001
            &&& e < -1000 ==> x == -1001
        },
{
    let ghost s = t@;
    let n = t.unicode_len();
    let c0 = if n > 0 { t.get_char(0) } else { ' ' };
    let neg = n > 0 && c0 == '-';
    let st: usize = if n > 0 && (c0 == '-' || c0 == '+') { 1 } else { 0 };
    if st >= n {
        return None;
    }
    let mut i = st;
    let mut acc: i64 = 0;
    while i < n
        invariant
            n == s.len(),
            s == t@,
            st < n,
            st <= i <= n,
            st == (if s.len() > 0 && (s[0] == '-' || s[0] == '+') { 1int } else { 0int }),
            neg == (s.len() > 0 && s[0] == '-'),
            all_digits(s, st as int, i as int),
            0 <= acc <= 1001,
            acc <= 1000 ==> acc == digits_val(s, st as int, i as int),
            acc == 1001 ==> digits_val(s, st as int, i as int) > 1000,
        decreases n - i,
    {
        let c = t.get_char(i);
        if !('0' <= c && c <= '9') {
            proof {
                assert(!is_digit(s[i as int]));
            }
            return None;
        }
        let d = (c as u32 - '0' as u32) as i64;
        proof {
            assert(digit_val(s[i as int]) == d);
            assert(is_digit(s[i as int]));
            lemma_digits_nonneg(s, st as int, i as int);
        }
        if acc <= 1000 {
            acc = acc * 10 + d;
            if acc > 1000 {
                acc = 1001;
            }
        }
        i = i + 1;
    }
    if neg {
        Some(-acc)
    } else {
        Some(acc)
    }
}

/// Ten to the `k`.
fn pow10_i128(k: u32) -> (r: i128)
    requires
        k <= 20,
    ensures
        r == pow10(k as nat),
        r >= 1,
{
    let mut r: i128 = 1;
    let mut j: u32 = 0;
    while j < k
        invariant
            j <= k <= 20,
            r == pow10(j as nat),
        decreases k - j,
    {
        proof {
            lemma_pow_mono((j + 1) as nat, 20);
            reveal_with_fuel(pow10, 21);
            assert(pow10(20) == 100_000_000_000_000_000_000);
            reveal_with_fuel(pow10, 2);
        }
        r = r * 10;
        j = j + 1;
    }
    proof {
        lemma_pow_pos(k as nat);
    }
    r
}

proof fn lemma_pow10_19()
    ensures
        pow10(19) == 10_000_000_000_000_000_000,
{
    reveal_with_fuel(pow10, 20);
}

/// Scales a mantissa by ten to the `e`, as `scale10` says, when it fits.
fn scale_mantissa(m: i64, e: i64) -> (r: Option<i64>)
    requires
        -1001 <= e <= 1001,
    ensures
        ({
            let v = scale10(m as int, e as int);
            &&& r is Some <==> i64::MIN <= v <= i64::MAX
            &&& r matches Some(x) ==> x == v
        }),
{
    proof {
        lemma_pow10_19();
    }
    if e >= 19 {
        proof {
            lemma_pow_mono(19, e as nat);
            let p = pow10(e as nat);
            if m > 0 {
                assert(m * p >= p) by (nonlinear_arith)
                    requires
                        m >= 1,
                        p >= 1,
                ;
            } else if m < 0 {
                assert(m * p <= -p) by (nonlinear_arith)
                    requires
                        m <= -1,
                        p >= 1,
                ;
            }
        }
        if m == 0 {
            return Some(0);
        }
        return None;
    }
    if e <= -19 {
        proof {
            lemma_pow_mono(19, (-e) as nat);
            let p = pow10((-e) as nat);
            let a: int = if m >= 0 { m as int } else { -(m as int) };
            assert(a / p == 0) by (nonlinear_arith)
                requires
                    0 <= a < p,
            ;
        }
        return Some(0);
    }
    if e >= 0 {
        let p = pow10_i128(e as u32);
        proof {
            lemma_pow_mono(e as nat, 19);
            assert(-100_000_000_000_000_000_000_000_000_000_000_000_000 < m * p < 100_000_000_000_000_000_000_000_000_000_000_000_000)
                by (nonlinear_arith)
                requires
                    1 <= p <= 10_000_000_000_000_000_000,
                    -10_000_000_000_000_000_000 < m < 10_000_000_000_000_000_000,
            ;
        }
        let v: i128 = (m as i128) * p;
        if v < i64::MIN as i128 || v > i64::MAX as i128 {
            return None;
        }
        return Some(v as i64);
    }
    let p = pow10_i128((-e) as u32);
    let a: i128 = if m >= 0 { m as i128 } else { -(m as i128) };
    let q: i128 = a / p;
    proof {
        assert(0 <= q <= a) by (nonlinear_arith)
            requires
                q == a / p,
                a >= 0,
                p >= 1,
        ;
    }
    if m >= 0 {
        Some(q as i64)
    } else {
        Some((-q) as i64)
    }
}

/// Reads a number in decimal or exponent form, as `spec_number_i64` says.
pub fn parse_number(text: &str) -> (r: Option<i64>)
    ensures
        r == spec_number_i64(text@),
{
    let ghost s = text@;
    let n = text.unicode_len();
    let p = exp_at(text);
    if p == n {
        return parse_decimal(text);
    }
    let mant = text.substring_char(0, p);
    let expo = text.substring_char(p + 1, n);
    let m = match parse_decimal(mant) {
        Some(x) => x,
        None => {
            return None;
        },
    };
    let e = match parse_exponent(expo) {
        Some(x) => x,
        None => {
            return None;
        },
    };
    proof {
        let ev = spec_exponent(expo@)->0;
        if ev > 1000 || ev < -1000 {
            // Past nineteen either way the result is the same as at a
            // thousand and one.
            lemma_pow10_19();
            let big: int = if ev > 1000 { 1001 } else { -1001 };
            lemma_pow_mono(19, 1001);
            if ev > 1000 {
                lemma_pow_mono(19, ev as nat);
            } else {
                lemma_pow_mono(19, (-ev) as nat);
            }
            lemma_scale_far(m as int, ev);
            lemma_scale_far(m as int, big);
        }
    }
    scale_mantissa(m, e)
}

/// Far from zero the exponent decides alone: either the scaled value does
/// not fit, or it is zero.
proof fn lemma_scale_far(m: int, e: int)
    requires
        i64::MIN <= m <= i64::MAX,
        e >= 19 || e <= -19,
    ensures
        e >= 19 ==> (m == 0 <==> i64::MIN <= scale10(m, e) <= i64::MAX),
        e >= 19 && m == 0 ==> scale10(m, e) == 0,
        e <= -19 ==> scale10(m, e) == 0,
{
    lemma_pow10_19();
    if e >= 19 {
        lemma_pow_mono(19, e as nat);
        let p = pow10(e as nat);
        if m > 0 {
            assert(m * p >= p) by (nonlinear_arith)
                requires
                    m >= 1,
                    p >= 1,
            ;
        } else if m < 0 {
            assert(m * p <= -p) by (nonlinear_arith)
                requires
                    m <= -1,
                    p >= 1,
            ;
        }
    } else {
        lemma_pow_mono(19, (-e) as nat);
        let p = pow10((-e) as nat);
        let a: int = if m >= 0 { m } else { -m };
        assert(a / p == 0) by (nonlinear_arith)
            requires
                0 <= a < p,
        ;
    }
}

proof fn lemma_frac_bound(s: Seq<char>, lo: int, hi: int, used: int)
    requires
        lo <= hi <= lo + used,
        used <= 8,
        all_digits(s, lo, hi),
    ensures
        0 <= digits_val(s, lo, hi) < pow10((hi - lo) as nat),
        pow10((hi - lo) as nat) <= pow10(8),
    decreases hi - lo,
{
    lemma_pow_mono((hi - lo) as nat, 8);
    if hi > lo {
        lemma_frac_bound(s, lo, hi - 1, used);
        assert(is_digit(s[hi - 1]));
        assert(pow10((hi - lo) as nat) == 10 * pow10((hi - 1 - lo) as nat));
    }
}

// ---------------------------------------------------------------------------
// Comparing texts

/// `a` comes before `b` in lexicographic order of their characters, as
/// Rust orders strings.
pub open spec fn text_lt(a: Seq<char>, b: Seq<char>) -> bool
    decreases a.len(),
{
    if a.len() == 0 {
        b.len() > 0
    } else if b.len() == 0 {
        false
    } else if a[0] != b[0] {
        (a[0] as u32) < (b[0] as u32)
    } else {
        text_lt(a.drop_first(), b.drop_first())
    }
}

proof fn lemma_text_lt_skip(a: Seq<char>, b: Seq<char>, i: int)
    requires
        0 <= i <= a.len(),
        i <= b.len(),
        forall|k: int| 0 <= k < i ==> a[k] == b[k],
    ensures
        text_lt(a, b) == text_lt(a.subrange(i, a.len() as int), b.subrange(i, b.len() as int)),
    decreases i,
{
    if i > 0 {
        assert(a[0] == b[0]);
        let a1 = a.drop_first();
        let b1 = b.drop_first();
        assert forall|k: int| 0 <= k < i - 1 implies a1[k] == b1[k] by {
            assert(a1[k] == a[k + 1]);
            assert(b1[k] == b[k + 1]);
        }
        lemma_text_lt_skip(a1, b1, i - 1);
        assert(a1.subrange(i - 1, a1.len() as int) =~= a.subrange(i, a.len() as int));
        assert(b1.subrange(i - 1, b1.len() as int) =~= b.subrange(i, b.len() as int));
    } else {
        assert(a.subrange(0, a.len() as int) =~= a);
        assert(b.subrange(0, b.len() as int) =~= b);
    }
}

/// Whether text `a` comes before text `b`.
pub fn text_less(a: &str, b: &str) -> (r: bool)
    ensures
        r == text_lt(a@, b@),
{
    let n = a.unicode_len();
    let m = b.unicode_len();
    let mut i: usize = 0;
    while i < n && i < m && a.get_char(i) == b.get_char(i)
        invariant
            n == a@.len(),
            m == b@.len(),
            i <= n,
            i <= m,
            forall|k: int| 0 <= k < i ==> a@[k] == b@[k],
        decreases n - i,
    {
        i = i + 1;
    }
    proof {
        lemma_text_lt_skip(a@, b@, i as int);
        let ra = a@.subrange(i as int, n as int);
        let rb = b@.subrange(i as int, m as int);
        if i < n && i < m {
            assert(ra[0] == a@[i as int]);
            assert(rb[0] == b@[i as int]);
        }
    }
    if i == n {
        i < m
    } else if i == m {
        false
    } else {
        (a.get_char(i) as u32) < (b.get_char(i) as u32)
    }
}

// ---------------------------------------------------------------------------
// Times

/// The time chrono reads from `s` as a date in format `fmt`: the seconds
/// from the epoch to that day's midnight, UTC.
pub uninterp spec fn spec_chrono_date(s: Seq<char>, fmt: Seq<char>) -> Option<i64>;

/// The time chrono reads from `s` as a date and time in format `fmt`: the
/// seconds from the epoch, UTC.
pub uninterp spec fn spec_chrono_datetime(s: Seq<char>, fmt: Seq<char>) -> Option<i64>;

/// `chrono::NaiveDate::parse_from_str`, then that day's midnight as a UTC
/// timestamp; `None` where chrono refuses the text. Claimed: the result
/// depends on the text and the format alone.
#[verifier::external_body]
fn chrono_date(s: &str, fmt: &str) -> (r: Option<i64>)
    ensures
        r == spec_chrono_date(s@, fmt@),
{
    match chrono::NaiveDate::parse_from_str(s, fmt) {
        Ok(d) => Some(d.and_time(chrono::NaiveTime::MIN).and_utc().timestamp()),
        Err(_) => None,
    }
}

/// `chrono::NaiveDateTime::parse_from_str`, then the UTC timestamp; `None`
/// where chrono refuses the text. Claimed: the result depends on the text
/// and the format alone, and a timestamp read is one of a date and time
/// that chrono can hold.
#[verifier::external_body]
pub(crate) fn chrono_datetime(s: &str, fmt: &str) -> (r: Option<i64>)
    ensures
        r == spec_chrono_datetime(s@, fmt@),
        r matches Some(t) ==> crate::ctime::in_chrono_range(t as int),
{
    match chrono::NaiveDateTime::parse_from_str(s, fmt) {
        Ok(d) => Some(d.and_utc().timestamp()),
        Err(_) => None,
    }
}

/// The format a time column of `n` bytes is read with: a date, a compact
/// date and time with milliseconds, or a date and time.
pub open spec fn spec_time_format(n: int) -> Option<(bool, Seq<char>)> {
    if n == 10 {
        Some((true, "%Y-%m-%d"@))
    } else if n == 17 {
        Some((false, "%Y%m%d%H%M%S000"@))
    } else if n == 19 {
        Some((false, "%Y-%m-%d %H:%M:%S"@))
    } else {
        None
    }
}

/// The time that time text `s` gives: chrono's reading of it in the format
/// its length in bytes calls for, `None` where there is no such format or
/// chrono refuses the text.
pub open spec fn spec_time_of(s: Seq<char>) -> Option<i64> {
    match spec_time_format(encode_utf8(s).len() as int) {
        None => None,
        Some((is_date, fmt)) => if is_date { spec_chrono_date(s, fmt) } else { spec_chrono_datetime(s, fmt) },
    }
}

/// What a time column gives once read: the time, or a format error.
pub fn time_from_parsed(inp: &str, parsed: Option<i64>) -> (r: Result<i64, CChanException>)
    ensures
        r is Ok <==> parsed is Some,
        r matches Ok(t) ==> Some(t) == parsed,
        r matches Err(e) ==> e.errcode == ErrCode::SrcDataFormatError,
        r matches Err(e) ==> e.msg@ == "Failed to parse time: "@ + inp@,
{
    match parsed {
        Some(t) => Ok(t),
        None => Err(CChanException::new(time_parse_message(inp), ErrCode::SrcDataFormatError)),
    }
}

/// Reads a time column by its length in bytes.
pub fn parse_time_column(inp: &str) -> (r: Result<i64, CChanException>)
    ensures
        spec_time_format(inp.len() as int) is None ==> (r matches Err(e) && e.errcode
            == ErrCode::SrcDataFormatError),
        spec_time_format(inp.len() as int) matches Some((is_date, fmt)) ==> ({
            let parsed = if is_date { spec_chrono_date(inp@, fmt) } else { spec_chrono_datetime(inp@, fmt) };
            &&& r is Ok <==> parsed is Some
            &&& r matches Ok(t) ==> Some(t) == parsed
            &&& r matches Err(e) ==> e.errcode == ErrCode::SrcDataFormatError
        }),
        r is Ok <==> spec_time_of(inp@) is Some,
        r matches Ok(t) ==> Some(t) == spec_time_of(inp@),
        r matches Err(e) ==> e.errcode == ErrCode::SrcDataFormatError,
{
    let n = inp.as_bytes().len();
    proof {
        assert(n == encode_utf8(inp@).len());
        reveal_strlit("%Y-%m-%d");
        reveal_strlit("%Y%m%d%H%M%S000");
        reveal_strlit("%Y-%m-%d %H:%M:%S");
    }
    let parsed = if n == 10 {
        chrono_date(inp, "%Y-%m-%d")
    } else if n == 17 {
        chrono_datetime(inp, "%Y%m%d%H%M%S000")
    } else if n == 19 {
        chrono_datetime(inp, "%Y-%m-%d %H:%M:%S")
    } else {
        return Err(CChanException::new(time_column_message(inp), ErrCode::SrcDataFormatError));
    };
    time_from_parsed(inp, parsed)
}

/// Formats the message for a time column of unknown shape.
fn time_column_message(inp: &str) -> (r: String)
    ensures
        r@ == "unknown time column from csv:"@ + inp@,
{
    let mut s = "unknown time column from csv:".to_owned();
    s.append(inp);
    s
}

/// Formats the message for a time chrono could not read.
pub(crate) fn time_parse_message(inp: &str) -> (r: String)
    ensures
        r@ == "Failed to parse time: "@ + inp@,
{
    let mut s = "Failed to parse time: ".to_owned();
    s.append(inp);
    s
}

/// Formats the message for a row with the wrong number of fields.
fn file_format_message(code: &String) -> (r: String)
    ensures
        r@ == "file format error: /opt/data/raw_data/"@ + code@ + ".csv"@,
{
    let mut s = "file format error: /opt/data/raw_data/".to_owned();
    s.append(code.as_str());
    s.append(".csv");
    s
}

// ---------------------------------------------------------------------------
// Rows of a bar file

/// Reading bars of one stock from a CSV file: time, open, high, low, close
/// and volume per row, between two dates if given.
pub struct CsvApi {
    pub code: String,
    pub name: Option<String>,
    pub is_stock: Option<bool>,
    pub k_type: KL_TYPE,
    pub begin_date: Option<String>,
    pub end_date: Option<String>,
    pub autype: Option<String>,
    pub headers_exist: bool,
    pub columns: Vec<DataField>,
    pub time_column_idx: usize,
}

/// The columns of a bar file, in order.
pub open spec fn spec_columns() -> Seq<DataField> {
    seq![
        DataField::FieldTime,
        DataField::FieldOpen,
        DataField::FieldHigh,
        DataField::FieldLow,
        DataField::FieldClose,
        DataField::FieldVolume,
    ]
}

/// A row is kept unless its time text comes before the first date or after
/// the last one.
pub open spec fn spec_row_in_range(t: Seq<char>, begin: Option<String>, end: Option<String>) -> bool {
    &&& (begin matches Some(b) ==> !text_lt(t, b@))
    &&& (end matches Some(e) ==> !text_lt(e@, t))
}

impl CsvApi {
    pub fn new(
        code: String,
        k_type: KL_TYPE,
        begin_date: Option<String>,
        end_date: Option<String>,
        autype: Option<String>,
    ) -> (r: Self)
        ensures
            r.code@ == code@,
            r.k_type == k_type,
            r.begin_date == begin_date,
            r.end_date == end_date,
            r.autype == autype,
            r.headers_exist,
            r.columns@ == spec_columns(),
            r.time_column_idx == 0,
            r.name is None && r.is_stock is None,
    {
        let mut columns: Vec<DataField> = Vec::new();
        columns.push(DataField::FieldTime);
        columns.push(DataField::FieldOpen);
        columns.push(DataField::FieldHigh);
        columns.push(DataField::FieldLow);
        columns.push(DataField::FieldClose);
        columns.push(DataField::FieldVolume);
        let mut i: usize = 0;
        while i < columns.len() && columns[i] != DataField::FieldTime
            invariant
                columns@ == spec_columns(),
                i <= columns@.len(),
                forall|k: int| 0 <= k < i ==> columns@[k] != DataField::FieldTime,
            decreases columns@.len() - i,
        {
            i = i + 1;
        }
        proof {
            assert(columns@[0] == DataField::FieldTime);
        }
        let time_column_idx = i;
        CsvApi {
            code,
            name: None,
            is_stock: None,
            k_type,
            begin_date,
            end_date,
            autype,
            headers_exist: true,
            columns,
            time_column_idx,
        }
    }

    /// Reads one row as the bar with index `idx`: a row with another number
    /// of fields, or a bad time, is an error; a row outside the dates is
    /// skipped (`None`); prices are read as `parse_price` reads them; a bar
    /// with inconsistent prices is an error.
    pub fn parse_line(&self, line: &str, idx: usize) -> (r: Result<Option<CKLineUnit>, CChanException>)
        requires
            self.columns@ == spec_columns(),
            self.time_column_idx == 0,
        ensures
            ({
                let f = spec_split_from(line@, 0);
                &&& f.len() != 6 ==> (r matches Err(e) && e.errcode == ErrCode::SrcDataFormatError
                    && e.msg@ == "file format error: /opt/data/raw_data/"@ + self.code@ + ".csv"@)
                &&& f.len() == 6 && !spec_row_in_range(f[0], self.begin_date, self.end_date) ==> (r matches Ok(None))
                &&& (r matches Ok(Some(u)) ==> {
                    &&& f.len() == 6
                    &&& spec_row_in_range(f[0], self.begin_date, self.end_date)
                    &&& u.idx == idx
                    &&& u.open == spec_price(f[1])
                    &&& u.close == spec_price(f[4])
                    &&& u.valid()
                    &&& u.low == spec_price(f[3]) && u.high == spec_price(f[2])
                })
                &&& f.len() == 6 && spec_row_in_range(f[0], self.begin_date, self.end_date) ==> match spec_time_of(f[0]) {
                    None => r matches Err(e) && e.errcode == ErrCode::SrcDataFormatError,
                    Some(t) => if unit_prices_ok(
                        spec_price(f[3]) as int,
                        spec_price(f[1]) as int,
                        spec_price(f[2]) as int,
                        spec_price(f[4]) as int,
                    ) {
                        r matches Ok(Some(u)) && u.time == t
                    } else {
                        r matches Err(e) && e.errcode == ErrCode::KlDataInvalid
                    },
                }
            }),
    {
        let data = split_fields(line);
        if data.len() != self.columns.len() {
            return Err(CChanException::new(file_format_message(&self.code), ErrCode::SrcDataFormatError));
        }
        let t = self.time_column_idx;
        match &self.begin_date {
            Some(b) => {
                if text_less(data[t].as_str(), b.as_str()) {
                    return Ok(None);
                }
            },
            None => {},
        }
        match &self.end_date {
            Some(e) => {
                if text_less(e.as_str(), data[t].as_str()) {
                    return Ok(None);
                }
            },
            None => {},
        }
        let time = match parse_time_column(data[0].as_str()) {
            Ok(x) => x,
            Err(e) => {
                return Err(e);
            },
        };
        let open = parse_price(data[1].as_str());
        let high = parse_price(data[2].as_str());
        let low = parse_price(data[3].as_str());
        let close = parse_price(data[4].as_str());
        match CKLineUnit::new(time, idx, open, high, low, close, false) {
            Ok(u) => Ok(Some(u)),
            Err(e) => Err(e),
        }
    }
}

/// The settings of a stock data source: the code, the bar period, the dates
/// and the price adjustment, as given.
pub struct CommonStockApiImpl {
    pub code: String,
    pub name: Option<String>,
    pub is_stock: Option<bool>,
    pub k_type: String,
    pub begin_date: String,
    pub end_date: String,
    pub autype: String,
}

impl CommonStockApiImpl {
    pub fn new(code: String, k_type: String, begin_date: String, end_date: String, autype: String) -> (r: Self)
        ensures
            r.code@ == code@,
            r.k_type@ == k_type@,
            r.begin_date@ == begin_date@,
            r.end_date@ == end_date@,
            r.autype@ == autype@,
            r.name is None,
            r.is_stock is None,
    {
        CommonStockApiImpl { code, name: None, is_stock: None, k_type, begin_date, end_date, autype }
    }
}

} // verus!

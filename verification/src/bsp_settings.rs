use vstd::prelude::*;
use crate::bsp::{spec_all_types, CBSPointConfig, CPointConfig};
use crate::csv_api::{
    all_digits, digit_val, digits_val, is_digit, lemma_digits_grow, parse_number, spec_number_i64,
    spec_split_from, split_fields,
};
use crate::enums::{BSP_TYPE, MACD_ALGO};
use crate::exception::{CChanException, ErrCode};
use crate::conf_keys::{route_bsp_key, spec_bsp_para, spec_route_key, BspKeyTarget};
use crate::strutil::str_is;

verus! {

// ---------------------------------------------------------------------------
// Reading settings texts

/// A flag, as Rust reads `bool`: `true` or `false`.
pub open spec fn spec_parse_flag(v: Seq<char>) -> Option<bool> {
    if v == "true"@ {
        Some(true)
    } else if v == "false"@ {
        Some(false)
    } else {
        None
    }
}

pub fn parse_flag(v: &str) -> (r: Option<bool>)
    ensures
        r == spec_parse_flag(v@),
{
    let s = v.to_owned();
    if str_is(&s, "true") {
        Some(true)
    } else if str_is(&s, "false") {
        Some(false)
    } else {
        None
    }
}

/// A count, as Rust reads `usize`: an optional `+`, then decimal digits,
/// the value fitting.
pub open spec fn spec_parse_count(v: Seq<char>) -> Option<usize> {
    let st: int = if v.len() > 0 && v[0] == '+' { 1 } else { 0 };
    if v.len() > st && all_digits(v, st, v.len() as int) && digits_val(v, st, v.len() as int) <= usize::MAX {
        Some(digits_val(v, st, v.len() as int) as usize)
    } else {
        None
    }
}

pub fn parse_count(v: &str) -> (r: Option<usize>)
    ensures
        r == spec_parse_count(v@),
{
    let ghost s = v@;
    let n = v.unicode_len();
    let st: usize = if n > 0 && v.get_char(0) == '+' { 1 } else { 0 };
    assert(st == (if s.len() > 0 && s[0] == '+' { 1int } else { 0int }));
    if n <= st {
        return None;
    }
    let mut i = st;
    while i < n
        invariant
            n == s.len(),
            s == v@,
            st <= i <= n,
            st == (if s.len() > 0 && s[0] == '+' { 1int } else { 0int }),
            all_digits(s, st as int, i as int),
        decreases n - i,
    {
        let c = v.get_char(i);
        if !('0' <= c && c <= '9') {
            proof {
                assert(!is_digit(s[i as int]));
                assert(!all_digits(s, st as int, n as int));
            }
            return None;
        }
        i = i + 1;
    }
    let mut acc: u128 = 0;
    let mut j = st;
    while j < n
        invariant
            n == s.len(),
            s == v@,
            st <= j <= n,
            n > st,
            st == (if s.len() > 0 && s[0] == '+' { 1int } else { 0int }),
            all_digits(s, st as int, n as int),
            acc == digits_val(s, st as int, j as int),
            acc <= usize::MAX,
        decreases n - j,
    {
        let c = v.get_char(j);
        proof {
            assert(is_digit(s[j as int]));
            assert(s[j as int] == c);
        }
        let d = (c as u32 - '0' as u32) as u128;
        proof {
            assert(digit_val(s[j as int]) == d);
        }
        let next = acc * 10 + d;
        proof {
            assert(next == digits_val(s, st as int, j + 1));
        }
        if next > usize::MAX as u128 {
            proof {
                lemma_digits_grow(s, st as int, j + 1, n as int);
                assert(digits_val(s, st as int, n as int) > usize::MAX);
            }
            return None;
        }
        acc = next;
        j = j + 1;
    }
    Some(acc as usize)
}

/// A text Rust reads as positive infinity.
pub open spec fn spec_inf_text(v: Seq<char>) -> bool {
    v == "inf"@ || v == "+inf"@ || v == "infinity"@ || v == "+infinity"@
}

/// A rate: `None` for no limit (an infinite number), otherwise a decimal
/// number (decimal or exponent form) in hundred-millionths.
pub open spec fn spec_parse_rate(v: Seq<char>) -> Option<Option<i64>> {
    if spec_inf_text(v) {
        Some(None)
    } else {
        match spec_number_i64(v) {
            Some(x) => Some(Some(x)),
            None => None,
        }
    }
}

pub fn parse_rate(v: &str) -> (r: Option<Option<i64>>)
    ensures
        r == spec_parse_rate(v@),
{
    let s = v.to_owned();
    if str_is(&s, "inf") || str_is(&s, "+inf") || str_is(&s, "infinity") || str_is(&s, "+infinity") {
        return Some(None);
    }
    match parse_number(v) {
        Some(x) => Some(Some(x)),
        None => None,
    }
}

/// The measure a name stands for; `turnrate_avg` reads as `amount_avg`.
pub open spec fn spec_macd_algo_of(v: Seq<char>) -> Option<MACD_ALGO> {
    if v == "area"@ {
        Some(MACD_ALGO::AREA)
    } else if v == "peak"@ {
        Some(MACD_ALGO::PEAK)
    } else if v == "full_area"@ {
        Some(MACD_ALGO::FULL_AREA)
    } else if v == "diff"@ {
        Some(MACD_ALGO::DIFF)
    } else if v == "slope"@ {
        Some(MACD_ALGO::SLOPE)
    } else if v == "amp"@ {
        Some(MACD_ALGO::AMP)
    } else if v == "amount"@ {
        Some(MACD_ALGO::AMOUNT)
    } else if v == "volumn"@ {
        Some(MACD_ALGO::VOLUMN)
    } else if v == "amount_avg"@ {
        Some(MACD_ALGO::AMOUNT_AVG)
    } else if v == "volumn_avg"@ {
        Some(MACD_ALGO::VOLUMN_AVG)
    } else if v == "turnrate_avg"@ {
        Some(MACD_ALGO::AMOUNT_AVG)
    } else if v == "rsi"@ {
        Some(MACD_ALGO::RSI)
    } else {
        None
    }
}

pub fn macd_algo_of(v: &str) -> (r: Option<MACD_ALGO>)
    ensures
        r == spec_macd_algo_of(v@),
{
    let s = v.to_owned();
    if str_is(&s, "area") {
        Some(MACD_ALGO::AREA)
    } else if str_is(&s, "peak") {
        Some(MACD_ALGO::PEAK)
    } else if str_is(&s, "full_area") {
        Some(MACD_ALGO::FULL_AREA)
    } else if str_is(&s, "diff") {
        Some(MACD_ALGO::DIFF)
    } else if str_is(&s, "slope") {
        Some(MACD_ALGO::SLOPE)
    } else if str_is(&s, "amp") {
        Some(MACD_ALGO::AMP)
    } else if str_is(&s, "amount") {
        Some(MACD_ALGO::AMOUNT)
    } else if str_is(&s, "volumn") {
        Some(MACD_ALGO::VOLUMN)
    } else if str_is(&s, "amount_avg") {
        Some(MACD_ALGO::AMOUNT_AVG)
    } else if str_is(&s, "volumn_avg") {
        Some(MACD_ALGO::VOLUMN_AVG)
    } else if str_is(&s, "turnrate_avg") {
        Some(MACD_ALGO::AMOUNT_AVG)
    } else if str_is(&s, "rsi") {
        Some(MACD_ALGO::RSI)
    } else {
        None
    }
}

/// The kind of point a name stands for.
pub open spec fn spec_bsp_type_of(v: Seq<char>) -> Option<BSP_TYPE> {
    if v == "1"@ {
        Some(BSP_TYPE::T1)
    } else if v == "1p"@ {
        Some(BSP_TYPE::T1P)
    } else if v == "2"@ {
        Some(BSP_TYPE::T2)
    } else if v == "2s"@ {
        Some(BSP_TYPE::T2S)
    } else if v == "3a"@ {
        Some(BSP_TYPE::T3A)
    } else if v == "3b"@ {
        Some(BSP_TYPE::T3B)
    } else {
        None
    }
}

pub fn bsp_type_of(v: &String) -> (r: Option<BSP_TYPE>)
    ensures
        r == spec_bsp_type_of(v@),
{
    if str_is(v, "1") {
        Some(BSP_TYPE::T1)
    } else if str_is(v, "1p") {
        Some(BSP_TYPE::T1P)
    } else if str_is(v, "2") {
        Some(BSP_TYPE::T2)
    } else if str_is(v, "2s") {
        Some(BSP_TYPE::T2S)
    } else if str_is(v, "3a") {
        Some(BSP_TYPE::T3A)
    } else if str_is(v, "3b") {
        Some(BSP_TYPE::T3B)
    } else {
        None
    }
}

/// An ASCII space, tab or line break.
pub open spec fn is_blank(c: char) -> bool {
    c == ' ' || c == '\t' || c == '\n' || c == '\r'
}

/// `s` without its leading blanks.
pub open spec fn spec_trim_start(s: Seq<char>) -> Seq<char>
    decreases s.len(),
{
    if s.len() > 0 && is_blank(s[0]) {
        spec_trim_start(s.drop_first())
    } else {
        s
    }
}

/// `s` without its trailing blanks.
pub open spec fn spec_trim_end(s: Seq<char>) -> Seq<char>
    decreases s.len(),
{
    if s.len() > 0 && is_blank(s.last()) {
        spec_trim_end(s.drop_last())
    } else {
        s
    }
}

pub fn trim_start(s: &str) -> (r: String)
    ensures
        r@ == spec_trim_start(s@),
    decreases s@.len(),
{
    let n = s.unicode_len();
    if n > 0 {
        let c = s.get_char(0);
        if c == ' ' || c == '\t' || c == '\n' || c == '\r' {
            let rest = s.substring_char(1, n);
            assert(rest@ =~= s@.drop_first());
            return trim_start(rest);
        }
    }
    s.to_owned()
}

pub fn trim_end(s: &str) -> (r: String)
    ensures
        r@ == spec_trim_end(s@),
    decreases s@.len(),
{
    let n = s.unicode_len();
    if n > 0 {
        let c = s.get_char(n - 1);
        if c == ' ' || c == '\t' || c == '\n' || c == '\r' {
            let rest = s.substring_char(0, n - 1);
            assert(rest@ =~= s@.drop_last());
            return trim_end(rest);
        }
    }
    s.to_owned()
}

/// The names in a list of kinds: split at each comma, blanks trimmed.
pub open spec fn spec_type_names(v: Seq<char>) -> Seq<Seq<char>> {
    let parts = spec_split_from(v, 0);
    Seq::new(parts.len(), |i: int| spec_trim_end(spec_trim_start(parts[i])))
}

pub fn type_names(v: &str) -> (r: Vec<String>)
    ensures
        r@.len() == spec_type_names(v@).len(),
        forall|i: int| 0 <= i < r@.len() ==> #[trigger] r@[i]@ == spec_type_names(v@)[i],
{
    let parts = split_fields(v);
    let mut out: Vec<String> = Vec::new();
    let mut i: usize = 0;
    while i < parts.len()
        invariant
            i <= parts@.len(),
            parts@.len() == spec_split_from(v@, 0).len(),
            forall|k: int| 0 <= k < parts@.len() ==> #[trigger] parts@[k]@ == spec_split_from(v@, 0)[k],
            out@.len() == i,
            forall|k: int| 0 <= k < i ==> #[trigger] out@[k]@ == spec_type_names(v@)[k],
        decreases parts@.len() - i,
    {
        let a = trim_start(parts[i].as_str());
        let b = trim_end(a.as_str());
        out.push(b);
        i = i + 1;
    }
    out
}

/// The kinds the names stand for, from the `i`-th on, or the first name
/// that stands for none.
pub open spec fn spec_types_from(names: Seq<Seq<char>>, i: int) -> Result<Seq<BSP_TYPE>, Seq<char>>
    decreases names.len() - i,
{
    if i < 0 || i >= names.len() {
        Ok(Seq::empty())
    } else {
        match spec_bsp_type_of(names[i]) {
            None => Err(names[i]),
            Some(t) => match spec_types_from(names, i + 1) {
                Ok(ts) => Ok(seq![t] + ts),
                Err(e) => Err(e),
            },
        }
    }
}

/// `p` before the kinds `r` reads, if it reads them.
pub open spec fn spec_prefix_types(p: Seq<BSP_TYPE>, r: Result<Seq<BSP_TYPE>, Seq<char>>) -> Result<Seq<BSP_TYPE>, Seq<char>> {
    match r {
        Ok(ts) => Ok(p + ts),
        Err(e) => Err(e),
    }
}

// ---------------------------------------------------------------------------
// The settings of one side

/// The settings of buy/sell points on one side, as the settings give them:
/// the divergence a first-class point needs (in hundred-millionths; `None`
/// for no limit), how line strength is measured, the names of the kinds
/// looked for, and the rest as the point search reads them.
pub struct CPointSettings {
    pub divergence_rate: Option<i64>,
    pub macd_algo: MACD_ALGO,
    pub tmp_target_types: Vec<String>,
    pub conf: CPointConfig,
}

/// What a side's settings hold.
#[verifier::ext_equal]
pub struct PointView {
    pub divergence_rate: Option<i64>,
    pub macd_algo: MACD_ALGO,
    pub tmp_target_types: Seq<Seq<char>>,
    pub min_zs_cnt: usize,
    pub bsp1_only_multibi_zs: bool,
    pub max_bs2_rate: i64,
    pub bs1_peak: bool,
    pub target_types: Seq<BSP_TYPE>,
    pub bsp2_follow_1: bool,
    pub bsp3_follow_1: bool,
    pub bsp3_peak: bool,
    pub bsp2s_follow_2: bool,
    pub max_bsp2s_lv: Option<usize>,
    pub strict_bsp3: bool,
}

impl CPointSettings {
    pub open spec fn pv(&self) -> PointView {
        PointView {
            divergence_rate: self.divergence_rate,
            macd_algo: self.macd_algo,
            tmp_target_types: self.tmp_target_types@.map_values(|t: String| t@),
            min_zs_cnt: self.conf.min_zs_cnt,
            bsp1_only_multibi_zs: self.conf.bsp1_only_multibi_zs,
            max_bs2_rate: self.conf.max_bs2_rate,
            bs1_peak: self.conf.bs1_peak,
            target_types: self.conf.target_types@,
            bsp2_follow_1: self.conf.bsp2_follow_1,
            bsp3_follow_1: self.conf.bsp3_follow_1,
            bsp3_peak: self.conf.bsp3_peak,
            bsp2s_follow_2: self.conf.bsp2s_follow_2,
            max_bsp2s_lv: self.conf.max_bsp2s_lv,
            strict_bsp3: self.conf.strict_bsp3,
        }
    }
}

/// The message for a setting that cannot be read.
pub open spec fn spec_bad_para_text(k: Seq<char>, v: Seq<char>) -> Seq<char> {
    "bad value for "@ + k + ": "@ + v
}

/// Setting `k` of one side to the text `v`: `None` when the key is no
/// setting or the text cannot be read as the setting's kind of value. An
/// infinite retrace rate is the largest rate; a level that is no count is
/// no level.
pub open spec fn spec_point_set(p: PointView, k: Seq<char>, v: Seq<char>) -> Option<PointView> {
    if k == "macd_algo"@ {
        match spec_macd_algo_of(v) {
            Some(a) => Some(PointView { macd_algo: a, ..p }),
            None => None,
        }
    } else if k == "divergence_rate"@ {
        match spec_parse_rate(v) {
            Some(r) => Some(PointView { divergence_rate: r, ..p }),
            None => None,
        }
    } else if k == "min_zs_cnt"@ {
        match spec_parse_count(v) {
            Some(c) => Some(PointView { min_zs_cnt: c, ..p }),
            None => None,
        }
    } else if k == "bsp1_only_multibi_zs"@ {
        match spec_parse_flag(v) {
            Some(b) => Some(PointView { bsp1_only_multibi_zs: b, ..p }),
            None => None,
        }
    } else if k == "max_bs2_rate"@ {
        match spec_parse_rate(v) {
            Some(r) => Some(PointView { max_bs2_rate: match r { Some(x) => x, None => i64::MAX }, ..p }),
            None => None,
        }
    } else if k == "bs1_peak"@ {
        match spec_parse_flag(v) {
            Some(b) => Some(PointView { bs1_peak: b, ..p }),
            None => None,
        }
    } else if k == "bs_type"@ {
        Some(PointView { tmp_target_types: spec_type_names(v), ..p })
    } else if k == "bsp2_follow_1"@ {
        match spec_parse_flag(v) {
            Some(b) => Some(PointView { bsp2_follow_1: b, ..p }),
            None => None,
        }
    } else if k == "bsp3_follow_1"@ {
        match spec_parse_flag(v) {
            Some(b) => Some(PointView { bsp3_follow_1: b, ..p }),
            None => None,
        }
    } else if k == "bsp3_peak"@ {
        match spec_parse_flag(v) {
            Some(b) => Some(PointView { bsp3_peak: b, ..p }),
            None => None,
        }
    } else if k == "bsp2s_follow_2"@ {
        match spec_parse_flag(v) {
            Some(b) => Some(PointView { bsp2s_follow_2: b, ..p }),
            None => None,
        }
    } else if k == "max_bsp2s_lv"@ {
        Some(PointView { max_bsp2s_lv: spec_parse_count(v), ..p })
    } else if k == "strict_bsp3"@ {
        match spec_parse_flag(v) {
            Some(b) => Some(PointView { strict_bsp3: b, ..p }),
            None => None,
        }
    } else {
        None
    }
}

fn bad_para(k: &str, v: &str) -> (e: CChanException)
    ensures
        e.errcode == ErrCode::ParaError,
        e.msg@ == spec_bad_para_text(k@, v@),
{
    let mut s = "bad value for ".to_owned();
    s.append(k);
    s.append(": ");
    s.append(v);
    CChanException::new(s, ErrCode::ParaError)
}

impl CPointSettings {
    /// Sets the measure of line strength by its name.
    pub fn set_macd_algo(&mut self, v: &str) -> (r: Result<(), CChanException>)
        ensures
            r is Ok <==> spec_macd_algo_of(v@) is Some,
            r is Ok ==> final(self).pv() == (PointView { macd_algo: spec_macd_algo_of(v@)->0, ..old(self).pv() }),
            r is Err ==> final(self).pv() == old(self).pv(),
            r matches Err(e) ==> e.errcode == ErrCode::ParaError && e.msg@ == spec_bad_para_text("macd_algo"@, v@),
    {
        match macd_algo_of(v) {
            Some(a) => {
                self.macd_algo = a;
                Ok(())
            },
            None => Err(bad_para("macd_algo", v)),
        }
    }

    /// Sets setting `k` from the text `v`, as `spec_point_set` says; a key
    /// that is no setting, or a text that cannot be read, is refused.
    pub fn set(&mut self, k: &str, v: &str) -> (r: Result<(), CChanException>)
        ensures
            r is Ok <==> spec_point_set(old(self).pv(), k@, v@) is Some,
            r is Ok ==> final(self).pv() == spec_point_set(old(self).pv(), k@, v@)->0,
            r is Err ==> final(self).pv() == old(self).pv(),
            r matches Err(e) ==> e.errcode == ErrCode::ParaError && e.msg@ == spec_bad_para_text(k@, v@),
    {
        let key = k.to_owned();
        let ghost p = self.pv();
        if str_is(&key, "macd_algo") {
            match macd_algo_of(v) {
                Some(a) => {
                    self.macd_algo = a;
                    return Ok(());
                },
                None => {
                    return Err(bad_para(k, v));
                },
            }
        } else if str_is(&key, "divergence_rate") {
            match parse_rate(v) {
                Some(x) => {
                    self.divergence_rate = x;
                    return Ok(());
                },
                None => {
                    return Err(bad_para(k, v));
                },
            }
        } else if str_is(&key, "min_zs_cnt") {
            match parse_count(v) {
                Some(x) => {
                    self.conf.min_zs_cnt = x;
                    return Ok(());
                },
                None => {
                    return Err(bad_para(k, v));
                },
            }
        } else if str_is(&key, "bsp1_only_multibi_zs") {
            match parse_flag(v) {
                Some(x) => {
                    self.conf.bsp1_only_multibi_zs = x;
                    return Ok(());
                },
                None => {
                    return Err(bad_para(k, v));
                },
            }
        } else if str_is(&key, "max_bs2_rate") {
            match parse_rate(v) {
                Some(x) => {
                    self.conf.max_bs2_rate = match x {
                        Some(y) => y,
                        None => i64::MAX,
                    };
                    return Ok(());
                },
                None => {
                    return Err(bad_para(k, v));
                },
            }
        } else if str_is(&key, "bs1_peak") {
            match parse_flag(v) {
                Some(x) => {
                    self.conf.bs1_peak = x;
                    return Ok(());
                },
                None => {
                    return Err(bad_para(k, v));
                },
            }
        } else if str_is(&key, "bs_type") {
            let names = type_names(v);
            self.tmp_target_types = names;
            proof {
                assert(self.tmp_target_types@.map_values(|t: String| t@) =~= spec_type_names(v@));
            }
            return Ok(());
        } else if str_is(&key, "bsp2_follow_1") {
            match parse_flag(v) {
                Some(x) => {
                    self.conf.bsp2_follow_1 = x;
                    return Ok(());
                },
                None => {
                    return Err(bad_para(k, v));
                },
            }
        } else if str_is(&key, "bsp3_follow_1") {
            match parse_flag(v) {
                Some(x) => {
                    self.conf.bsp3_follow_1 = x;
                    return Ok(());
                },
                None => {
                    return Err(bad_para(k, v));
                },
            }
        } else if str_is(&key, "bsp3_peak") {
            match parse_flag(v) {
                Some(x) => {
                    self.conf.bsp3_peak = x;
                    return Ok(());
                },
                None => {
                    return Err(bad_para(k, v));
                },
            }
        } else if str_is(&key, "bsp2s_follow_2") {
            match parse_flag(v) {
                Some(x) => {
                    self.conf.bsp2s_follow_2 = x;
                    return Ok(());
                },
                None => {
                    return Err(bad_para(k, v));
                },
            }
        } else if str_is(&key, "max_bsp2s_lv") {
            self.conf.max_bsp2s_lv = parse_count(v);
            return Ok(());
        } else if str_is(&key, "strict_bsp3") {
            match parse_flag(v) {
                Some(x) => {
                    self.conf.strict_bsp3 = x;
                    return Ok(());
                },
                None => {
                    return Err(bad_para(k, v));
                },
            }
        }
        Err(bad_para(k, v))
    }

    /// Reads the names of the kinds looked for: all must name a kind.
    pub fn parse_target_type(&mut self) -> (r: Result<(), CChanException>)
        ensures
            ({
                let res = spec_types_from(old(self).pv().tmp_target_types, 0);
                &&& r is Ok <==> res is Ok
                &&& r is Ok ==> final(self).pv() == (PointView { target_types: res->Ok_0, ..old(self).pv() })
                &&& r is Err ==> final(self).pv() == old(self).pv()
                &&& r matches Err(e) ==> e.errcode == ErrCode::ParaError && e.msg@ == spec_bad_para_text(
                    "bs_type"@,
                    res->Err_0,
                )
            }),
    {
        let ghost names = self.pv().tmp_target_types;
        let mut out: Vec<BSP_TYPE> = Vec::new();
        let mut i: usize = 0;
        proof {
            assert(out@ + Seq::<BSP_TYPE>::empty() =~= out@);
            assert(spec_types_from(names, 0) == spec_prefix_types(out@, spec_types_from(names, 0))) by {
                match spec_types_from(names, 0) {
                    Ok(ts) => {
                        assert(out@ + ts =~= ts);
                    },
                    Err(_) => {},
                }
            }
        }
        while i < self.tmp_target_types.len()
            invariant
                names == self.pv().tmp_target_types,
                names.len() == self.tmp_target_types@.len(),
                self.pv() == old(self).pv(),
                i <= names.len(),
                spec_types_from(names, 0) == spec_prefix_types(out@, spec_types_from(names, i as int)),
            decreases names.len() - i,
        {
            assert(self.tmp_target_types@[i as int]@ == names[i as int]);
            match bsp_type_of(&self.tmp_target_types[i]) {
                Some(t) => {
                    proof {
                        match spec_types_from(names, i + 1) {
                            Ok(ts) => {
                                assert(out@.push(t) + ts =~= out@ + (seq![t] + ts));
                            },
                            Err(_) => {},
                        }
                    }
                    out.push(t);
                },
                None => {
                    let name = self.tmp_target_types[i].as_str();
                    return Err(bad_para("bs_type", name));
                },
            }
            i = i + 1;
        }
        proof {
            assert(out@ + Seq::<BSP_TYPE>::empty() =~= out@);
        }
        self.conf.target_types = out;
        Ok(())
    }
}

// ---------------------------------------------------------------------------
// Building the settings from texts

/// The settings of one side before any text is read.
pub open spec fn spec_point_base() -> PointView {
    PointView {
        divergence_rate: None,
        macd_algo: MACD_ALGO::SLOPE,
        tmp_target_types: Seq::empty(),
        min_zs_cnt: 0,
        bsp1_only_multibi_zs: true,
        max_bs2_rate: 99_990_000,
        bs1_peak: false,
        target_types: spec_all_types(),
        bsp2_follow_1: false,
        bsp3_follow_1: false,
        bsp3_peak: false,
        bsp2s_follow_2: false,
        max_bsp2s_lv: None,
        strict_bsp3: false,
    }
}

/// Setting each (key, text) pair of `args` in order: the settings, or the
/// first pair that cannot be set.
pub open spec fn spec_apply(p: PointView, args: Seq<(Seq<char>, Seq<char>)>) -> Result<PointView, (Seq<char>, Seq<char>)>
    decreases args.len(),
{
    if args.len() == 0 {
        Ok(p)
    } else {
        match spec_point_set(p, args[0].0, args[0].1) {
            Some(q) => spec_apply(q, args.drop_first()),
            None => Err(args[0]),
        }
    }
}

/// The message for a retrace rate above one.
pub open spec fn spec_rate_text() -> Seq<char> {
    "max_bs2_rate must not exceed 1"@
}

/// The settings of one side read from `args`: each pair set in order, the
/// retrace rate at most one, and the names of the kinds read; or the
/// message of the first failure.
pub open spec fn spec_point_new(args: Seq<(Seq<char>, Seq<char>)>) -> Result<PointView, Seq<char>> {
    match spec_apply(spec_point_base(), args) {
        Err(kv) => Err(spec_bad_para_text(kv.0, kv.1)),
        Ok(p) => if p.max_bs2_rate > 100_000_000 {
            Err(spec_rate_text())
        } else {
            match spec_types_from(p.tmp_target_types, 0) {
                Ok(ts) => Ok(PointView { target_types: ts, ..p }),
                Err(name) => Err(spec_bad_para_text("bs_type"@, name)),
            }
        },
    }
}

pub open spec fn pairs_text(v: Seq<(String, String)>) -> Seq<(Seq<char>, Seq<char>)> {
    v.map_values(|p: (String, String)| (p.0@, p.1@))
}

impl CPointSettings {
    /// The settings before any text is read.
    pub fn base() -> (r: Self)
        ensures
            r.pv() == spec_point_base(),
    {
        let r = CPointSettings {
            divergence_rate: None,
            macd_algo: MACD_ALGO::SLOPE,
            tmp_target_types: Vec::new(),
            conf: CPointConfig::default(),
        };
        assert(r.pv().tmp_target_types =~= Seq::<Seq<char>>::empty());
        r
    }

    /// Reads the settings of one side from (key, text) pairs, as
    /// `spec_point_new` says.
    pub fn new(args: &Vec<(String, String)>) -> (r: Result<Self, CChanException>)
        ensures
            r is Ok <==> spec_point_new(pairs_text(args@)) is Ok,
            r matches Ok(c) ==> spec_point_new(pairs_text(args@)) == Ok::<PointView, Seq<char>>(c.pv()),
            r matches Err(e) ==> e.errcode == ErrCode::ParaError && spec_point_new(pairs_text(args@)) == Err::<
                PointView,
                Seq<char>,
            >(e.msg@),
    {
        let ghost a = pairs_text(args@);
        let mut c = Self::base();
        let mut i: usize = 0;
        proof {
            assert(a.skip(0) =~= a);
        }
        while i < args.len()
            invariant
                a == pairs_text(args@),
                i <= args@.len(),
                spec_apply(spec_point_base(), a) == spec_apply(c.pv(), a.skip(i as int)),
            decreases args@.len() - i,
        {
            let ghost p0 = c.pv();
            proof {
                assert(a.skip(i as int).drop_first() =~= a.skip(i + 1));
                assert(a.skip(i as int)[0] == (args@[i as int].0@, args@[i as int].1@));
            }
            match c.set(args[i].0.as_str(), args[i].1.as_str()) {
                Ok(()) => {},
                Err(e) => {
                    return Err(e);
                },
            }
            i = i + 1;
        }
        proof {
            assert(a.skip(i as int) =~= Seq::<(Seq<char>, Seq<char>)>::empty());
        }
        if c.conf.max_bs2_rate > 100_000_000 {
            let msg = "max_bs2_rate must not exceed 1".to_owned();
            return Err(CChanException::new(msg, ErrCode::ParaError));
        }
        match c.parse_target_type() {
            Ok(()) => Ok(c),
            Err(e) => Err(e),
        }
    }
}

// ---------------------------------------------------------------------------
// The settings of both sides and both levels

/// The settings of buy/sell points on both sides.
pub struct CBSPointSettings {
    pub b_conf: CPointSettings,
    pub s_conf: CPointSettings,
}

/// The four sides' settings: strokes buy and sell, segments buy and sell.
pub type Sides = (PointView, PointView, PointView, PointView);

/// The settings of one side and their default texts, in order.
pub open spec fn spec_point_defaults() -> Seq<(Seq<char>, Seq<char>)> {
    seq![
        ("divergence_rate"@, "inf"@),
        ("min_zs_cnt"@, "1"@),
        ("bsp1_only_multibi_zs"@, "true"@),
        ("max_bs2_rate"@, "0.9999"@),
        ("macd_algo"@, "peak"@),
        ("bs1_peak"@, "true"@),
        ("bs_type"@, "1,1p,2,2s,3a,3b"@),
        ("bsp2_follow_1"@, "true"@),
        ("bsp3_follow_1"@, "true"@),
        ("bsp3_peak"@, "false"@),
        ("bsp2s_follow_2"@, "false"@),
        ("max_bsp2s_lv"@, "null"@),
        ("strict_bsp3"@, "false"@),
    ]
}

/// The text of the first pair of `conf` with key `k`.
pub open spec fn spec_lookup(conf: Seq<(Seq<char>, Seq<char>)>, k: Seq<char>) -> Option<Seq<char>>
    decreases conf.len(),
{
    if conf.len() == 0 {
        None
    } else if conf[0].0 == k {
        Some(conf[0].1)
    } else {
        spec_lookup(conf.drop_first(), k)
    }
}

/// Each setting of one side with its text in `conf`, or its default text.
pub open spec fn spec_bsp_args(conf: Seq<(Seq<char>, Seq<char>)>) -> Seq<(Seq<char>, Seq<char>)> {
    let d = spec_point_defaults();
    Seq::new(
        d.len(),
        |i: int|
            (
                d[i].0,
                match spec_lookup(conf, d[i].0) {
                    Some(v) => v,
                    None => d[i].1,
                },
            ),
    )
}

/// The message for a key that names no setting.
pub open spec fn spec_unknown_para_text(k: Seq<char>) -> Seq<char> {
    "unknown para = "@ + k
}

/// Setting the text `v` on side `p` under the name `k`, or the message.
pub open spec fn spec_set_or(p: PointView, k: Seq<char>, v: Seq<char>) -> Result<PointView, Seq<char>> {
    match spec_point_set(p, k, v) {
        Some(q) => Ok(q),
        None => Err(spec_bad_para_text(k, v)),
    }
}

/// One (key, text) pair of the settings applied to the four sides, by the
/// key's suffix (see `spec_route_key`); a key that names a setting of one
/// side was read already and is passed over.
pub open spec fn spec_route_one(st: Sides, k: Seq<char>, v: Seq<char>) -> Result<Sides, Seq<char>> {
    if spec_bsp_para(k) {
        Ok(st)
    } else {
        let (t, prop) = spec_route_key(k);
        match t {
            BspKeyTarget::Buy => match spec_set_or(st.0, prop, v) {
                Ok(q) => Ok((q, st.1, st.2, st.3)),
                Err(m) => Err(m),
            },
            BspKeyTarget::Sell => match spec_set_or(st.1, prop, v) {
                Ok(q) => Ok((st.0, q, st.2, st.3)),
                Err(m) => Err(m),
            },
            BspKeyTarget::SegBuy => match spec_set_or(st.2, prop, v) {
                Ok(q) => Ok((st.0, st.1, q, st.3)),
                Err(m) => Err(m),
            },
            BspKeyTarget::SegSell => match spec_set_or(st.3, prop, v) {
                Ok(q) => Ok((st.0, st.1, st.2, q)),
                Err(m) => Err(m),
            },
            BspKeyTarget::Seg => match spec_set_or(st.2, prop, v) {
                Ok(q2) => match spec_set_or(st.3, prop, v) {
                    Ok(q3) => Ok((st.0, st.1, q2, q3)),
                    Err(m) => Err(m),
                },
                Err(m) => Err(m),
            },
            BspKeyTarget::Both => match spec_set_or(st.0, prop, v) {
                Ok(q0) => match spec_set_or(st.1, prop, v) {
                    Ok(q1) => Ok((q0, q1, st.2, st.3)),
                    Err(m) => Err(m),
                },
                Err(m) => Err(m),
            },
            BspKeyTarget::Unknown => Err(spec_unknown_para_text(k)),
        }
    }
}

/// All pairs of `conf` applied in order, or the first message.
pub open spec fn spec_route_all(st: Sides, conf: Seq<(Seq<char>, Seq<char>)>) -> Result<Sides, Seq<char>>
    decreases conf.len(),
{
    if conf.len() == 0 {
        Ok(st)
    } else {
        match spec_route_one(st, conf[0].0, conf[0].1) {
            Ok(st2) => spec_route_all(st2, conf.drop_first()),
            Err(m) => Err(m),
        }
    }
}

/// Reading the names of the kinds of side `p`.
pub open spec fn spec_read_types(p: PointView) -> Result<PointView, Seq<char>> {
    match spec_types_from(p.tmp_target_types, 0) {
        Ok(ts) => Ok(PointView { target_types: ts, ..p }),
        Err(name) => Err(spec_bad_para_text("bs_type"@, name)),
    }
}

/// The settings of buy/sell points at both levels from the settings pairs
/// `conf`: each side read from the settings of one side (their texts in
/// `conf`, or the defaults); segments measured by slope and counting every
/// pivot; then the other keys by their suffix; then the names of the kinds
/// read again. Or the message of the first failure.
pub open spec fn spec_set_bsp_config(conf: Seq<(Seq<char>, Seq<char>)>) -> Result<Sides, Seq<char>> {
    match spec_point_new(spec_bsp_args(conf)) {
        Err(m) => Err(m),
        Ok(p) => spec_after_route(
            spec_route_all((p, p, PointView { macd_algo: MACD_ALGO::SLOPE, bsp1_only_multibi_zs: false, ..p }, PointView {
                macd_algo: MACD_ALGO::SLOPE,
                bsp1_only_multibi_zs: false,
                ..p
            }), conf),
        ),
    }
}

/// The names of the kinds of the four sides read, in order, once the keys
/// are applied.
pub open spec fn spec_after_route(r: Result<Sides, Seq<char>>) -> Result<Sides, Seq<char>> {
    match r {
        Err(m) => Err(m),
        Ok(st) => match spec_read_types(st.0) {
            Err(m) => Err(m),
            Ok(a) => match spec_read_types(st.1) {
                Err(m) => Err(m),
                Ok(b) => match spec_read_types(st.2) {
                    Err(m) => Err(m),
                    Ok(c) => match spec_read_types(st.3) {
                        Err(m) => Err(m),
                        Ok(d) => Ok((a, b, c, d)),
                    },
                },
            },
        },
    }
}

/// The text of the first pair of `conf` with key `k`.
fn lookup(conf: &Vec<(String, String)>, k: &str) -> (r: Option<String>)
    ensures
        r matches Some(v) ==> spec_lookup(pairs_text(conf@), k@) == Some(v@),
        r is None ==> spec_lookup(pairs_text(conf@), k@) is None,
{
    let ghost a = pairs_text(conf@);
    let mut i: usize = 0;
    proof {
        assert(a.skip(0) =~= a);
    }
    while i < conf.len()
        invariant
            a == pairs_text(conf@),
            i <= conf@.len(),
            spec_lookup(a, k@) == spec_lookup(a.skip(i as int), k@),
        decreases conf@.len() - i,
    {
        proof {
            assert(a.skip(i as int).drop_first() =~= a.skip(i + 1));
        }
        if str_is(&conf[i].0, k) {
            return Some(conf[i].1.clone());
        }
        i = i + 1;
    }
    proof {
        assert(a.skip(i as int) =~= Seq::<(Seq<char>, Seq<char>)>::empty());
    }
    None
}

fn unknown_para(k: &str) -> (e: CChanException)
    ensures
        e.errcode == ErrCode::ParaError,
        e.msg@ == spec_unknown_para_text(k@),
{
    let mut s = "unknown para = ".to_owned();
    s.append(k);
    CChanException::new(s, ErrCode::ParaError)
}

/// The settings of each side read from the settings pairs, as
/// `spec_bsp_args` says.
fn bsp_args(conf: &Vec<(String, String)>) -> (r: Vec<(String, String)>)
    ensures
        pairs_text(r@) == spec_bsp_args(pairs_text(conf@)),
{
    let d = [
        ("divergence_rate", "inf"),
        ("min_zs_cnt", "1"),
        ("bsp1_only_multibi_zs", "true"),
        ("max_bs2_rate", "0.9999"),
        ("macd_algo", "peak"),
        ("bs1_peak", "true"),
        ("bs_type", "1,1p,2,2s,3a,3b"),
        ("bsp2_follow_1", "true"),
        ("bsp3_follow_1", "true"),
        ("bsp3_peak", "false"),
        ("bsp2s_follow_2", "false"),
        ("max_bsp2s_lv", "null"),
        ("strict_bsp3", "false"),
    ];
    let ghost dv = d@.map_values(|p: (&str, &str)| (p.0@, p.1@));
    assert(dv =~= spec_point_defaults());
    let ghost target = spec_bsp_args(pairs_text(conf@));
    let mut out: Vec<(String, String)> = Vec::new();
    let mut i: usize = 0;
    while i < 13
        invariant
            i <= 13,
            d@.len() == 13,
            dv == d@.map_values(|p: (&str, &str)| (p.0@, p.1@)),
            dv == spec_point_defaults(),
            target == spec_bsp_args(pairs_text(conf@)),
            out@.len() == i,
            forall|j: int| 0 <= j < i ==> (#[trigger] out@[j]).0@ == target[j].0 && out@[j].1@ == target[j].1,
        decreases 13 - i,
    {
        let (name, default) = d[i];
        assert(dv[i as int] == (name@, default@));
        let v = match lookup(conf, name) {
            Some(x) => x,
            None => default.to_owned(),
        };
        out.push((name.to_owned(), v));
        i = i + 1;
    }
    assert(pairs_text(out@) =~= target);
    out
}

impl CBSPointSettings {
    /// The settings as the point search reads them.
    pub fn to_lib(self) -> (r: CBSPointConfig)
        ensures
            r.b_conf == self.b_conf.conf,
            r.s_conf == self.s_conf.conf,
    {
        CBSPointConfig { b_conf: self.b_conf.conf, s_conf: self.s_conf.conf }
    }
}

/// Sets the text `v` on one side under the name `k`, as `spec_set_or`
/// says.
fn set_or(p: &mut CPointSettings, k: &str, v: &str) -> (r: Result<(), CChanException>)
    ensures
        r is Ok <==> spec_set_or(old(p).pv(), k@, v@) is Ok,
        r is Ok ==> spec_set_or(old(p).pv(), k@, v@) == Ok::<PointView, Seq<char>>(final(p).pv()),
        r matches Err(e) ==> e.errcode == ErrCode::ParaError && spec_set_or(old(p).pv(), k@, v@) == Err::<
            PointView,
            Seq<char>,
        >(e.msg@),
{
    p.set(k, v)
}

/// Reads the names of the kinds of one side, as `spec_read_types` says.
fn read_types(p: &mut CPointSettings) -> (r: Result<(), CChanException>)
    ensures
        r is Ok <==> spec_read_types(old(p).pv()) is Ok,
        r is Ok ==> spec_read_types(old(p).pv()) == Ok::<PointView, Seq<char>>(final(p).pv()),
        r matches Err(e) ==> e.errcode == ErrCode::ParaError && spec_read_types(old(p).pv()) == Err::<
            PointView,
            Seq<char>,
        >(e.msg@),
{
    p.parse_target_type()
}

/// Applies one settings pair to the four sides, as `spec_route_one` says.
#[verifier::rlimit(50)]
fn route_one(
    b: &mut CPointSettings,
    s: &mut CPointSettings,
    sb: &mut CPointSettings,
    ss: &mut CPointSettings,
    k: &str,
    v: &str,
) -> (r: Result<(), CChanException>)
    ensures
        spec_route_one((old(b).pv(), old(s).pv(), old(sb).pv(), old(ss).pv()), k@, v@) == (match r {
            Ok(_) => Ok::<Sides, Seq<char>>((final(b).pv(), final(s).pv(), final(sb).pv(), final(ss).pv())),
            Err(e) => Err::<Sides, Seq<char>>(e.msg@),
        }),
        r matches Err(e) ==> e.errcode == ErrCode::ParaError,
{
    if crate::conf_keys::is_bsp_para(k) {
        return Ok(());
    }
    let (t, prop) = route_bsp_key(k);
    let p = prop.as_str();
    match t {
        BspKeyTarget::Buy => set_or(b, p, v),
        BspKeyTarget::Sell => set_or(s, p, v),
        BspKeyTarget::SegBuy => set_or(sb, p, v),
        BspKeyTarget::SegSell => set_or(ss, p, v),
        BspKeyTarget::Seg => {
            if let Err(e) = set_or(sb, p, v) {
                return Err(e);
            }
            set_or(ss, p, v)
        },
        BspKeyTarget::Both => {
            if let Err(e) = set_or(b, p, v) {
                return Err(e);
            }
            set_or(s, p, v)
        },
        BspKeyTarget::Unknown => Err(unknown_para(k)),
    }
}

/// The settings of buy/sell points at both levels (strokes, then segments)
/// from the settings pairs `conf`, as `spec_set_bsp_config` says.
pub fn set_bsp_config(conf: &Vec<(String, String)>) -> (r: Result<(CBSPointSettings, CBSPointSettings), CChanException>)
    ensures
        r is Ok <==> spec_set_bsp_config(pairs_text(conf@)) is Ok,
        r matches Ok(c) ==> spec_set_bsp_config(pairs_text(conf@)) == Ok::<Sides, Seq<char>>(
            (c.0.b_conf.pv(), c.0.s_conf.pv(), c.1.b_conf.pv(), c.1.s_conf.pv()),
        ),
        r matches Err(e) ==> e.errcode == ErrCode::ParaError && spec_set_bsp_config(pairs_text(conf@)) == Err::<
            Sides,
            Seq<char>,
        >(e.msg@),
{
    let ghost a = pairs_text(conf@);
    let args = bsp_args(conf);
    let mut b = match CPointSettings::new(&args) {
        Ok(c) => c,
        Err(e) => {
            return Err(e);
        },
    };
    let mut s = match CPointSettings::new(&args) {
        Ok(c) => c,
        Err(e) => {
            return Err(e);
        },
    };
    let mut sb = match CPointSettings::new(&args) {
        Ok(c) => c,
        Err(e) => {
            return Err(e);
        },
    };
    let mut ss = match CPointSettings::new(&args) {
        Ok(c) => c,
        Err(e) => {
            return Err(e);
        },
    };
    sb.macd_algo = MACD_ALGO::SLOPE;
    ss.macd_algo = MACD_ALGO::SLOPE;
    sb.conf.bsp1_only_multibi_zs = false;
    ss.conf.bsp1_only_multibi_zs = false;
    let ghost st0: Sides = (b.pv(), s.pv(), sb.pv(), ss.pv());
    let mut i: usize = 0;
    proof {
        assert(a.skip(0) =~= a);
        assert(spec_set_bsp_config(a) == spec_after_route(spec_route_all(st0, a)));
    }
    while i < conf.len()
        invariant
            a == pairs_text(conf@),
            spec_set_bsp_config(a) == spec_after_route(spec_route_all(st0, a)),
            i <= conf@.len(),
            spec_route_all(st0, a) == spec_route_all((b.pv(), s.pv(), sb.pv(), ss.pv()), a.skip(i as int)),
        decreases conf@.len() - i,
    {
        let k = conf[i].0.as_str();
        let v = conf[i].1.as_str();
        proof {
            assert(a.skip(i as int).drop_first() =~= a.skip(i + 1));
            assert(a.skip(i as int)[0] == (k@, v@));
        }
        if let Err(e) = route_one(&mut b, &mut s, &mut sb, &mut ss, k, v) {
            return Err(e);
        }
        i = i + 1;
    }
    proof {
        assert(a.skip(i as int) =~= Seq::<(Seq<char>, Seq<char>)>::empty());
    }
    if let Err(e) = read_types(&mut b) {
        return Err(e);
    }
    if let Err(e) = read_types(&mut s) {
        return Err(e);
    }
    if let Err(e) = read_types(&mut sb) {
        return Err(e);
    }
    if let Err(e) = read_types(&mut ss) {
        return Err(e);
    }
    Ok((CBSPointSettings { b_conf: b, s_conf: s }, CBSPointSettings { b_conf: sb, s_conf: ss }))
}

} // verus!

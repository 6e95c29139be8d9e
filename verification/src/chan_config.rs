use vstd::prelude::*;
use crate::bi_config::{self, spec_fx_check_of};
use crate::bsp_settings::{
    parse_count, parse_flag, set_bsp_config, spec_bad_para_text, spec_parse_count, spec_parse_flag,
    spec_set_bsp_config, pairs_text, CBSPointSettings, Sides,
};
use crate::cbi_config::CBiConfig;
use crate::enums::{FX_CHECK_METHOD, LEFT_SEG_METHOD};
use crate::exception::{CChanException, ErrCode};
use crate::seg_config::CSegConfig;
use crate::strutil::str_is;
use crate::zs_config::{spec_combine_mode_of, spec_zs_algo_of, CZSConfig, CZsConfig};

verus! {

// ---------------------------------------------------------------------------
// Settings values

/// A settings value: a text (a name, a flag or a number as written), a list
/// of numbers, or a table of (name, text) pairs.
pub enum ConfValue {
    Text(String),
    List(Vec<String>),
    Table(Vec<(String, String)>),
}

/// What a settings value holds.
pub enum ConfView {
    Text(Seq<char>),
    List(Seq<Seq<char>>),
    Table(Seq<(Seq<char>, Seq<char>)>),
}

impl ConfValue {
    pub open spec fn cview(&self) -> ConfView {
        match self {
            ConfValue::Text(t) => ConfView::Text(t@),
            ConfValue::List(ts) => ConfView::List(ts@.map_values(|t: String| t@)),
            ConfValue::Table(ps) => ConfView::Table(pairs_text(ps@)),
        }
    }
}

/// The settings pairs as texts and value views.
pub open spec fn conf_view(conf: Seq<(String, ConfValue)>) -> Seq<(Seq<char>, ConfView)> {
    conf.map_values(|p: (String, ConfValue)| (p.0@, p.1.cview()))
}

/// The kind of value a top-level setting takes.
#[derive(Clone, Copy, PartialEq, Eq, Structural)]
pub enum Kind {
    Flag,
    Count,
    Name,
    Counts,
    CountTable,
    Table,
}

/// Whether every text is a count.
pub open spec fn counts_ok(ts: Seq<Seq<char>>) -> bool {
    forall|i: int| 0 <= i < ts.len() ==> (#[trigger] spec_parse_count(ts[i])) is Some
}

/// Whether every value of the table is a count.
pub open spec fn count_values_ok(ps: Seq<(Seq<char>, Seq<char>)>) -> bool {
    forall|i: int| 0 <= i < ps.len() ==> (#[trigger] spec_parse_count(ps[i].1)) is Some
}

/// Whether a value is of the kind, every number in it a count.
pub open spec fn spec_kind_ok(kind: Kind, v: ConfView) -> bool {
    match (kind, v) {
        (Kind::Flag, ConfView::Text(t)) => spec_parse_flag(t) is Some,
        (Kind::Count, ConfView::Text(t)) => spec_parse_count(t) is Some,
        (Kind::Name, ConfView::Text(_)) => true,
        (Kind::Counts, ConfView::List(ts)) => counts_ok(ts),
        (Kind::CountTable, ConfView::Table(ps)) => count_values_ok(ps),
        (Kind::Table, ConfView::Table(_)) => true,
        _ => false,
    }
}

/// A value as an error message shows it.
pub open spec fn spec_shown(v: ConfView) -> Seq<char> {
    match v {
        ConfView::Text(t) => t,
        ConfView::List(_) => "a list"@,
        ConfView::Table(_) => "a table"@,
    }
}

/// The top-level settings and the kind of value each takes, in the order
/// they are read.
pub open spec fn spec_top_keys() -> Seq<(Seq<char>, Kind)> {
    seq![
        ("bi_algo"@, Kind::Name),
        ("bi_strict"@, Kind::Flag),
        ("bi_fx_check"@, Kind::Name),
        ("gap_as_kl"@, Kind::Flag),
        ("bi_end_is_peak"@, Kind::Flag),
        ("bi_allow_sub_peak"@, Kind::Flag),
        ("seg_algo"@, Kind::Name),
        ("left_seg_method"@, Kind::Name),
        ("zs_combine"@, Kind::Flag),
        ("zs_combine_mode"@, Kind::Name),
        ("one_bi_zs"@, Kind::Flag),
        ("zs_algo"@, Kind::Name),
        ("trigger_step"@, Kind::Flag),
        ("skip_step"@, Kind::Count),
        ("kl_data_check"@, Kind::Flag),
        ("max_kl_misalgin_cnt"@, Kind::Count),
        ("max_kl_inconsistent_cnt"@, Kind::Count),
        ("auto_skip_illegal_sub_lv"@, Kind::Flag),
        ("print_warning"@, Kind::Flag),
        ("print_err_time"@, Kind::Flag),
        ("mean_metrics"@, Kind::Counts),
        ("trend_metrics"@, Kind::Counts),
        ("macd"@, Kind::CountTable),
        ("cal_demark"@, Kind::Flag),
        ("cal_rsi"@, Kind::Flag),
        ("cal_kdj"@, Kind::Flag),
        ("rsi_cycle"@, Kind::Count),
        ("kdj_cycle"@, Kind::Count),
        ("demark"@, Kind::Table),
        ("boll_n"@, Kind::Count),
    ]
}

/// The value of the first pair of `conf` with key `k`.
pub open spec fn spec_find(conf: Seq<(Seq<char>, ConfView)>, k: Seq<char>) -> Option<ConfView>
    decreases conf.len(),
{
    if conf.len() == 0 {
        None
    } else if conf[0].0 == k {
        Some(conf[0].1)
    } else {
        spec_find(conf.drop_first(), k)
    }
}

/// The message for the first of `keys` whose value in `conf` is not of its
/// kind, if any.
pub open spec fn spec_first_bad(conf: Seq<(Seq<char>, ConfView)>, keys: Seq<(Seq<char>, Kind)>) -> Option<Seq<char>>
    decreases keys.len(),
{
    if keys.len() == 0 {
        None
    } else {
        match spec_find(conf, keys[0].0) {
            Some(v) => if spec_kind_ok(keys[0].1, v) {
                spec_first_bad(conf, keys.drop_first())
            } else {
                Some(spec_bad_para_text(keys[0].0, spec_shown(v)))
            },
            None => spec_first_bad(conf, keys.drop_first()),
        }
    }
}

/// Whether `k` is a top-level setting.
pub open spec fn spec_is_top(k: Seq<char>) -> bool {
    exists|i: int| 0 <= i < spec_top_keys().len() && (#[trigger] spec_top_keys()[i]).0 == k
}

/// The pairs that are no top-level setting, with their texts, in order; or
/// the message for the first whose value is no text.
pub open spec fn spec_rest(conf: Seq<(Seq<char>, ConfView)>) -> Result<Seq<(Seq<char>, Seq<char>)>, Seq<char>>
    decreases conf.len(),
{
    if conf.len() == 0 {
        Ok(Seq::empty())
    } else if spec_is_top(conf[0].0) {
        spec_rest(conf.drop_first())
    } else {
        match conf[0].1 {
            ConfView::Text(t) => match spec_rest(conf.drop_first()) {
                Ok(r) => Ok(seq![(conf[0].0, t)] + r),
                Err(m) => Err(m),
            },
            v => Err(spec_bad_para_text(conf[0].0, spec_shown(v))),
        }
    }
}

// ---------------------------------------------------------------------------
// Reading the values

pub open spec fn spec_flag_val(conf: Seq<(Seq<char>, ConfView)>, k: Seq<char>, d: bool) -> bool {
    match spec_find(conf, k) {
        Some(ConfView::Text(t)) => match spec_parse_flag(t) {
            Some(b) => b,
            None => d,
        },
        _ => d,
    }
}

pub open spec fn spec_count_val(conf: Seq<(Seq<char>, ConfView)>, k: Seq<char>, d: usize) -> usize {
    match spec_find(conf, k) {
        Some(ConfView::Text(t)) => match spec_parse_count(t) {
            Some(c) => c,
            None => d,
        },
        _ => d,
    }
}

pub open spec fn spec_name_val(conf: Seq<(Seq<char>, ConfView)>, k: Seq<char>, d: Seq<char>) -> Seq<char> {
    match spec_find(conf, k) {
        Some(ConfView::Text(t)) => t,
        _ => d,
    }
}

pub open spec fn count_or_zero(t: Seq<char>) -> usize {
    match spec_parse_count(t) {
        Some(c) => c,
        None => 0,
    }
}

pub open spec fn spec_counts_val(conf: Seq<(Seq<char>, ConfView)>, k: Seq<char>) -> Seq<usize> {
    match spec_find(conf, k) {
        Some(ConfView::List(ts)) => ts.map_values(|t: Seq<char>| count_or_zero(t)),
        _ => Seq::empty(),
    }
}

pub open spec fn spec_count_table_val(
    conf: Seq<(Seq<char>, ConfView)>,
    k: Seq<char>,
    d: Seq<(Seq<char>, usize)>,
) -> Seq<(Seq<char>, usize)> {
    match spec_find(conf, k) {
        Some(ConfView::Table(ps)) => ps.map_values(|p: (Seq<char>, Seq<char>)| (p.0, count_or_zero(p.1))),
        _ => d,
    }
}

pub open spec fn spec_table_val(
    conf: Seq<(Seq<char>, ConfView)>,
    k: Seq<char>,
    d: Seq<(Seq<char>, Seq<char>)>,
) -> Seq<(Seq<char>, Seq<char>)> {
    match spec_find(conf, k) {
        Some(ConfView::Table(ps)) => ps,
        _ => d,
    }
}

/// The index of the first pair with key `k`.
fn find_index(conf: &Vec<(String, ConfValue)>, k: &str) -> (r: Option<usize>)
    ensures
        r matches Some(i) ==> i < conf@.len() && spec_find(conf_view(conf@), k@) == Some(conf@[i as int].1.cview()),
        r is None ==> spec_find(conf_view(conf@), k@) is None,
{
    let ghost a = conf_view(conf@);
    let mut i: usize = 0;
    proof {
        assert(a.skip(0) =~= a);
    }
    while i < conf.len()
        invariant
            a == conf_view(conf@),
            i <= conf@.len(),
            spec_find(a, k@) == spec_find(a.skip(i as int), k@),
        decreases conf@.len() - i,
    {
        proof {
            assert(a.skip(i as int).drop_first() =~= a.skip(i + 1));
            assert(a.skip(i as int)[0] == (conf@[i as int].0@, conf@[i as int].1.cview()));
        }
        if str_is(&conf[i].0, k) {
            return Some(i);
        }
        i = i + 1;
    }
    proof {
        assert(a.skip(i as int) =~= Seq::<(Seq<char>, ConfView)>::empty());
    }
    None
}

fn read_flag(conf: &Vec<(String, ConfValue)>, k: &str, d: bool) -> (r: bool)
    ensures
        r == spec_flag_val(conf_view(conf@), k@, d),
{
    match find_index(conf, k) {
        Some(i) => match &conf[i].1 {
            ConfValue::Text(t) => match parse_flag(t.as_str()) {
                Some(b) => b,
                None => d,
            },
            _ => d,
        },
        None => d,
    }
}

fn read_count(conf: &Vec<(String, ConfValue)>, k: &str, d: usize) -> (r: usize)
    ensures
        r == spec_count_val(conf_view(conf@), k@, d),
{
    match find_index(conf, k) {
        Some(i) => match &conf[i].1 {
            ConfValue::Text(t) => match parse_count(t.as_str()) {
                Some(c) => c,
                None => d,
            },
            _ => d,
        },
        None => d,
    }
}

fn read_name(conf: &Vec<(String, ConfValue)>, k: &str, d: &str) -> (r: String)
    ensures
        r@ == spec_name_val(conf_view(conf@), k@, d@),
{
    match find_index(conf, k) {
        Some(i) => match &conf[i].1 {
            ConfValue::Text(t) => t.clone(),
            _ => d.to_owned(),
        },
        None => d.to_owned(),
    }
}

fn counts_of(ts: &Vec<String>) -> (r: Vec<usize>)
    ensures
        r@ == ts@.map_values(|t: String| t@).map_values(|t: Seq<char>| count_or_zero(t)),
{
    let mut out: Vec<usize> = Vec::new();
    let mut i: usize = 0;
    while i < ts.len()
        invariant
            i <= ts@.len(),
            out@.len() == i,
            forall|j: int| 0 <= j < i ==> #[trigger] out@[j] == count_or_zero(ts@[j]@),
        decreases ts@.len() - i,
    {
        let c = match parse_count(ts[i].as_str()) {
            Some(c) => c,
            None => 0,
        };
        out.push(c);
        i = i + 1;
    }
    assert(out@ =~= ts@.map_values(|t: String| t@).map_values(|t: Seq<char>| count_or_zero(t)));
    out
}

fn read_counts(conf: &Vec<(String, ConfValue)>, k: &str) -> (r: Vec<usize>)
    ensures
        r@ == spec_counts_val(conf_view(conf@), k@),
{
    match find_index(conf, k) {
        Some(i) => match &conf[i].1 {
            ConfValue::List(ts) => counts_of(ts),
            _ => Vec::new(),
        },
        None => Vec::new(),
    }
}

fn count_table_of(ps: &Vec<(String, String)>) -> (r: Vec<(String, usize)>)
    ensures
        r@.map_values(|p: (String, usize)| (p.0@, p.1)) == pairs_text(ps@).map_values(
            |p: (Seq<char>, Seq<char>)| (p.0, count_or_zero(p.1)),
        ),
{
    let mut out: Vec<(String, usize)> = Vec::new();
    let mut i: usize = 0;
    while i < ps.len()
        invariant
            i <= ps@.len(),
            out@.len() == i,
            forall|j: int| 0 <= j < i ==> (#[trigger] out@[j]).0@ == ps@[j].0@ && out@[j].1 == count_or_zero(ps@[j].1@),
        decreases ps@.len() - i,
    {
        let c = match parse_count(ps[i].1.as_str()) {
            Some(c) => c,
            None => 0,
        };
        out.push((ps[i].0.clone(), c));
        i = i + 1;
    }
    assert(out@.map_values(|p: (String, usize)| (p.0@, p.1)) =~= pairs_text(ps@).map_values(
        |p: (Seq<char>, Seq<char>)| (p.0, count_or_zero(p.1)),
    ));
    out
}

fn copy_table(ps: &Vec<(String, String)>) -> (r: Vec<(String, String)>)
    ensures
        pairs_text(r@) == pairs_text(ps@),
{
    let mut out: Vec<(String, String)> = Vec::new();
    let mut i: usize = 0;
    while i < ps.len()
        invariant
            i <= ps@.len(),
            out@.len() == i,
            forall|j: int| 0 <= j < i ==> (#[trigger] out@[j]).0@ == ps@[j].0@ && out@[j].1@ == ps@[j].1@,
        decreases ps@.len() - i,
    {
        out.push((ps[i].0.clone(), ps[i].1.clone()));
        i = i + 1;
    }
    assert(pairs_text(out@) =~= pairs_text(ps@));
    out
}

// ---------------------------------------------------------------------------
// Checking the values

/// The message for a value that cannot be read.
fn bad_value(k: &str, v: &str) -> (e: CChanException)
    ensures
        e.errcode == ErrCode::ParaError,
        e.msg@ == spec_bad_para_text(k@, v@),
{
    let mut s = "bad value for ".to_owned();
    s.append(k);
    s.append(": ");
    s.append(v);
    CChanException::new(s, ErrCode::ParaError)
}

fn shown(v: &ConfValue) -> (r: String)
    ensures
        r@ == spec_shown(v.cview()),
{
    match v {
        ConfValue::Text(t) => t.clone(),
        ConfValue::List(_) => "a list".to_owned(),
        ConfValue::Table(_) => "a table".to_owned(),
    }
}

fn all_counts(ts: &Vec<String>) -> (r: bool)
    ensures
        r == counts_ok(ts@.map_values(|t: String| t@)),
{
    let ghost m = ts@.map_values(|t: String| t@);
    let mut i: usize = 0;
    while i < ts.len()
        invariant
            i <= ts@.len(),
            m == ts@.map_values(|t: String| t@),
            forall|j: int| 0 <= j < i ==> (#[trigger] spec_parse_count(m[j])) is Some,
        decreases ts@.len() - i,
    {
        if parse_count(ts[i].as_str()).is_none() {
            assert(spec_parse_count(m[i as int]) is None);
            return false;
        }
        i = i + 1;
    }
    true
}

fn all_count_values(ps: &Vec<(String, String)>) -> (r: bool)
    ensures
        r == count_values_ok(pairs_text(ps@)),
{
    let ghost m = pairs_text(ps@);
    let mut i: usize = 0;
    while i < ps.len()
        invariant
            i <= ps@.len(),
            m == pairs_text(ps@),
            forall|j: int| 0 <= j < i ==> (#[trigger] spec_parse_count(m[j].1)) is Some,
        decreases ps@.len() - i,
    {
        if parse_count(ps[i].1.as_str()).is_none() {
            assert(spec_parse_count(m[i as int].1) is None);
            return false;
        }
        i = i + 1;
    }
    true
}

/// Whether a value is of the kind, as `spec_kind_ok` says.
fn kind_ok(kind: Kind, v: &ConfValue) -> (r: bool)
    ensures
        r == spec_kind_ok(kind, v.cview()),
{
    match kind {
        Kind::Flag => match v {
            ConfValue::Text(t) => parse_flag(t.as_str()).is_some(),
            _ => false,
        },
        Kind::Count => match v {
            ConfValue::Text(t) => parse_count(t.as_str()).is_some(),
            _ => false,
        },
        Kind::Name => match v {
            ConfValue::Text(_) => true,
            _ => false,
        },
        Kind::Counts => match v {
            ConfValue::List(ts) => all_counts(ts),
            _ => false,
        },
        Kind::CountTable => match v {
            ConfValue::Table(ps) => all_count_values(ps),
            _ => false,
        },
        Kind::Table => match v {
            ConfValue::Table(_) => true,
            _ => false,
        },
    }
}

pub open spec fn keys_text(keys: Seq<(&str, Kind)>) -> Seq<(Seq<char>, Kind)> {
    keys.map_values(|p: (&str, Kind)| (p.0@, p.1))
}

/// The top-level settings, as `spec_top_keys` lists them.
fn top_keys() -> (r: Vec<(&'static str, Kind)>)
    ensures
        keys_text(r@) == spec_top_keys(),
{
    let r = vec![
        ("bi_algo", Kind::Name),
        ("bi_strict", Kind::Flag),
        ("bi_fx_check", Kind::Name),
        ("gap_as_kl", Kind::Flag),
        ("bi_end_is_peak", Kind::Flag),
        ("bi_allow_sub_peak", Kind::Flag),
        ("seg_algo", Kind::Name),
        ("left_seg_method", Kind::Name),
        ("zs_combine", Kind::Flag),
        ("zs_combine_mode", Kind::Name),
        ("one_bi_zs", Kind::Flag),
        ("zs_algo", Kind::Name),
        ("trigger_step", Kind::Flag),
        ("skip_step", Kind::Count),
        ("kl_data_check", Kind::Flag),
        ("max_kl_misalgin_cnt", Kind::Count),
        ("max_kl_inconsistent_cnt", Kind::Count),
        ("auto_skip_illegal_sub_lv", Kind::Flag),
        ("print_warning", Kind::Flag),
        ("print_err_time", Kind::Flag),
        ("mean_metrics", Kind::Counts),
        ("trend_metrics", Kind::Counts),
        ("macd", Kind::CountTable),
        ("cal_demark", Kind::Flag),
        ("cal_rsi", Kind::Flag),
        ("cal_kdj", Kind::Flag),
        ("rsi_cycle", Kind::Count),
        ("kdj_cycle", Kind::Count),
        ("demark", Kind::Table),
        ("boll_n", Kind::Count),
    ];
    assert(keys_text(r@) =~= spec_top_keys());
    r
}

/// Checks each top-level setting given against its kind, as
/// `spec_first_bad` says.
fn check_kinds(conf: &Vec<(String, ConfValue)>) -> (r: Result<(), CChanException>)
    ensures
        r is Ok <==> spec_first_bad(conf_view(conf@), spec_top_keys()) is None,
        r matches Err(e) ==> e.errcode == ErrCode::ParaError && spec_first_bad(conf_view(conf@), spec_top_keys())
            == Some(e.msg@),
{
    let keys = top_keys();
    let ghost kv = keys_text(keys@);
    let ghost a = conf_view(conf@);
    let mut i: usize = 0;
    proof {
        assert(kv.skip(0) =~= kv);
    }
    while i < keys.len()
        invariant
            kv == keys_text(keys@),
            kv == spec_top_keys(),
            a == conf_view(conf@),
            i <= keys@.len(),
            spec_first_bad(a, kv) == spec_first_bad(a, kv.skip(i as int)),
        decreases keys@.len() - i,
    {
        let (k, kind) = keys[i];
        proof {
            assert(kv.skip(i as int).drop_first() =~= kv.skip(i + 1));
            assert(kv.skip(i as int)[0] == (k@, kind));
        }
        match find_index(conf, k) {
            Some(j) => {
                if !kind_ok(kind, &conf[j].1) {
                    let v = shown(&conf[j].1);
                    return Err(bad_value(k, v.as_str()));
                }
            },
            None => {},
        }
        i = i + 1;
    }
    proof {
        assert(kv.skip(i as int) =~= Seq::<(Seq<char>, Kind)>::empty());
    }
    Ok(())
}

/// Whether `k` is a top-level setting.
fn is_top(k: &String) -> (r: bool)
    ensures
        r == spec_is_top(k@),
{
    let keys = top_keys();
    let ghost kv = keys_text(keys@);
    let mut i: usize = 0;
    while i < keys.len()
        invariant
            kv == keys_text(keys@),
            kv == spec_top_keys(),
            i <= keys@.len(),
            forall|j: int| 0 <= j < i ==> (#[trigger] kv[j]).0 != k@,
        decreases keys@.len() - i,
    {
        assert(kv[i as int] == (keys@[i as int].0@, keys@[i as int].1));
        if str_is(k, keys[i].0) {
            assert(spec_top_keys()[i as int].0 == k@);
            return true;
        }
        i = i + 1;
    }
    false
}

/// The pairs that are no top-level setting, as `spec_rest` says.
fn rest_pairs(conf: &Vec<(String, ConfValue)>) -> (r: Result<Vec<(String, String)>, CChanException>)
    ensures
        r is Ok <==> spec_rest(conf_view(conf@)) is Ok,
        r matches Ok(v) ==> spec_rest(conf_view(conf@)) == Ok::<Seq<(Seq<char>, Seq<char>)>, Seq<char>>(
            pairs_text(v@),
        ),
        r matches Err(e) ==> e.errcode == ErrCode::ParaError && spec_rest(conf_view(conf@)) == Err::<
            Seq<(Seq<char>, Seq<char>)>,
            Seq<char>,
        >(e.msg@),
{
    let ghost a = conf_view(conf@);
    let mut out: Vec<(String, String)> = Vec::new();
    let mut i: usize = 0;
    proof {
        assert(a.skip(0) =~= a);
        assert(pairs_text(out@) =~= Seq::<(Seq<char>, Seq<char>)>::empty());
        match spec_rest(a) {
            Ok(r) => assert(Seq::<(Seq<char>, Seq<char>)>::empty() + r =~= r),
            Err(_) => {},
        }
    }
    while i < conf.len()
        invariant
            a == conf_view(conf@),
            i <= conf@.len(),
            spec_rest(a) == (match spec_rest(a.skip(i as int)) {
                Ok(r) => Ok(pairs_text(out@) + r),
                Err(m) => Err(m),
            }),
        decreases conf@.len() - i,
    {
        proof {
            assert(a.skip(i as int).drop_first() =~= a.skip(i + 1));
            assert(a.skip(i as int)[0] == (conf@[i as int].0@, conf@[i as int].1.cview()));
        }
        if !is_top(&conf[i].0) {
            match &conf[i].1 {
                ConfValue::Text(t) => {
                    let ghost before = pairs_text(out@);
                    out.push((conf[i].0.clone(), t.clone()));
                    proof {
                        assert(pairs_text(out@) =~= before.push((conf@[i as int].0@, t@)));
                        match spec_rest(a.skip(i + 1)) {
                            Ok(r) => {
                                assert(before + (seq![(conf@[i as int].0@, t@)] + r) =~= pairs_text(out@) + r);
                            },
                            Err(_) => {},
                        }
                    }
                },
                v => {
                    let s = shown(v);
                    return Err(bad_value(conf[i].0.as_str(), s.as_str()));
                },
            }
        }
        i = i + 1;
    }
    proof {
        assert(a.skip(i as int) =~= Seq::<(Seq<char>, ConfView)>::empty());
        assert(pairs_text(out@) + Seq::<(Seq<char>, Seq<char>)>::empty() =~= pairs_text(out@));
    }
    Ok(out)
}

// ---------------------------------------------------------------------------
// The settings of an analysis

/// The settings of an analysis: how strokes, segments and pivots are found,
/// the steps, data checks and indicators asked for, and the buy/sell point
/// settings of strokes and of segments.
pub struct CChanConfig {
    pub bi_conf: CBiConfig,
    pub seg_conf: CSegConfig,
    pub zs_conf: CZsConfig,
    pub trigger_step: bool,
    pub skip_step: usize,
    pub kl_data_check: bool,
    pub max_kl_misalgin_cnt: usize,
    pub max_kl_inconsistent_cnt: usize,
    pub auto_skip_illegal_sub_lv: bool,
    pub print_warning: bool,
    pub print_err_time: bool,
    pub mean_metrics: Vec<usize>,
    pub trend_metrics: Vec<usize>,
    pub macd_config: Vec<(String, usize)>,
    pub cal_demark: bool,
    pub cal_rsi: bool,
    pub cal_kdj: bool,
    pub rsi_cycle: usize,
    pub kdj_cycle: usize,
    pub demark_config: Vec<(String, String)>,
    pub boll_n: usize,
    pub bs_point_conf: CBSPointSettings,
    pub seg_bs_point_conf: CBSPointSettings,
}

/// What the settings of an analysis hold.
#[verifier::ext_equal]
pub struct ChanView {
    pub bi_algo: Seq<char>,
    pub bi_strict: bool,
    pub bi_fx_check: FX_CHECK_METHOD,
    pub gap_as_kl: bool,
    pub bi_end_is_peak: bool,
    pub bi_allow_sub_peak: bool,
    pub seg_algo: Seq<char>,
    pub left_method: LEFT_SEG_METHOD,
    pub zs: CZsConfig,
    pub trigger_step: bool,
    pub skip_step: usize,
    pub kl_data_check: bool,
    pub max_kl_misalgin_cnt: usize,
    pub max_kl_inconsistent_cnt: usize,
    pub auto_skip_illegal_sub_lv: bool,
    pub print_warning: bool,
    pub print_err_time: bool,
    pub mean_metrics: Seq<usize>,
    pub trend_metrics: Seq<usize>,
    pub macd: Seq<(Seq<char>, usize)>,
    pub cal_demark: bool,
    pub cal_rsi: bool,
    pub cal_kdj: bool,
    pub rsi_cycle: usize,
    pub kdj_cycle: usize,
    pub demark: Seq<(Seq<char>, Seq<char>)>,
    pub boll_n: usize,
    pub bsp: Sides,
}

impl CChanConfig {
    pub open spec fn cv(&self) -> ChanView {
        ChanView {
            bi_algo: self.bi_conf.bi_algo@,
            bi_strict: self.bi_conf.is_strict,
            bi_fx_check: self.bi_conf.bi_fx_check,
            gap_as_kl: self.bi_conf.gap_as_kl,
            bi_end_is_peak: self.bi_conf.bi_end_is_peak,
            bi_allow_sub_peak: self.bi_conf.bi_allow_sub_peak,
            seg_algo: self.seg_conf.seg_algo@,
            left_method: self.seg_conf.left_method,
            zs: self.zs_conf,
            trigger_step: self.trigger_step,
            skip_step: self.skip_step,
            kl_data_check: self.kl_data_check,
            max_kl_misalgin_cnt: self.max_kl_misalgin_cnt,
            max_kl_inconsistent_cnt: self.max_kl_inconsistent_cnt,
            auto_skip_illegal_sub_lv: self.auto_skip_illegal_sub_lv,
            print_warning: self.print_warning,
            print_err_time: self.print_err_time,
            mean_metrics: self.mean_metrics@,
            trend_metrics: self.trend_metrics@,
            macd: self.macd_config@.map_values(|p: (String, usize)| (p.0@, p.1)),
            cal_demark: self.cal_demark,
            cal_rsi: self.cal_rsi,
            cal_kdj: self.cal_kdj,
            rsi_cycle: self.rsi_cycle,
            kdj_cycle: self.kdj_cycle,
            demark: pairs_text(self.demark_config@),
            boll_n: self.boll_n,
            bsp: (
                self.bs_point_conf.b_conf.pv(),
                self.bs_point_conf.s_conf.pv(),
                self.seg_bs_point_conf.b_conf.pv(),
                self.seg_bs_point_conf.s_conf.pv(),
            ),
        }
    }
}

/// The periods of the MACD when none are given.
pub open spec fn spec_macd_defaults() -> Seq<(Seq<char>, usize)> {
    seq![("fast"@, 12usize), ("slow"@, 26usize), ("signal"@, 9usize)]
}

/// The DeMark settings when none are given.
pub open spec fn spec_demark_defaults() -> Seq<(Seq<char>, Seq<char>)> {
    seq![
        ("demark_len"@, "9"@),
        ("setup_bias"@, "4"@),
        ("countdown_bias"@, "2"@),
        ("max_countdown"@, "13"@),
        ("tiaokong_st"@, "true"@),
        ("setup_cmp2close"@, "true"@),
        ("countdown_cmp2close"@, "true"@),
    ]
}

/// The message for unknown pivot settings.
pub open spec fn spec_zs_text(mode: Seq<char>, algo: Seq<char>) -> Seq<char> {
    "unknown zs settings: "@ + mode + " / "@ + algo
}

/// The settings of an analysis from the settings pairs `c`: each top-level
/// setting given must be of its kind; the fractal check, the treatment of
/// the strokes left over and the pivot names must be known; the other pairs
/// must be texts, and are the buy/sell point settings (see
/// `spec_set_bsp_config`). Settings not given take their defaults. Or the
/// message of the first failure, in that order.
pub open spec fn spec_chan_config(c: Seq<(Seq<char>, ConfView)>) -> Result<ChanView, Seq<char>> {
    let fx = spec_name_val(c, "bi_fx_check"@, "strict"@);
    let lm = spec_name_val(c, "left_seg_method"@, "peak"@);
    let mode = spec_name_val(c, "zs_combine_mode"@, "zs"@);
    let algo = spec_name_val(c, "zs_algo"@, "normal"@);
    match spec_first_bad(c, spec_top_keys()) {
        Some(m) => Err(m),
        None => if spec_fx_check_of(fx) is None {
            Err("unknown bi_fx_check="@ + fx)
        } else if !(lm == "all"@ || lm == "peak"@) {
            Err("unknown left_seg_method="@ + lm)
        } else if spec_combine_mode_of(mode) is None || spec_zs_algo_of(algo) is None {
            Err(spec_zs_text(mode, algo))
        } else {
            match spec_rest(c) {
                Err(m) => Err(m),
                Ok(rest) => match spec_set_bsp_config(rest) {
                    Err(m) => Err(m),
                    Ok(st) => Ok(
                        ChanView {
                            bi_algo: spec_name_val(c, "bi_algo"@, "normal"@),
                            bi_strict: spec_flag_val(c, "bi_strict"@, true),
                            bi_fx_check: spec_fx_check_of(fx)->0,
                            gap_as_kl: spec_flag_val(c, "gap_as_kl"@, false),
                            bi_end_is_peak: spec_flag_val(c, "bi_end_is_peak"@, true),
                            bi_allow_sub_peak: spec_flag_val(c, "bi_allow_sub_peak"@, true),
                            seg_algo: spec_name_val(c, "seg_algo"@, "chan"@),
                            left_method: if lm == "all"@ {
                                LEFT_SEG_METHOD::ALL
                            } else {
                                LEFT_SEG_METHOD::PEAK
                            },
                            zs: CZsConfig {
                                need_combine: spec_flag_val(c, "zs_combine"@, true),
                                zs_combine_mode: spec_combine_mode_of(mode)->0,
                                one_bi_zs: spec_flag_val(c, "one_bi_zs"@, false),
                                zs_algo: spec_zs_algo_of(algo)->0,
                            },
                            trigger_step: spec_flag_val(c, "trigger_step"@, false),
                            skip_step: spec_count_val(c, "skip_step"@, 0),
                            kl_data_check: spec_flag_val(c, "kl_data_check"@, true),
                            max_kl_misalgin_cnt: spec_count_val(c, "max_kl_misalgin_cnt"@, 2),
                            max_kl_inconsistent_cnt: spec_count_val(c, "max_kl_inconsistent_cnt"@, 5),
                            auto_skip_illegal_sub_lv: spec_flag_val(c, "auto_skip_illegal_sub_lv"@, false),
                            print_warning: spec_flag_val(c, "print_warning"@, true),
                            print_err_time: spec_flag_val(c, "print_err_time"@, false),
                            mean_metrics: spec_counts_val(c, "mean_metrics"@),
                            trend_metrics: spec_counts_val(c, "trend_metrics"@),
                            macd: spec_count_table_val(c, "macd"@, spec_macd_defaults()),
                            cal_demark: spec_flag_val(c, "cal_demark"@, false),
                            cal_rsi: spec_flag_val(c, "cal_rsi"@, false),
                            cal_kdj: spec_flag_val(c, "cal_kdj"@, false),
                            rsi_cycle: spec_count_val(c, "rsi_cycle"@, 14),
                            kdj_cycle: spec_count_val(c, "kdj_cycle"@, 9),
                            demark: spec_table_val(c, "demark"@, spec_demark_defaults()),
                            boll_n: spec_count_val(c, "boll_n"@, 20),
                            bsp: st,
                        },
                    ),
                },
            }
        },
    }
}

fn read_count_table(conf: &Vec<(String, ConfValue)>, k: &str) -> (r: Vec<(String, usize)>)
    ensures
        r@.map_values(|p: (String, usize)| (p.0@, p.1)) == spec_count_table_val(conf_view(conf@), k@, spec_macd_defaults()),
{
    match find_index(conf, k) {
        Some(i) => match &conf[i].1 {
            ConfValue::Table(ps) => {
                return count_table_of(ps);
            },
            _ => {},
        },
        None => {},
    }
    let r = vec![("fast".to_owned(), 12usize), ("slow".to_owned(), 26usize), ("signal".to_owned(), 9usize)];
    assert(r@.map_values(|p: (String, usize)| (p.0@, p.1)) =~= spec_macd_defaults());
    r
}

fn read_table(conf: &Vec<(String, ConfValue)>, k: &str) -> (r: Vec<(String, String)>)
    ensures
        pairs_text(r@) == spec_table_val(conf_view(conf@), k@, spec_demark_defaults()),
{
    match find_index(conf, k) {
        Some(i) => match &conf[i].1 {
            ConfValue::Table(ps) => {
                return copy_table(ps);
            },
            _ => {},
        },
        None => {},
    }
    let r = vec![
        ("demark_len".to_owned(), "9".to_owned()),
        ("setup_bias".to_owned(), "4".to_owned()),
        ("countdown_bias".to_owned(), "2".to_owned()),
        ("max_countdown".to_owned(), "13".to_owned()),
        ("tiaokong_st".to_owned(), "true".to_owned()),
        ("setup_cmp2close".to_owned(), "true".to_owned()),
        ("countdown_cmp2close".to_owned(), "true".to_owned()),
    ];
    assert(pairs_text(r@) =~= spec_demark_defaults());
    r
}

fn zs_message(mode: &String, algo: &String) -> (r: String)
    ensures
        r@ == spec_zs_text(mode@, algo@),
{
    let mut s = "unknown zs settings: ".to_owned();
    s.append(mode.as_str());
    s.append(" / ");
    s.append(algo.as_str());
    s
}

impl CChanConfig {
    /// Reads the settings of an analysis from (key, value) pairs, as
    /// `spec_chan_config` says.
    pub fn new(conf: &Vec<(String, ConfValue)>) -> (r: Result<Self, CChanException>)
        ensures
            r is Ok <==> spec_chan_config(conf_view(conf@)) is Ok,
            r matches Ok(c) ==> spec_chan_config(conf_view(conf@)) == Ok::<ChanView, Seq<char>>(c.cv()),
            r matches Err(e) ==> e.errcode == ErrCode::ParaError && spec_chan_config(conf_view(conf@)) == Err::<
                ChanView,
                Seq<char>,
            >(e.msg@),
    {
        let ghost c = conf_view(conf@);
        if let Err(e) = check_kinds(conf) {
            return Err(e);
        }
        let fx = read_name(conf, "bi_fx_check", "strict");
        let bc = match bi_config::CBiConfig::new(
            Some(read_name(conf, "bi_algo", "normal")),
            Some(read_flag(conf, "bi_strict", true)),
            Some(fx),
            Some(read_flag(conf, "gap_as_kl", false)),
            Some(read_flag(conf, "bi_end_is_peak", true)),
            Some(read_flag(conf, "bi_allow_sub_peak", true)),
        ) {
            Ok(b) => b,
            Err(e) => {
                return Err(e);
            },
        };
        let bi_conf = CBiConfig {
            bi_algo: bc.bi_algo,
            is_strict: bc.is_strict,
            bi_fx_check: bc.bi_fx_check,
            gap_as_kl: bc.gap_as_kl,
            bi_end_is_peak: bc.bi_end_is_peak,
            bi_allow_sub_peak: bc.bi_allow_sub_peak,
        };
        let seg_conf = match CSegConfig::new(read_name(conf, "seg_algo", "chan"), read_name(conf, "left_seg_method", "peak")) {
            Ok(s) => s,
            Err(e) => {
                return Err(e);
            },
        };
        let mode = read_name(conf, "zs_combine_mode", "zs");
        let algo = read_name(conf, "zs_algo", "normal");
        let msg = zs_message(&mode, &algo);
        let zc = CZSConfig::new(
            Some(read_flag(conf, "zs_combine", true)),
            Some(mode),
            Some(read_flag(conf, "one_bi_zs", false)),
            Some(algo),
        );
        let zs_conf = match zc.typed() {
            Some(z) => z,
            None => {
                return Err(CChanException::new(msg, ErrCode::ParaError));
            },
        };
        let rest = match rest_pairs(conf) {
            Ok(v) => v,
            Err(e) => {
                return Err(e);
            },
        };
        let (bs_point_conf, seg_bs_point_conf) = match set_bsp_config(&rest) {
            Ok(p) => p,
            Err(e) => {
                return Err(e);
            },
        };
        let r = CChanConfig {
            bi_conf,
            seg_conf,
            zs_conf,
            trigger_step: read_flag(conf, "trigger_step", false),
            skip_step: read_count(conf, "skip_step", 0),
            kl_data_check: read_flag(conf, "kl_data_check", true),
            max_kl_misalgin_cnt: read_count(conf, "max_kl_misalgin_cnt", 2),
            max_kl_inconsistent_cnt: read_count(conf, "max_kl_inconsistent_cnt", 5),
            auto_skip_illegal_sub_lv: read_flag(conf, "auto_skip_illegal_sub_lv", false),
            print_warning: read_flag(conf, "print_warning", true),
            print_err_time: read_flag(conf, "print_err_time", false),
            mean_metrics: read_counts(conf, "mean_metrics"),
            trend_metrics: read_counts(conf, "trend_metrics"),
            macd_config: read_count_table(conf, "macd"),
            cal_demark: read_flag(conf, "cal_demark", false),
            cal_rsi: read_flag(conf, "cal_rsi", false),
            cal_kdj: read_flag(conf, "cal_kdj", false),
            rsi_cycle: read_count(conf, "rsi_cycle", 14),
            kdj_cycle: read_count(conf, "kdj_cycle", 9),
            demark_config: read_table(conf, "demark"),
            boll_n: read_count(conf, "boll_n", 20),
            bs_point_conf,
            seg_bs_point_conf,
        };
        assert(spec_chan_config(c) == Ok::<ChanView, Seq<char>>(r.cv()));
        Ok(r)
    }
}

} // verus!

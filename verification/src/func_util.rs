use vstd::prelude::*;
use crate::enums::{spec_kl_level, EqualMode, BI_DIR, KLINE_DIR, KL_TYPE};

verus! {

/// The highest and lowest price of an item (a K-line, a stroke, a segment).
/// Prices are integers whose order is the order of the market prices.
#[derive(Debug, Clone, Copy, PartialEq, Eq, Structural)]
pub struct HighLow {
    pub high: i64,
    pub low: i64,
}

/// Whether a period is shorter than a day.
pub fn kltype_lt_day(kl_type: &KL_TYPE) -> (r: bool)
    ensures
        r == (spec_kl_level(*kl_type) < spec_kl_level(KL_TYPE::K_DAY)),
{
    kl_type.level() < KL_TYPE::K_DAY.level()
}

/// Whether a period is at most a day.
pub fn kltype_lte_day(kl_type: &KL_TYPE) -> (r: bool)
    ensures
        r == (spec_kl_level(*kl_type) <= spec_kl_level(KL_TYPE::K_DAY)),
{
    kl_type.level() <= KL_TYPE::K_DAY.level()
}

/// The levels of a list strictly decrease from first to last.
pub open spec fn strictly_descending(s: Seq<KL_TYPE>) -> bool {
    forall|i: int| 0 <= i < s.len() - 1 ==> spec_kl_level(#[trigger] s[i + 1]) < spec_kl_level(s[i])
}

/// Checks that a list of periods goes from the largest to the smallest.
pub fn check_kltype_order(type_list: &[KL_TYPE]) -> (r: Result<(), String>)
    requires
        type_list@.len() > 0,
    ensures
        r is Ok <==> strictly_descending(type_list@),
        r matches Err(m) ==> m@ == "lv_list的顺序必须从大级别到小级别"@,
{
    let mut last_lv = type_list[0].level();
    let mut i: usize = 1;
    while i < type_list.len()
        invariant
            1 <= i <= type_list@.len(),
            last_lv == spec_kl_level(type_list@[i - 1]),
            forall|j: int| 0 <= j < i - 1 ==> spec_kl_level(#[trigger] type_list@[j + 1]) < spec_kl_level(type_list@[j]),
        decreases type_list@.len() - i,
    {
        let lv = type_list[i].level();
        if lv >= last_lv {
            assert(!strictly_descending(type_list@)) by {
                assert(spec_kl_level(type_list@[(i - 1) + 1]) >= spec_kl_level(type_list@[i - 1]));
            }
            return Err(String::from_str("lv_list的顺序必须从大级别到小级别"));
        }
        last_lv = lv;
        i = i + 1;
    }
    Ok(())
}

/// The opposite direction.
pub open spec fn spec_revert_bi_dir(dir: BI_DIR) -> BI_DIR {
    match dir {
        BI_DIR::UP => BI_DIR::DOWN,
        BI_DIR::DOWN => BI_DIR::UP,
    }
}

pub fn revert_bi_dir(dir: &BI_DIR) -> (r: BI_DIR)
    ensures
        r == spec_revert_bi_dir(*dir),
        r != *dir,
{
    match dir {
        BI_DIR::UP => BI_DIR::DOWN,
        BI_DIR::DOWN => BI_DIR::UP,
    }
}

/// Whether the ranges [l1, h1] and [l2, h2] overlap; with `equal`, touching counts.
pub open spec fn spec_has_overlap(l1: int, h1: int, l2: int, h2: int, equal: bool) -> bool {
    if equal {
        h2 >= l1 && h1 >= l2
    } else {
        h2 > l1 && h1 > l2
    }
}

pub fn has_overlap(l1: i64, h1: i64, l2: i64, h2: i64, equal: bool) -> (r: bool)
    ensures
        r == spec_has_overlap(l1 as int, h1 as int, l2 as int, h2 as int, equal),
{
    if equal {
        h2 >= l1 && h1 >= l2
    } else {
        h2 > l1 && h1 > l2
    }
}

/// Whether every item of a non-empty list shares a common price range:
/// the lowest high lies above the highest low.
pub open spec fn spec_slice_has_overlap(s: Seq<HighLow>) -> bool {
    forall|i: int, j: int| 0 <= i < s.len() && 0 <= j < s.len() ==> #[trigger] s[i].high > #[trigger] s[j].low
}

pub fn slice_has_overlap(list: &[HighLow]) -> (r: bool)
    requires
        list@.len() > 0,
    ensures
        r == spec_slice_has_overlap(list@),
{
    let mut min_high = list[0].high;
    let mut max_low = list[0].low;
    let mut hi_idx: usize = 0;
    let mut lo_idx: usize = 0;
    let mut i: usize = 1;
    while i < list.len()
        invariant
            1 <= i <= list@.len(),
            hi_idx < i,
            lo_idx < i,
            min_high == list@[hi_idx as int].high,
            max_low == list@[lo_idx as int].low,
            forall|k: int| 0 <= k < i ==> min_high <= #[trigger] list@[k].high,
            forall|k: int| 0 <= k < i ==> max_low >= #[trigger] list@[k].low,
        decreases list@.len() - i,
    {
        if list[i].high < min_high {
            min_high = list[i].high;
            hi_idx = i;
        }
        if list[i].low > max_low {
            max_low = list[i].low;
            lo_idx = i;
        }
        i = i + 1;
    }
    if min_high > max_low {
        true
    } else {
        assert(!(list@[hi_idx as int].high > list@[lo_idx as int].low));
        false
    }
}

/// How item `rhs` relates to item `lhs` for K-line combination.
pub open spec fn spec_test_combine(
    lhs: HighLow,
    rhs: HighLow,
    exclude_included: bool,
    allow_top_equal: Option<EqualMode>,
) -> KLINE_DIR {
    if lhs.high >= rhs.high && lhs.low <= rhs.low {
        if allow_top_equal == Some(EqualMode::TopEqual) && lhs.high == rhs.high && lhs.low > rhs.low {
            KLINE_DIR::DOWN
        } else if allow_top_equal == Some(EqualMode::BottomEqual) && lhs.low == rhs.low && lhs.high
            < rhs.high {
            KLINE_DIR::UP
        } else if exclude_included {
            KLINE_DIR::INCLUDED
        } else {
            KLINE_DIR::COMBINE
        }
    } else if lhs.high <= rhs.high && lhs.low >= rhs.low {
        KLINE_DIR::COMBINE
    } else if lhs.high > rhs.high {
        KLINE_DIR::DOWN
    } else {
        KLINE_DIR::UP
    }
}

/// Compares two items by their highs and lows: one containing the other
/// combines (or is excluded), otherwise the second goes up or down.
pub fn test_combine(
    lhs: &HighLow,
    rhs: &HighLow,
    exclude_included: bool,
    allow_top_equal: Option<EqualMode>,
) -> (r: KLINE_DIR)
    ensures
        r == spec_test_combine(*lhs, *rhs, exclude_included, allow_top_equal),
        r == KLINE_DIR::DOWN && !(lhs.high >= rhs.high && lhs.low <= rhs.low) ==> lhs.high > rhs.high
            && lhs.low > rhs.low,
        r == KLINE_DIR::UP && !(lhs.high >= rhs.high && lhs.low <= rhs.low) ==> lhs.high < rhs.high
            && lhs.low < rhs.low,
{
    if lhs.high >= rhs.high && lhs.low <= rhs.low {
        if allow_top_equal == Some(EqualMode::TopEqual) && lhs.high == rhs.high && lhs.low > rhs.low {
            return KLINE_DIR::DOWN;
        }
        if allow_top_equal == Some(EqualMode::BottomEqual) && lhs.low == rhs.low && lhs.high < rhs.high {
            return KLINE_DIR::UP;
        }
        if exclude_included {
            KLINE_DIR::INCLUDED
        } else {
            KLINE_DIR::COMBINE
        }
    } else if lhs.high <= rhs.high && lhs.low >= rhs.low {
        KLINE_DIR::COMBINE
    } else if lhs.high > rhs.high {
        KLINE_DIR::DOWN
    } else {
        KLINE_DIR::UP
    }
}

} // verus!

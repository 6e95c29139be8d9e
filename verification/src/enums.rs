use vstd::prelude::*;

verus! {

/// Where K-line data comes from.
#[derive(Debug, Clone, Copy, PartialEq, Eq, Structural)]
pub enum DATA_SRC {
    BAO_STOCK,
    CCXT,
    CSV,
}

/// Period of a K-line, from one second up to one year.
#[derive(Debug, Clone, Copy, PartialEq, Eq, Structural)]
pub enum KL_TYPE {
    K_1S,
    K_3S,
    K_5S,
    K_10S,
    K_15S,
    K_20S,
    K_30S,
    K_1M,
    K_3M,
    K_5M,
    K_10M,
    K_15M,
    K_30M,
    K_60M,
    K_DAY,
    K_WEEK,
    K_MON,
    K_QUARTER,
    K_YEAR,
}

/// The level number of each period: one second is 1, a year is 19.
pub open spec fn spec_kl_level(t: KL_TYPE) -> int {
    match t {
        KL_TYPE::K_1S => 1,
        KL_TYPE::K_3S => 2,
        KL_TYPE::K_5S => 3,
        KL_TYPE::K_10S => 4,
        KL_TYPE::K_15S => 5,
        KL_TYPE::K_20S => 6,
        KL_TYPE::K_30S => 7,
        KL_TYPE::K_1M => 8,
        KL_TYPE::K_3M => 9,
        KL_TYPE::K_5M => 10,
        KL_TYPE::K_10M => 11,
        KL_TYPE::K_15M => 12,
        KL_TYPE::K_30M => 13,
        KL_TYPE::K_60M => 14,
        KL_TYPE::K_DAY => 15,
        KL_TYPE::K_WEEK => 16,
        KL_TYPE::K_MON => 17,
        KL_TYPE::K_QUARTER => 18,
        KL_TYPE::K_YEAR => 19,
    }
}

impl KL_TYPE {
    /// The level number of this period.
    pub fn level(&self) -> (r: i32)
        ensures
            r == spec_kl_level(*self),
            1 <= r <= 19,
    {
        match self {
            KL_TYPE::K_1S => 1,
            KL_TYPE::K_3S => 2,
            KL_TYPE::K_5S => 3,
            KL_TYPE::K_10S => 4,
            KL_TYPE::K_15S => 5,
            KL_TYPE::K_20S => 6,
            KL_TYPE::K_30S => 7,
            KL_TYPE::K_1M => 8,
            KL_TYPE::K_3M => 9,
            KL_TYPE::K_5M => 10,
            KL_TYPE::K_10M => 11,
            KL_TYPE::K_15M => 12,
            KL_TYPE::K_30M => 13,
            KL_TYPE::K_60M => 14,
            KL_TYPE::K_DAY => 15,
            KL_TYPE::K_WEEK => 16,
            KL_TYPE::K_MON => 17,
            KL_TYPE::K_QUARTER => 18,
            KL_TYPE::K_YEAR => 19,
        }
    }
}

/// Relation of a new K-line to the current combined one.
#[derive(Debug, Clone, Copy, PartialEq, Eq, Structural)]
pub enum KLINE_DIR {
    UP,
    DOWN,
    COMBINE,
    INCLUDED,
}

/// Kind of fractal a combined K-line forms with its neighbours.
#[derive(Debug, Clone, Copy, PartialEq, Eq, Structural)]
pub enum FX_TYPE {
    BOTTOM,
    TOP,
    UNKNOWN,
}

/// Direction of a stroke or segment.
#[derive(Debug, Clone, Copy, PartialEq, Eq, Structural)]
pub enum BI_DIR {
    UP,
    DOWN,
}

#[derive(Debug, Clone, Copy, PartialEq, Eq, Structural)]
pub enum BI_TYPE {
    UNKNOWN,
    STRICT,
    SUB_VALUE,
    TIAOKONG_THRED,
    DAHENG,
    TUIBI,
    UNSTRICT,
    TIAOKONG_VALUE,
}

/// Buy/sell point types.
#[derive(Debug, Clone, Copy, PartialEq, Eq, Structural)]
pub enum BSP_TYPE {
    T1,
    T1P,
    T2,
    T2S,
    T3A,
    T3B,
}

/// The main class ("1", "2" or "3") a buy/sell point type belongs to.
pub open spec fn spec_bsp_main_type(t: BSP_TYPE) -> Seq<char> {
    match t {
        BSP_TYPE::T1 | BSP_TYPE::T1P => seq!['1'],
        BSP_TYPE::T2 | BSP_TYPE::T2S => seq!['2'],
        BSP_TYPE::T3A | BSP_TYPE::T3B => seq!['3'],
    }
}

impl BSP_TYPE {
    pub fn main_type(&self) -> (r: String)
        ensures
            r@ == spec_bsp_main_type(*self),
    {
        let s = match self {
            BSP_TYPE::T1 | BSP_TYPE::T1P => "1",
            BSP_TYPE::T2 | BSP_TYPE::T2S => "2",
            BSP_TYPE::T3A | BSP_TYPE::T3B => "3",
        };
        proof {
            reveal_strlit("1");
            reveal_strlit("2");
            reveal_strlit("3");
        }
        String::from_str(s)
    }
}

#[derive(Debug, Clone, Copy, PartialEq, Eq, Structural)]
pub enum AUTYPE {
    QFQ,
    HFQ,
    NONE,
}

#[derive(Debug, Clone, Copy, PartialEq, Eq, Structural)]
pub enum TREND_TYPE {
    MEAN,
    MAX,
    MIN,
}

#[derive(Debug, Clone, Copy, PartialEq, Eq, Structural)]
pub enum TREND_LINE_SIDE {
    INSIDE,
    OUTSIDE,
}

/// How the strokes left after the last sure segment are grouped.
#[derive(Debug, Clone, Copy, PartialEq, Eq, Structural)]
pub enum LEFT_SEG_METHOD {
    ALL,
    PEAK,
}

/// How strictly the two fractals of a stroke must be separated.
#[derive(Debug, Clone, Copy, PartialEq, Eq, Structural)]
pub enum FX_CHECK_METHOD {
    STRICT,
    LOSS,
    HALF,
    TOTALLY,
}

#[derive(Debug, Clone, Copy, PartialEq, Eq, Structural)]
pub enum SEG_TYPE {
    BI,
    SEG,
}

#[derive(Debug, Clone, Copy, PartialEq, Eq, Structural)]
pub enum MACD_ALGO {
    AREA,
    PEAK,
    FULL_AREA,
    DIFF,
    SLOPE,
    AMP,
    VOLUMN,
    AMOUNT,
    VOLUMN_AVG,
    AMOUNT_AVG,
    TURNRATE_AVG,
    RSI,
}

/// Which equal extreme is allowed when testing inclusion of eigen elements.
#[derive(Debug, Clone, Copy, PartialEq, Eq, Structural)]
pub enum EqualMode {
    TopEqual,
    BottomEqual,
}

/// How overlapping pivots are merged.
#[derive(Debug, Clone, Copy, PartialEq, Eq, Structural)]
pub enum ZsCombineMode {
    Zs,
    Peak,
}

/// How pivots are built from strokes.
#[derive(Debug, Clone, Copy, PartialEq, Eq, Structural)]
pub enum ZsAlgo {
    Normal,
    OverSeg,
    Auto,
}

/// Names of the columns of a K-line record.
pub struct DATA_FIELD;

impl DATA_FIELD {
    pub fn field_time() -> (r: &'static str)
        ensures
            r@ == "time_key"@,
    {
        "time_key"
    }

    pub fn field_open() -> (r: &'static str)
        ensures
            r@ == "open"@,
    {
        "open"
    }

    pub fn field_high() -> (r: &'static str)
        ensures
            r@ == "high"@,
    {
        "high"
    }

    pub fn field_low() -> (r: &'static str)
        ensures
            r@ == "low"@,
    {
        "low"
    }

    pub fn field_close() -> (r: &'static str)
        ensures
            r@ == "close"@,
    {
        "close"
    }

    pub fn field_volume() -> (r: &'static str)
        ensures
            r@ == "volume"@,
    {
        "volume"
    }

    pub fn field_turnover() -> (r: &'static str)
        ensures
            r@ == "turnover"@,
    {
        "turnover"
    }

    pub fn field_turnrate() -> (r: &'static str)
        ensures
            r@ == "turnover_rate"@,
    {
        "turnover_rate"
    }
}

} // verus!

use vstd::prelude::*;
use crate::strutil::str_ends_with;

verus! {

/// Which buy/sell point settings a settings key is meant for.
#[derive(Debug, Clone, Copy, PartialEq, Eq, Structural)]
pub enum BspKeyTarget {
    /// The buy side of strokes (`-buy`).
    Buy,
    /// The sell side of strokes (`-sell`).
    Sell,
    /// The buy side of segments (`-segbuy`).
    SegBuy,
    /// The sell side of segments (`-segsell`).
    SegSell,
    /// Both sides of segments (`-seg`).
    Seg,
    /// Both sides of strokes: a bare setting name.
    Both,
    /// No buy/sell point setting.
    Unknown,
}

/// Whether `k` ends with `s`.
pub open spec fn spec_ends_with(k: Seq<char>, s: Seq<char>) -> bool {
    s.len() <= k.len() && k.subrange(k.len() - s.len(), k.len() as int) == s
}

/// `k` with every trailing copy of `s` taken off, as `trim_end_matches`
/// does.
pub open spec fn spec_trim_end(k: Seq<char>, s: Seq<char>) -> Seq<char>
    decreases k.len(),
{
    if s.len() > 0 && spec_ends_with(k, s) {
        spec_trim_end(k.subrange(0, k.len() - s.len()), s)
    } else {
        k
    }
}

/// The names of the settings of one side's buy/sell points.
pub open spec fn spec_bsp_para(k: Seq<char>) -> bool {
    ||| k == "divergence_rate"@
    ||| k == "min_zs_cnt"@
    ||| k == "bsp1_only_multibi_zs"@
    ||| k == "max_bs2_rate"@
    ||| k == "macd_algo"@
    ||| k == "bs1_peak"@
    ||| k == "bs_type"@
    ||| k == "bsp2_follow_1"@
    ||| k == "bsp3_follow_1"@
    ||| k == "bsp3_peak"@
    ||| k == "bsp2s_follow_2"@
    ||| k == "max_bsp2s_lv"@
    ||| k == "strict_bsp3"@
}

/// Where a settings key goes, and the setting's name: by its suffix, tried
/// in the order `-buy`, `-sell`, `-segbuy`, `-segsell`, `-seg`, with the
/// suffix taken off; otherwise to both sides of strokes if it names a
/// setting, and nowhere if not.
pub open spec fn spec_route_key(k: Seq<char>) -> (BspKeyTarget, Seq<char>) {
    if spec_ends_with(k, "-buy"@) {
        (BspKeyTarget::Buy, spec_trim_end(k, "-buy"@))
    } else if spec_ends_with(k, "-sell"@) {
        (BspKeyTarget::Sell, spec_trim_end(k, "-sell"@))
    } else if spec_ends_with(k, "-segbuy"@) {
        (BspKeyTarget::SegBuy, spec_trim_end(k, "-segbuy"@))
    } else if spec_ends_with(k, "-segsell"@) {
        (BspKeyTarget::SegSell, spec_trim_end(k, "-segsell"@))
    } else if spec_ends_with(k, "-seg"@) {
        (BspKeyTarget::Seg, spec_trim_end(k, "-seg"@))
    } else if spec_bsp_para(k) {
        (BspKeyTarget::Both, k)
    } else {
        (BspKeyTarget::Unknown, k)
    }
}

/// Takes every trailing copy of `s` off `k`.
pub fn trim_end(k: &str, s: &str) -> (r: String)
    ensures
        r@ == spec_trim_end(k@, s@),
    decreases k@.len(),
{
    let m = s.unicode_len();
    if m > 0 && str_ends_with(k, s) {
        let n = k.unicode_len();
        let head = k.substring_char(0, n - m);
        trim_end(head, s)
    } else {
        k.to_owned()
    }
}

/// Whether a text is one of the settings of one side's buy/sell points.
pub fn is_bsp_para(k: &str) -> (r: bool)
    ensures
        r == spec_bsp_para(k@),
{
    let names = [
        "divergence_rate",
        "min_zs_cnt",
        "bsp1_only_multibi_zs",
        "max_bs2_rate",
        "macd_algo",
        "bs1_peak",
        "bs_type",
        "bsp2_follow_1",
        "bsp3_follow_1",
        "bsp3_peak",
        "bsp2s_follow_2",
        "max_bsp2s_lv",
        "strict_bsp3",
    ];
    let key = k.to_owned();
    let mut i: usize = 0;
    while i < names.len()
        invariant
            key@ == k@,
            i <= 13,
            names@ == seq![
                "divergence_rate",
                "min_zs_cnt",
                "bsp1_only_multibi_zs",
                "max_bs2_rate",
                "macd_algo",
                "bs1_peak",
                "bs_type",
                "bsp2_follow_1",
                "bsp3_follow_1",
                "bsp3_peak",
                "bsp2s_follow_2",
                "max_bsp2s_lv",
                "strict_bsp3",
            ],
            forall|j: int| 0 <= j < i ==> k@ != (#[trigger] names@[j])@,
        decreases 13 - i,
    {
        if crate::strutil::str_is(&key, names[i]) {
            return true;
        }
        i = i + 1;
    }
    false
}

/// Where a settings key goes, as `spec_route_key` says.
pub fn route_bsp_key(k: &str) -> (r: (BspKeyTarget, String))
    ensures
        (r.0, r.1@) == spec_route_key(k@),
{
    if str_ends_with(k, "-buy") {
        (BspKeyTarget::Buy, trim_end(k, "-buy"))
    } else if str_ends_with(k, "-sell") {
        (BspKeyTarget::Sell, trim_end(k, "-sell"))
    } else if str_ends_with(k, "-segbuy") {
        (BspKeyTarget::SegBuy, trim_end(k, "-segbuy"))
    } else if str_ends_with(k, "-segsell") {
        (BspKeyTarget::SegSell, trim_end(k, "-segsell"))
    } else if str_ends_with(k, "-seg") {
        (BspKeyTarget::Seg, trim_end(k, "-seg"))
    } else if is_bsp_para(k) {
        (BspKeyTarget::Both, k.to_owned())
    } else {
        (BspKeyTarget::Unknown, k.to_owned())
    }
}

} // verus!

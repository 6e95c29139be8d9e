use vstd::prelude::*;
use crate::enums::FX_CHECK_METHOD;

verus! {

/// How strokes are found.
#[derive(Debug, Clone)]
pub struct CBiConfig {
    pub bi_algo: String,
    pub is_strict: bool,
    pub bi_fx_check: FX_CHECK_METHOD,
    pub gap_as_kl: bool,
    pub bi_end_is_peak: bool,
    pub bi_allow_sub_peak: bool,
}

impl CBiConfig {
    pub fn new(
        is_strict: bool,
        bi_fx_check: FX_CHECK_METHOD,
        gap_as_kl: bool,
        bi_end_is_peak: bool,
        bi_allow_sub_peak: bool,
    ) -> (r: Self)
        ensures
            r.bi_algo@ == "normal"@,
            r.is_strict == is_strict,
            r.bi_fx_check == bi_fx_check,
            r.gap_as_kl == gap_as_kl,
            r.bi_end_is_peak == bi_end_is_peak,
            r.bi_allow_sub_peak == bi_allow_sub_peak,
    {
        CBiConfig {
            bi_algo: String::from_str("normal"),
            is_strict,
            bi_fx_check,
            gap_as_kl,
            bi_end_is_peak,
            bi_allow_sub_peak,
        }
    }

    /// Strict strokes: strict fractal check, gaps are no K-lines, the end
    /// must be the extreme, sub-peaks allowed.
    pub fn default_strict() -> (r: Self)
        ensures
            r.bi_algo@ == "normal"@,
            r.bi_fx_check == FX_CHECK_METHOD::STRICT,
            !r.gap_as_kl,
            r.bi_end_is_peak,
            r.is_strict,
            r.bi_allow_sub_peak,
    {
        CBiConfig {
            bi_algo: String::from_str("normal"),
            bi_fx_check: FX_CHECK_METHOD::STRICT,
            gap_as_kl: false,
            bi_end_is_peak: true,
            is_strict: true,
            bi_allow_sub_peak: true,
        }
    }

    /// Loose strokes: loss fractal check, gaps count as K-lines, not strict,
    /// no sub-peaks.
    pub fn default_loss() -> (r: Self)
        ensures
            r.bi_algo@ == "normal"@,
            r.bi_fx_check == FX_CHECK_METHOD::LOSS,
            r.gap_as_kl,
            r.bi_end_is_peak,
            !r.is_strict,
            !r.bi_allow_sub_peak,
    {
        CBiConfig {
            bi_algo: String::from_str("normal"),
            bi_fx_check: FX_CHECK_METHOD::LOSS,
            gap_as_kl: true,
            bi_end_is_peak: true,
            is_strict: false,
            bi_allow_sub_peak: false,
        }
    }
}

impl Default for CBiConfig {
    fn default() -> (r: Self)
        ensures
            r.bi_algo@ == "normal"@,
            r.bi_fx_check == FX_CHECK_METHOD::LOSS,
            r.gap_as_kl,
            r.bi_end_is_peak,
            !r.is_strict,
            !r.bi_allow_sub_peak,
    {
        Self::default_loss()
    }
}

} // verus!

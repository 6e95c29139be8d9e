use vstd::prelude::*;
use crate::strutil::str_is;
use crate::enums::{ZsAlgo, ZsCombineMode};

verus! {

/// How pivots are found, as named settings: whether neighbouring pivots are
/// combined and how, whether one stroke may make a pivot, and the algorithm.
#[derive(Debug)]
pub struct CZSConfig {
    pub need_combine: bool,
    pub zs_combine_mode: String,
    pub one_bi_zs: bool,
    pub zs_algo: String,
}

impl CZSConfig {
    /// Each setting not given takes its default: combine, by "zs", no
    /// one-stroke pivots, "normal".
    pub fn new(
        need_combine: Option<bool>,
        zs_combine_mode: Option<String>,
        one_bi_zs: Option<bool>,
        zs_algo: Option<String>,
    ) -> (r: Self)
        ensures
            r.need_combine == (match need_combine {
                Some(b) => b,
                None => true,
            }),
            r.zs_combine_mode@ == (match zs_combine_mode {
                Some(s) => s@,
                None => "zs"@,
            }),
            r.one_bi_zs == (match one_bi_zs {
                Some(b) => b,
                None => false,
            }),
            r.zs_algo@ == (match zs_algo {
                Some(s) => s@,
                None => "normal"@,
            }),
    {
        CZSConfig {
            need_combine: match need_combine {
                Some(b) => b,
                None => true,
            },
            zs_combine_mode: match zs_combine_mode {
                Some(s) => s,
                None => "zs".to_owned(),
            },
            one_bi_zs: match one_bi_zs {
                Some(b) => b,
                None => false,
            },
            zs_algo: match zs_algo {
                Some(s) => s,
                None => "normal".to_owned(),
            },
        }
    }
}

/// The pivot combination named by a setting.
pub open spec fn spec_combine_mode_of(s: Seq<char>) -> Option<ZsCombineMode> {
    if s == "zs"@ {
        Some(ZsCombineMode::Zs)
    } else if s == "peak"@ {
        Some(ZsCombineMode::Peak)
    } else {
        None
    }
}

/// The pivot algorithm named by a setting.
pub open spec fn spec_zs_algo_of(s: Seq<char>) -> Option<ZsAlgo> {
    if s == "normal"@ {
        Some(ZsAlgo::Normal)
    } else if s == "over_seg"@ {
        Some(ZsAlgo::OverSeg)
    } else if s == "auto"@ {
        Some(ZsAlgo::Auto)
    } else {
        None
    }
}

impl CZSConfig {
    /// The settings as typed values; `None` when a name is unknown.
    pub fn typed(&self) -> (r: Option<CZsConfig>)
        ensures
            r is Some <==> (spec_combine_mode_of(self.zs_combine_mode@) is Some && spec_zs_algo_of(self.zs_algo@) is Some),
            r matches Some(c) ==> c == (CZsConfig {
                need_combine: self.need_combine,
                zs_combine_mode: spec_combine_mode_of(self.zs_combine_mode@)->0,
                one_bi_zs: self.one_bi_zs,
                zs_algo: spec_zs_algo_of(self.zs_algo@)->0,
            }),
    {
        let mode = if str_is(&self.zs_combine_mode, "zs") {
            ZsCombineMode::Zs
        } else if str_is(&self.zs_combine_mode, "peak") {
            ZsCombineMode::Peak
        } else {
            return None;
        };
        let algo = if str_is(&self.zs_algo, "normal") {
            ZsAlgo::Normal
        } else if str_is(&self.zs_algo, "over_seg") {
            ZsAlgo::OverSeg
        } else if str_is(&self.zs_algo, "auto") {
            ZsAlgo::Auto
        } else {
            return None;
        };
        Some(CZsConfig { need_combine: self.need_combine, zs_combine_mode: mode, one_bi_zs: self.one_bi_zs, zs_algo: algo })
    }
}

impl Default for CZSConfig {
    fn default() -> (r: Self)
        ensures
            r.need_combine,
            r.zs_combine_mode@ == "zs"@,
            !r.one_bi_zs,
            r.zs_algo@ == "normal"@,
    {
        CZSConfig::new(None, None, None, None)
    }
}

/// How pivots are found, as typed settings.
#[derive(Debug, Clone, Copy, PartialEq, Eq, Structural)]
pub struct CZsConfig {
    pub need_combine: bool,
    pub zs_combine_mode: ZsCombineMode,
    pub one_bi_zs: bool,
    pub zs_algo: ZsAlgo,
}

impl Default for CZsConfig {
    fn default() -> (r: Self)
        ensures
            r == (CZsConfig {
                need_combine: true,
                zs_combine_mode: ZsCombineMode::Zs,
                one_bi_zs: false,
                zs_algo: ZsAlgo::Normal,
            }),
    {
        CZsConfig { need_combine: true, zs_combine_mode: ZsCombineMode::Zs, one_bi_zs: false, zs_algo: ZsAlgo::Normal }
    }
}

} // verus!

use vstd::prelude::*;
use crate::enums::FX_CHECK_METHOD;
use crate::exception::{CChanException, ErrCode};
use crate::strutil::str_is;

verus! {

/// Stroke settings given by name, each optional.
#[derive(Debug)]
pub struct CBiConfig {
    pub bi_algo: String,
    pub is_strict: bool,
    pub bi_fx_check: FX_CHECK_METHOD,
    pub gap_as_kl: bool,
    pub bi_end_is_peak: bool,
    pub bi_allow_sub_peak: bool,
}

/// The fractal check a name stands for.
pub open spec fn spec_fx_check_of(s: Seq<char>) -> Option<FX_CHECK_METHOD> {
    if s == "strict"@ {
        Some(FX_CHECK_METHOD::STRICT)
    } else if s == "loss"@ {
        Some(FX_CHECK_METHOD::LOSS)
    } else if s == "half"@ {
        Some(FX_CHECK_METHOD::HALF)
    } else if s == "totally"@ {
        Some(FX_CHECK_METHOD::TOTALLY)
    } else {
        None
    }
}

pub open spec fn opt_bool(b: Option<bool>, d: bool) -> bool {
    match b {
        Some(x) => x,
        None => d,
    }
}

impl CBiConfig {
    /// Settings not given take their defaults: "normal", strict, "half",
    /// gaps count as K-lines, the end must be the peak, sub-peaks allowed.
    /// A fractal check of another name is refused.
    pub fn new(
        bi_algo: Option<String>,
        is_strict: Option<bool>,
        bi_fx_check: Option<String>,
        gap_as_kl: Option<bool>,
        bi_end_is_peak: Option<bool>,
        bi_allow_sub_peak: Option<bool>,
    ) -> (r: Result<Self, CChanException>)
        ensures
            ({
                let check = match bi_fx_check {
                    Some(s) => s@,
                    None => "half"@,
                };
                &&& r is Ok <==> spec_fx_check_of(check) is Some
                &&& r matches Err(e) ==> e.errcode == ErrCode::ParaError
                &&& r matches Err(e) ==> e.msg@ == "unknown bi_fx_check="@ + check
                &&& r matches Ok(c) ==> {
                    &&& c.bi_fx_check == spec_fx_check_of(check)->0
                    &&& c.bi_algo@ == (match bi_algo {
                        Some(s) => s@,
                        None => "normal"@,
                    })
                    &&& c.is_strict == opt_bool(is_strict, true)
                    &&& c.gap_as_kl == opt_bool(gap_as_kl, true)
                    &&& c.bi_end_is_peak == opt_bool(bi_end_is_peak, true)
                    &&& c.bi_allow_sub_peak == opt_bool(bi_allow_sub_peak, true)
                }
            }),
    {
        let check = match bi_fx_check {
            Some(s) => s,
            None => "half".to_owned(),
        };
        proof {
            reveal_strlit("strict");
            reveal_strlit("loss");
            reveal_strlit("half");
            reveal_strlit("totally");
        }
        let m = if str_is(&check, "strict") {
            FX_CHECK_METHOD::STRICT
        } else if str_is(&check, "loss") {
            FX_CHECK_METHOD::LOSS
        } else if str_is(&check, "half") {
            FX_CHECK_METHOD::HALF
        } else if str_is(&check, "totally") {
            FX_CHECK_METHOD::TOTALLY
        } else {
            return Err(CChanException::new(fx_check_message(&check), ErrCode::ParaError));
        };
        Ok(CBiConfig {
            bi_algo: match bi_algo {
                Some(s) => s,
                None => "normal".to_owned(),
            },
            is_strict: match is_strict {
                Some(x) => x,
                None => true,
            },
            bi_fx_check: m,
            gap_as_kl: match gap_as_kl {
                Some(x) => x,
                None => true,
            },
            bi_end_is_peak: match bi_end_is_peak {
                Some(x) => x,
                None => true,
            },
            bi_allow_sub_peak: match bi_allow_sub_peak {
                Some(x) => x,
                None => true,
            },
        })
    }
}

/// The message for an unknown fractal check.
fn fx_check_message(check: &String) -> (r: String)
    ensures
        r@ == "unknown bi_fx_check="@ + check@,
{
    let mut s = "unknown bi_fx_check=".to_owned();
    s.append(check.as_str());
    s
}

} // verus!

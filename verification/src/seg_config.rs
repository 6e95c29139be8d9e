use vstd::prelude::*;
use crate::enums::LEFT_SEG_METHOD;
use crate::exception::{CChanException, ErrCode};
use crate::strutil::str_is;

verus! {

/// How segments are found, and how the strokes left after the last sure
/// segment are made into segments.
#[derive(Debug)]
pub struct CSegConfig {
    pub seg_algo: String,
    pub left_method: LEFT_SEG_METHOD,
}

impl CSegConfig {
    /// `left_method` must read "all" or "peak".
    pub fn new(seg_algo: String, left_method: String) -> (r: Result<Self, CChanException>)
        ensures
            r is Ok <==> (left_method@ == "all"@ || left_method@ == "peak"@),
            r matches Ok(c) ==> c.seg_algo@ == seg_algo@ && c.left_method == (if left_method@ == "all"@ {
                LEFT_SEG_METHOD::ALL
            } else {
                LEFT_SEG_METHOD::PEAK
            }),
            r matches Err(e) ==> e.errcode == ErrCode::ParaError,
            r matches Err(e) ==> e.msg@ == "unknown left_seg_method="@ + left_method@,
    {
        let m = if str_is(&left_method, "all") {
            LEFT_SEG_METHOD::ALL
        } else if str_is(&left_method, "peak") {
            LEFT_SEG_METHOD::PEAK
        } else {
            proof {
                reveal_strlit("all");
                reveal_strlit("peak");
            }
            return Err(CChanException::new(left_method_message(&left_method), ErrCode::ParaError));
        };
        proof {
            reveal_strlit("all");
            reveal_strlit("peak");
        }
        Ok(CSegConfig { seg_algo, left_method: m })
    }

    /// The segment configuration as a whole value, for a second list.
    pub fn copy(&self) -> (r: Self)
        ensures
            r.seg_algo@ == self.seg_algo@,
            r.left_method == self.left_method,
    {
        CSegConfig { seg_algo: self.seg_algo.clone(), left_method: self.left_method }
    }
}

impl Default for CSegConfig {
    fn default() -> (r: Self)
        ensures
            r.seg_algo@ == "chan"@,
            r.left_method == LEFT_SEG_METHOD::PEAK,
    {
        CSegConfig { seg_algo: "chan".to_owned(), left_method: LEFT_SEG_METHOD::PEAK }
    }
}

/// Formats the message for an unknown way of treating the strokes left over.
fn left_method_message(left_method: &String) -> (r: String)
    ensures
        r@ == "unknown left_seg_method="@ + left_method@,
{
    let mut s = "unknown left_seg_method=".to_owned();
    s.append(left_method.as_str());
    s
}

} // verus!

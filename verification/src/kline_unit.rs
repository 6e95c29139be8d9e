use vstd::prelude::*;
use crate::exception::{CChanException, ErrCode};
use crate::text::{int_text, spec_int_text};

verus! {

/// One raw K-line (bar): its index in the list, its time and its four prices.
/// Prices are integers whose order is the order of the market prices.
#[derive(Debug, Clone, Copy, PartialEq, Eq, Structural)]
pub struct CKLineUnit {
    pub idx: usize,
    pub time: i64,
    pub open: i64,
    pub high: i64,
    pub low: i64,
    pub close: i64,
}

pub open spec fn min4(a: int, b: int, c: int, d: int) -> int {
    let ab = if a <= b { a } else { b };
    let cd = if c <= d { c } else { d };
    if ab <= cd { ab } else { cd }
}

pub open spec fn max4(a: int, b: int, c: int, d: int) -> int {
    let ab = if a >= b { a } else { b };
    let cd = if c >= d { c } else { d };
    if ab >= cd { ab } else { cd }
}

/// The prices of a bar are consistent: low is the lowest, high the highest.
pub open spec fn unit_prices_ok(low: int, open: int, high: int, close: int) -> bool {
    low <= open && low <= high && low <= close && high >= open && high >= close
}

impl CKLineUnit {
    pub open spec fn valid(self) -> bool {
        unit_prices_ok(self.low as int, self.open as int, self.high as int, self.close as int)
    }

    /// Builds a bar and checks its prices. With `autofix`, a low above one of
    /// the other prices becomes the lowest of them and a high below one becomes
    /// the highest; without it such a bar is refused.
    pub fn new(
        time: i64,
        idx: usize,
        open: i64,
        high: i64,
        low: i64,
        close: i64,
        autofix: bool,
    ) -> (r: Result<Self, CChanException>)
        ensures
            r is Ok <==> (autofix || unit_prices_ok(low as int, open as int, high as int, close as int)),
            r matches Ok(u) ==> {
                &&& u.valid()
                &&& u.idx == idx && u.time == time && u.open == open && u.close == close
                &&& u.low == min4(low as int, open as int, high as int, close as int)
                &&& u.high == max4(u.low as int, open as int, high as int, close as int)
            },
            r matches Err(e) ==> e.errcode == ErrCode::KlDataInvalid,
    {
        let mut unit = CKLineUnit { idx, time, open, high, low, close };
        match unit.check(autofix) {
            Ok(()) => Ok(unit),
            Err(e) => Err(e),
        }
    }

    /// Checks that low and high are the extremes of the four prices, fixing
    /// them with `autofix`, refusing the bar otherwise.
    pub fn check(&mut self, autofix: bool) -> (r: Result<(), CChanException>)
        ensures
            final(self).idx == old(self).idx,
            final(self).time == old(self).time,
            final(self).open == old(self).open,
            final(self).close == old(self).close,
            r is Ok <==> (autofix || old(self).valid()),
            r is Ok ==> final(self).valid(),
            r is Ok ==> final(self).low == min4(old(self).low as int, old(self).open as int, old(self).high as int, old(self).close as int),
            r is Ok ==> final(self).high == max4(final(self).low as int, old(self).open as int, old(self).high as int, old(self).close as int),
            r matches Err(e) ==> e.errcode == ErrCode::KlDataInvalid,
            !autofix ==> *final(self) == *old(self),
            r matches Err(e) ==> e.msg@ == spec_price_error_text(
                *old(self),
                old(self).low > min4(old(self).low as int, old(self).open as int, old(self).high as int, old(self).close as int),
            ),
    {
        let m1 = if self.low <= self.open { self.low } else { self.open };
        let m2 = if self.high <= self.close { self.high } else { self.close };
        let min_price = if m1 <= m2 { m1 } else { m2 };
        if self.low > min_price {
            if autofix {
                self.low = min_price;
            } else {
                let msg = price_error_message(self.time, "low", self.low, "min", self.low, self.open, self.high, self.close);
                return Err(CChanException::new(msg, ErrCode::KlDataInvalid));
            }
        }
        let x1 = if self.low >= self.open { self.low } else { self.open };
        let x2 = if self.high >= self.close { self.high } else { self.close };
        let max_price = if x1 >= x2 { x1 } else { x2 };
        if self.high < max_price {
            if autofix {
                self.high = max_price;
            } else {
                let msg = price_error_message(self.time, "high", self.high, "max", self.low, self.open, self.high, self.close);
                return Err(CChanException::new(msg, ErrCode::KlDataInvalid));
            }
        }
        Ok(())
    }

    pub fn low(&self) -> (r: i64)
        ensures
            r == self.low,
    {
        self.low
    }

    pub fn high(&self) -> (r: i64)
        ensures
            r == self.high,
    {
        self.high
    }
}

/// The message for bar `u` whose low (`is_low`) or high is not the
/// extreme of its prices.
pub open spec fn spec_price_error_text(u: CKLineUnit, is_low: bool) -> Seq<char> {
    let (name, value, bound) = if is_low { ("low"@, u.low, "min"@) } else { ("high"@, u.high, "max"@) };
    spec_int_text(u.time as int) + " "@ + name + " price="@ + spec_int_text(value as int) + " is not "@ + bound
        + " of [low="@ + spec_int_text(u.low as int) + ", open="@ + spec_int_text(u.open as int) + ", high="@
        + spec_int_text(u.high as int) + ", close="@ + spec_int_text(u.close as int) + "]"@
}

/// Describes a bar whose low (or high) is not the extreme of its prices.
fn price_error_message(
    time: i64,
    name: &str,
    value: i64,
    bound: &str,
    low: i64,
    open: i64,
    high: i64,
    close: i64,
) -> (r: String)
    ensures
        r@ == spec_int_text(time as int) + " "@ + name@ + " price="@ + spec_int_text(value as int) + " is not "@
            + bound@ + " of [low="@ + spec_int_text(low as int) + ", open="@ + spec_int_text(open as int)
            + ", high="@ + spec_int_text(high as int) + ", close="@ + spec_int_text(close as int) + "]"@,
{
    let mut s = int_text(time as i128);
    s.append(" ");
    s.append(name);
    s.append(" price=");
    let t0 = int_text(value as i128);
    s.append(t0.as_str());
    s.append(" is not ");
    s.append(bound);
    s.append(" of [low=");
    let t1 = int_text(low as i128);
    s.append(t1.as_str());
    s.append(", open=");
    let t2 = int_text(open as i128);
    s.append(t2.as_str());
    s.append(", high=");
    let t3 = int_text(high as i128);
    s.append(t3.as_str());
    s.append(", close=");
    let t4 = int_text(close as i128);
    s.append(t4.as_str());
    s.append("]");
    s
}

} // verus!

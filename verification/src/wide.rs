//! Sums that outgrow 128 bits.

use vstd::prelude::*;

verus! {

/// The number of values a `u128` has: the weight of [`Wide::high`].
pub open spec fn low_range() -> nat {
    (u128::MAX + 1) as nat
}

/// A natural number below 2^192, kept as a 128-bit low part and a count of how
/// often that part has run over.
#[derive(Clone, Copy, Debug, PartialEq, Eq, Structural)]
pub struct Wide {
    pub high: u64,
    pub low: u128,
}

impl View for Wide {
    type V = nat;

    /// The number that the two parts stand for.
    open spec fn view(&self) -> nat {
        self.high as nat * low_range() + self.low as nat
    }
}

impl Wide {
    /// The number zero.
    pub fn zero() -> (w: Wide)
        ensures
            w@ == 0,
            w.high == 0,
    {
        Wide { high: 0, low: 0 }
    }

    /// Whether the number is zero.
    pub fn is_zero(&self) -> (zero: bool)
        ensures
            zero == (self@ == 0),
    {
        proof {
            assert(self.high > 0 ==> self.high as nat * low_range() >= low_range())
                by (nonlinear_arith);
        }
        self.high == 0 && self.low == 0
    }

    /// The sum of the number and `term`. Each call raises the high part by one
    /// at most, so a sum of fewer than 2^64 terms always fits.
    pub fn plus(self, term: u128) -> (sum: Wide)
        requires
            self.high < u64::MAX,
        ensures
            sum@ == self@ + term,
            self.high <= sum.high <= self.high + 1,
    {
        let room: u128 = u128::MAX - self.low;
        if term > room {
            proof {
                assert((self.high + 1) as nat * low_range() == self.high as nat * low_range()
                    + low_range()) by (nonlinear_arith);
            }
            Wide { high: self.high + 1, low: term - room - 1 }
        } else {
            Wide { high: self.high, low: self.low + term }
        }
    }
}

/// Two wide numbers are the same number only if their parts agree.
pub proof fn lemma_wide_view_injective(x: Wide, y: Wide)
    requires
        x@ == y@,
    ensures
        x == y,
{
    let r = low_range() as int;
    let (xh, yh) = (x.high as int, y.high as int);
    assert(xh < yh ==> xh * r + r <= yh * r) by (nonlinear_arith)
        requires
            r > 0,
    ;
    assert(yh < xh ==> yh * r + r <= xh * r) by (nonlinear_arith)
        requires
            r > 0,
    ;
}

} // verus!

use vstd::arithmetic::div_mod::{
    lemma_fundamental_div_mod, lemma_fundamental_div_mod_converse, lemma_mod_pos_bound,
};
use vstd::prelude::*;

verus! {

/// A rational number as a pair of mathematical integers `(numerator, denominator)`.
pub type Frac = (int, int);

/// `a` and `b` denote the same number (both denominators positive).
pub open spec fn same_value(a: Frac, b: Frac) -> bool {
    a.0 * b.1 == b.0 * a.1
}

/// `a` is strictly smaller than `b` (both denominators positive).
pub open spec fn less_than(a: Frac, b: Frac) -> bool {
    a.0 * b.1 < b.0 * a.1
}

/// `a - b`, without reduction.
pub open spec fn difference(a: Frac, b: Frac) -> Frac {
    (a.0 * b.1 - b.0 * a.1, a.1 * b.1)
}

/// The largest integer not above `a`.
pub open spec fn floor_of(a: Frac) -> int {
    a.0 / a.1
}

/// The smallest integer not below `a`.
pub open spec fn ceil_of(a: Frac) -> int {
    -((-a.0) / a.1)
}

/// Numerator and denominator both stay within `bound` in magnitude, the denominator positive.
pub open spec fn within(a: Frac, bound: int) -> bool {
    -bound <= a.0 <= bound && 0 < a.1 <= bound
}

/// An exact rational number `num / den`. Every function of the library keeps `den` positive.
#[derive(Clone, Copy, Debug)]
pub struct Ratio {
    pub num: i128,
    pub den: i128,
}

impl View for Ratio {
    type V = Frac;

    open spec fn view(&self) -> Frac {
        (self.num as int, self.den as int)
    }
}

/// Floor division by a positive divisor; `/` on `i128` rounds towards zero instead.
pub fn floor_div(n: i128, d: i128) -> (r: i128)
    requires
        d > 0,
    ensures
        r == n / d,
        n >= 0 ==> 0 <= r <= n,
        n < 0 ==> n <= r < 0,
{
    if n >= 0 {
        n / d
    } else {
        let m: i128 = -(n + 1);
        let q: i128 = m / d;
        proof {
            let rem = (m as int) % (d as int);
            lemma_fundamental_div_mod(m as int, d as int);
            lemma_mod_pos_bound(m as int, d as int);
            assert(n == (-q - 1) * d + (d - rem - 1)) by (nonlinear_arith)
                requires
                    m == d * q + rem,
                    m == -(n + 1),
            ;
            lemma_fundamental_div_mod_converse(n as int, d as int, -q - 1, d - rem - 1);
            assert(q <= m) by (nonlinear_arith)
                requires
                    m == d * q + rem,
                    d > 0,
                    rem >= 0,
                    m >= 0,
            ;
        }
        -q - 1
    }
}

impl Ratio {
    /// The integer `v` as a ratio over one.
    pub fn from_int(v: i64) -> (r: Ratio)
        ensures
            r@ == (v as int, 1int),
    {
        Ratio { num: v as i128, den: 1 }
    }

    /// The largest integer not above this number.
    pub fn floor(&self) -> (r: i128)
        requires
            self.den > 0,
        ensures
            r == floor_of(self@),
    {
        floor_div(self.num, self.den)
    }

    /// The smallest integer not below this number.
    pub fn ceil(&self) -> (r: i128)
        requires
            self.den > 0,
            self.num > i128::MIN,
        ensures
            r == ceil_of(self@),
    {
        -floor_div(-self.num, self.den)
    }

    /// Whether two ratios denote the same number, whatever their denominators.
    pub fn same_value_as(&self, other: &Ratio) -> (r: bool)
        requires
            fits_cross(self@, other@),
        ensures
            r == same_value(self@, other@),
    {
        self.num * other.den == other.num * self.den
    }

    /// `self - other`, over the product of the two denominators.
    pub fn minus(&self, other: &Ratio) -> (r: Ratio)
        requires
            fits_cross(self@, other@),
        ensures
            r@ == difference(self@, other@),
    {
        Ratio { num: self.num * other.den - other.num * self.den, den: self.den * other.den }
    }
}

/// The cross products that compare or subtract `a` and `b` fit in an `i128` with room to spare.
pub open spec fn fits_cross(a: Frac, b: Frac) -> bool {
    &&& a.1 > 0
    &&& b.1 > 0
    &&& -0x2000_0000_0000_0000_0000_0000_0000_0000 <= a.0 * b.1 <= 0x2000_0000_0000_0000_0000_0000_0000_0000
    &&& -0x2000_0000_0000_0000_0000_0000_0000_0000 <= b.0 * a.1 <= 0x2000_0000_0000_0000_0000_0000_0000_0000
    &&& a.1 * b.1 <= 0x2000_0000_0000_0000_0000_0000_0000_0000
}

/// Two fractions whose parts stay within `ba` and `bb` can be compared and subtracted when
/// `ba * bb` is small enough.
pub proof fn lemma_fits_cross(a: Frac, b: Frac, ba: int, bb: int)
    requires
        within(a, ba),
        within(b, bb),
        ba * bb <= 0x2000_0000_0000_0000_0000_0000_0000_0000,
    ensures
        fits_cross(a, b),
{
    assert(-(ba * bb) <= a.0 * b.1 <= ba * bb) by (nonlinear_arith)
        requires
            -ba <= a.0 <= ba,
            0 < b.1 <= bb,
    ;
    assert(-(ba * bb) <= b.0 * a.1 <= ba * bb) by (nonlinear_arith)
        requires
            -bb <= b.0 <= bb,
            0 < a.1 <= ba,
    ;
    assert(a.1 * b.1 <= ba * bb) by (nonlinear_arith)
        requires
            0 < a.1 <= ba,
            0 < b.1 <= bb,
    ;
}

} // verus!

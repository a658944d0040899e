use vstd::arithmetic::div_mod::{lemma_fundamental_div_mod, lemma_mod_pos_bound};
use vstd::prelude::*;

use crate::conversion::{
    affine_within, apply, conversion, convert, converted, inverse_pair, lemma_conversion_shape,
    Affine,
};
use crate::difficulty::{
    high_micros, lemma_delta_floor, lemma_range_facts, level_micros, low_micros, MICROS,
};
use crate::ratio::{ceil_of, floor_of, less_than, Ratio};
use crate::units::{ordered_pair, rank, same_pair, Unit};

verus! {

/// Draws a random value of `T` from rand's standard distribution: any `u32`, or a fair coin
/// for `bool`. Nothing is promised of the value drawn.
pub assume_specification<T>[ rand::random::<T> ]() -> (r: T)
    where
        rand::distributions::Standard: rand::distributions::Distribution<T>,
;

/// One side of a challenge: a value in a unit, and the same value expressed in the unit of
/// the other side.
#[derive(Clone, Copy, Debug)]
pub struct Choice {
    pub unit: Unit,
    pub value: i64,
    pub equivalent: Ratio,
}

/// The side that the player picks.
#[derive(Clone, Copy, Debug, PartialEq, Eq, Structural)]
pub enum ChoiceSelection {
    Left,
    Right,
}

/// Two values in two units of one quantity; the player must pick the larger.
#[derive(Clone, Copy, Debug)]
pub struct Challenge {
    pub left_choice: Choice,
    pub right_choice: Choice,
}

impl Choice {
    /// Magnitudes stay small enough to compare a value against an equivalent.
    pub open spec fn wf(self) -> bool {
        &&& -0x1_0000_0000_0000 <= self.value <= 0x1_0000_0000_0000
        &&& 0 < self.equivalent.den <= 0x100_0000_0000_0000_0000
    }

    /// This choice shows `value` in `unit`, with its exact equivalent in `other`.
    pub open spec fn shows(self, unit: Unit, value: int, other: Unit) -> bool {
        &&& self.unit == unit
        &&& self.value == value
        &&& Some(self.equivalent@) == converted((value, 1), unit, other)
    }
}

/// Whether `value` is strictly larger than the number `equivalent`.
pub open spec fn exceeds(value: i64, equivalent: Ratio) -> bool {
    less_than(equivalent@, (value as int, 1))
}

impl Challenge {
    /// Both sides are well formed.
    pub open spec fn wf(self) -> bool {
        self.left_choice.wf() && self.right_choice.wf()
    }

    /// Picking `selection` is right: its value exceeds the other side's value expressed in
    /// its unit.
    pub open spec fn correct(self, selection: ChoiceSelection) -> bool {
        match selection {
            ChoiceSelection::Left => exceeds(self.left_choice.value, self.right_choice.equivalent),
            ChoiceSelection::Right => exceeds(self.right_choice.value, self.left_choice.equivalent),
        }
    }

    /// Exactly one side is correct.
    pub open spec fn exactly_one_correct(self) -> bool {
        self.correct(ChoiceSelection::Left) != self.correct(ChoiceSelection::Right)
    }

    /// The pair of the two sides' units, finer first.
    pub open spec fn pair(self) -> (Unit, Unit) {
        ordered_pair(self.left_choice.unit, self.right_choice.unit)
    }

    /// This challenge is the one generated for `pair` at `level` from the draws `fraction`
    /// (of 2^32), `raise` and `coarse_left`.
    pub open spec fn generated_from(
        self,
        pair: (Unit, Unit),
        level: nat,
        fraction: int,
        raise: bool,
        coarse_left: bool,
    ) -> bool {
        let (coarse, fine) = if coarse_left {
            (self.left_choice, self.right_choice)
        } else {
            (self.right_choice, self.left_choice)
        };
        &&& coarse.shows(
            coarser(pair),
            coarse_value(pair, level, fraction, raise),
            finer(pair),
        )
        &&& fine.shows(finer(pair), fine_value(pair, level, fraction, raise), coarser(pair))
    }
}

/// Two different units that convert into one another.
pub open spec fn convertible_pair(pair: (Unit, Unit)) -> bool {
    pair.0 != pair.1 && conversion(pair.0, pair.1).is_some()
}

/// The coarser unit of a pair: its values span the smaller numbers.
pub open spec fn coarser(pair: (Unit, Unit)) -> Unit {
    if rank(pair.0) < rank(pair.1) {
        pair.1
    } else {
        pair.0
    }
}

/// The finer unit of a pair.
pub open spec fn finer(pair: (Unit, Unit)) -> Unit {
    if rank(pair.0) < rank(pair.1) {
        pair.0
    } else {
        pair.1
    }
}

/// The midpoint in millionths of `u`: `fraction / 2^32` of the way through the window that
/// keeps `midpoint +- delta` inside the unit's range.
pub open spec fn midpoint_micros(u: Unit, level: nat, fraction: int) -> int {
    let delta = level_micros(u, level);
    let lo = low_micros(u) + delta;
    let hi = high_micros(u) - delta;
    lo + (hi - lo) * fraction / 0x1_0000_0000
}

/// The coarser side's value: `midpoint + delta` rounded up when `raise`, else
/// `midpoint - delta` rounded down.
pub open spec fn coarse_value(pair: (Unit, Unit), level: nat, fraction: int, raise: bool) -> int {
    let u = coarser(pair);
    let delta = level_micros(u, level);
    let mid = midpoint_micros(u, level, fraction);
    if raise {
        ceil_of((mid + delta, MICROS as int))
    } else {
        floor_of((mid - delta, MICROS as int))
    }
}

/// The finer side's value: the other end of the gap converted to the finer unit, rounded
/// down when `raise`, else rounded up.
pub open spec fn fine_value(pair: (Unit, Unit), level: nat, fraction: int, raise: bool) -> int {
    let u = coarser(pair);
    let delta = level_micros(u, level);
    let mid = midpoint_micros(u, level, fraction);
    if raise {
        floor_of(converted((mid - delta, MICROS as int), u, finer(pair)).unwrap())
    } else {
        ceil_of(converted((mid + delta, MICROS as int), u, finer(pair)).unwrap())
    }
}

proof fn lemma_floor_bounds(n: int, d: int)
    requires
        d > 0,
    ensures
        floor_of((n, d)) * d <= n < floor_of((n, d)) * d + d,
{
    lemma_fundamental_div_mod(n, d);
    lemma_mod_pos_bound_any(n, d);
    assert(floor_of((n, d)) * d == d * (n / d)) by (nonlinear_arith);
}

proof fn lemma_mod_pos_bound_any(n: int, d: int)
    requires
        d > 0,
    ensures
        0 <= n % d < d,
{
    lemma_fundamental_div_mod(n, d);
    if n >= 0 {
        lemma_mod_pos_bound(n, d);
    }
}

proof fn lemma_ceil_bounds(n: int, d: int)
    requires
        d > 0,
    ensures
        ceil_of((n, d)) * d - d < n <= ceil_of((n, d)) * d,
{
    lemma_floor_bounds(-n, d);
    assert(ceil_of((n, d)) == -floor_of((-n, d)));
    assert(ceil_of((n, d)) * d == -(floor_of((-n, d)) * d)) by (nonlinear_arith)
        requires
            ceil_of((n, d)) == -floor_of((-n, d)),
    ;
}

/// Multiplying a bound in the finer unit by the inverse conversion's multiplier gives one in
/// the coarser unit, scaled by `c.2`.
proof fn lemma_transfer(c: Affine, e: Affine, sv: int, s: int, m: int)
    requires
        inverse_pair(c, e),
    ensures
        e.0 * (sv * (c.2 * s)) == c.2 * ((e.0 * sv + e.1) * s) - c.2 * (e.1 * s),
        e.0 * (c.0 * m + c.1 * s) == c.2 * (e.2 * m) - c.2 * (e.1 * s),
{
    assert(e.0 * (sv * (c.2 * s)) == c.2 * ((e.0 * sv) * s)) by (nonlinear_arith);
    assert(c.2 * ((e.0 * sv + e.1) * s) == c.2 * ((e.0 * sv) * s) + c.2 * (e.1 * s)) by (nonlinear_arith);
    assert(e.0 * (c.0 * m + c.1 * s) == (e.0 * c.0) * m + (e.0 * c.1) * s) by (nonlinear_arith);
    assert((e.2 * c.2) * m == c.2 * (e.2 * m)) by (nonlinear_arith);
    assert((e.1 * c.2) * s == c.2 * (e.1 * s)) by (nonlinear_arith);
    assert(e.0 * c.1 == -(e.1 * c.2));
    assert((e.0 * c.1) * s == -((e.1 * c.2) * s)) by (nonlinear_arith)
        requires
            e.0 * c.1 == -(e.1 * c.2),
    ;
}

/// When the coarser value is raised: the coarser side is correct, the finer side is not.
proof fn lemma_raised_gap(c: Affine, e: Affine, lo: int, hi: int, s: int, bv: int, sv: int)
    requires
        affine_within(c, 0x4000_0000),
        affine_within(e, 0x4000_0000),
        inverse_pair(c, e),
        s > 0,
        lo < hi,
        hi <= bv * s,
        sv * (c.2 * s) <= c.0 * lo + c.1 * s,
    ensures
        e.0 * sv + e.1 < bv * e.2,
        c.0 * bv + c.1 > sv * c.2,
{
    assert(c.0 * lo < c.0 * hi) by (nonlinear_arith)
        requires
            c.0 > 0,
            lo < hi,
    ;
    assert(c.0 * hi <= c.0 * (bv * s)) by (nonlinear_arith)
        requires
            c.0 > 0,
            hi <= bv * s,
    ;
    assert((sv * c.2) * s < (c.0 * bv + c.1) * s) by (nonlinear_arith)
        requires
            sv * (c.2 * s) <= c.0 * lo + c.1 * s,
            c.0 * lo < c.0 * hi,
            c.0 * hi <= c.0 * (bv * s),
    ;
    assert(sv * c.2 < c.0 * bv + c.1) by (nonlinear_arith)
        requires
            (sv * c.2) * s < (c.0 * bv + c.1) * s,
            s > 0,
    ;
    assert(e.0 * (sv * (c.2 * s)) <= e.0 * (c.0 * lo + c.1 * s)) by (nonlinear_arith)
        requires
            e.0 > 0,
            sv * (c.2 * s) <= c.0 * lo + c.1 * s,
    ;
    lemma_transfer(c, e, sv, s, lo);
    assert(c.2 * ((e.0 * sv + e.1) * s) <= c.2 * (e.2 * lo));
    assert((e.0 * sv + e.1) * s <= e.2 * lo) by (nonlinear_arith)
        requires
            c.2 * ((e.0 * sv + e.1) * s) <= c.2 * (e.2 * lo),
            c.2 > 0,
    ;
    assert(e.2 * lo < e.2 * (bv * s)) by (nonlinear_arith)
        requires
            e.2 > 0,
            lo < hi,
            hi <= bv * s,
    ;
    assert(e.0 * sv + e.1 < bv * e.2) by (nonlinear_arith)
        requires
            (e.0 * sv + e.1) * s <= e.2 * lo,
            e.2 * lo < e.2 * (bv * s),
            s > 0,
    ;
}

/// When the coarser value is lowered: the finer side is correct, the coarser side is not.
proof fn lemma_lowered_gap(c: Affine, e: Affine, lo: int, hi: int, s: int, bv: int, sv: int)
    requires
        affine_within(c, 0x4000_0000),
        affine_within(e, 0x4000_0000),
        inverse_pair(c, e),
        s > 0,
        lo < hi,
        bv * s <= lo,
        c.0 * hi + c.1 * s <= sv * (c.2 * s),
    ensures
        e.0 * sv + e.1 > bv * e.2,
        c.0 * bv + c.1 < sv * c.2,
{
    assert(c.0 * (bv * s) <= c.0 * lo) by (nonlinear_arith)
        requires
            c.0 > 0,
            bv * s <= lo,
    ;
    assert(c.0 * lo < c.0 * hi) by (nonlinear_arith)
        requires
            c.0 > 0,
            lo < hi,
    ;
    assert((c.0 * bv + c.1) * s < (sv * c.2) * s) by (nonlinear_arith)
        requires
            c.0 * hi + c.1 * s <= sv * (c.2 * s),
            c.0 * (bv * s) <= c.0 * lo,
            c.0 * lo < c.0 * hi,
    ;
    assert(c.0 * bv + c.1 < sv * c.2) by (nonlinear_arith)
        requires
            (c.0 * bv + c.1) * s < (sv * c.2) * s,
            s > 0,
    ;
    assert(e.0 * (c.0 * hi + c.1 * s) <= e.0 * (sv * (c.2 * s))) by (nonlinear_arith)
        requires
            e.0 > 0,
            c.0 * hi + c.1 * s <= sv * (c.2 * s),
    ;
    lemma_transfer(c, e, sv, s, hi);
    assert(c.2 * (e.2 * hi) <= c.2 * ((e.0 * sv + e.1) * s));
    assert(e.2 * hi <= (e.0 * sv + e.1) * s) by (nonlinear_arith)
        requires
            c.2 * (e.2 * hi) <= c.2 * ((e.0 * sv + e.1) * s),
            c.2 > 0,
    ;
    assert(e.2 * (bv * s) < e.2 * hi) by (nonlinear_arith)
        requires
            e.2 > 0,
            lo < hi,
            bv * s <= lo,
    ;
    assert(e.0 * sv + e.1 > bv * e.2) by (nonlinear_arith)
        requires
            e.2 * hi <= (e.0 * sv + e.1) * s,
            e.2 * (bv * s) < e.2 * hi,
            s > 0,
    ;
}

/// A quotient rounded either way stays within `k` when the numerator is within `k` times the
/// divisor.
proof fn lemma_rounded_within(n: int, d: int, k: int)
    requires
        d > 0,
        k >= 0,
        -(k * d) <= n <= k * d,
    ensures
        -k <= floor_of((n, d)) <= k,
        -k <= ceil_of((n, d)) <= k,
{
    lemma_floor_bounds(n, d);
    lemma_ceil_bounds(n, d);
    let f = floor_of((n, d));
    let c = ceil_of((n, d));
    assert(-k <= f <= k) by (nonlinear_arith)
        requires
            f * d <= n < f * d + d,
            -(k * d) <= n <= k * d,
            d > 0,
    ;
    assert(-k <= c <= k) by (nonlinear_arith)
        requires
            c * d - d < n <= c * d,
            -(k * d) <= n <= k * d,
            d > 0,
    ;
}

/// A point of a unit's range, converted with small coefficients and rounded, stays small.
proof fn lemma_converted_point_within(c: Affine, m: int)
    requires
        affine_within(c, 0x4000_0000),
        -1000 * MICROS <= m <= 1000 * MICROS,
    ensures
        -0x100_0000_0000 <= floor_of(apply((m, MICROS as int), c)) <= 0x100_0000_0000,
        -0x100_0000_0000 <= ceil_of(apply((m, MICROS as int), c)) <= 0x100_0000_0000,
{
    let s = MICROS as int;
    let k = 0x100_0000_0000int;
    assert(-(k * (c.2 * s)) <= c.0 * m + c.1 * s <= k * (c.2 * s)) by (nonlinear_arith)
        requires
            affine_within(c, 0x4000_0000),
            -1000 * s <= m <= 1000 * s,
            s == 1_000_000,
            k == 0x100_0000_0000int,
    ;
    assert(c.2 * s > 0) by (nonlinear_arith)
        requires
            c.2 > 0,
            s > 0,
    ;
    lemma_rounded_within(c.0 * m + c.1 * s, c.2 * s, k);
}

proof fn lemma_product_small(v: int, d: int)
    requires
        -0x1_0000_0000_0000 <= v <= 0x1_0000_0000_0000,
        0 < d <= 0x100_0000_0000_0000_0000,
    ensures
        -0x100_0000_0000_0000_0000_0000_0000_0000 <= v * d <= 0x100_0000_0000_0000_0000_0000_0000_0000,
{
    assert(-0x100_0000_0000_0000_0000_0000_0000_0000 <= v * d <= 0x100_0000_0000_0000_0000_0000_0000_0000)
        by (nonlinear_arith)
        requires
            -0x1_0000_0000_0000 <= v <= 0x1_0000_0000_0000,
            0 < d <= 0x100_0000_0000_0000_0000,
    ;
}

impl Challenge {
    /// Whether picking `selection` is right: the picked value exceeds the other side's value
    /// expressed in the picked side's unit.
    pub fn is_correct(&self, selection: ChoiceSelection) -> (r: bool)
        requires
            self.wf(),
        ensures
            r == self.correct(selection),
    {
        proof {
            lemma_product_small(self.left_choice.value as int, self.right_choice.equivalent.den as int);
            lemma_product_small(self.right_choice.value as int, self.left_choice.equivalent.den as int);
        }
        match selection {
            ChoiceSelection::Left => {
                (self.left_choice.value as i128) * self.right_choice.equivalent.den
                    > self.right_choice.equivalent.num
            },
            ChoiceSelection::Right => {
                (self.right_choice.value as i128) * self.left_choice.equivalent.den
                    > self.left_choice.equivalent.num
            },
        }
    }

    /// The pair of units this challenge asks about, finer unit first.
    pub fn unit_pair(&self) -> (r: (Unit, Unit))
        ensures
            r == self.pair(),
    {
        self.left_choice.unit.pair_with(self.right_choice.unit)
    }

    /// The challenge for `unit_pair` at `level`, given the random draws: `fraction` places the
    /// midpoint at `fraction / 2^32` of the allowed window, `raise` decides whether the coarser
    /// unit's value is the upper end of the gap, and `coarse_left` whether the coarser unit's
    /// choice goes on the left.
    #[verifier::rlimit(50)]
    pub fn generate_with(
        unit_pair: (Unit, Unit),
        level: usize,
        fraction: u32,
        raise: bool,
        coarse_left: bool,
    ) -> (r: Challenge)
        requires
            convertible_pair(unit_pair),
        ensures
            r.generated_from(unit_pair, level as nat, fraction as int, raise, coarse_left),
            r.wf(),
            r.exactly_one_correct(),
            same_pair(r.pair(), unit_pair),
    {
        let (bigger, smaller) = if unit_pair.0 < unit_pair.1 {
            (unit_pair.1, unit_pair.0)
        } else {
            (unit_pair.0, unit_pair.1)
        };
        proof {
            lemma_range_facts(bigger);
            lemma_delta_floor(bigger, level as nat);
            lemma_conversion_shape(bigger, smaller);
        }
        let delta = bigger.level_delta(level).num;
        let (low, high) = bigger.range_micros();
        let min_allowed = low + delta;
        let max_allowed = high - delta;
        let span = max_allowed - min_allowed;
        proof {
            assert(0 <= span * (fraction as int) <= span * 0x1_0000_0000) by (nonlinear_arith)
                requires
                    span > 0,
                    0 <= fraction < 0x1_0000_0000,
            ;
            assert(span * (fraction as int) / 0x1_0000_0000 <= span) by (nonlinear_arith)
                requires
                    0 <= span * (fraction as int) <= span * 0x1_0000_0000,
            ;
        }
        let mid = min_allowed + span * (fraction as i128) / 0x1_0000_0000;
        let upper = mid + delta;
        let lower = mid - delta;
        let c: Ghost<Affine> = Ghost(conversion(bigger, smaller).unwrap());
        let e: Ghost<Affine> = Ghost(conversion(smaller, bigger).unwrap());
        let (bigger_value, smaller_value) = if raise {
            let converted_lower = convert(Ratio { num: lower, den: MICROS }, bigger, smaller).unwrap();
            proof {
                lemma_converted_point_within(c@, lower as int);
                lemma_ceil_bounds(upper as int, MICROS as int);
                lemma_floor_bounds(converted_lower.num as int, converted_lower.den as int);
                lemma_rounded_within(upper as int, MICROS as int, 1000);
            }
            (Ratio { num: upper, den: MICROS }.ceil(), converted_lower.floor())
        } else {
            let converted_upper = convert(Ratio { num: upper, den: MICROS }, bigger, smaller).unwrap();
            proof {
                lemma_converted_point_within(c@, upper as int);
                lemma_floor_bounds(lower as int, MICROS as int);
                lemma_ceil_bounds(converted_upper.num as int, converted_upper.den as int);
                lemma_rounded_within(lower as int, MICROS as int, 1000);
            }
            (Ratio { num: lower, den: MICROS }.floor(), converted_upper.ceil())
        };
        let bigger_value = bigger_value as i64;
        let smaller_value = smaller_value as i64;
        let bigger_choice = Choice {
            unit: bigger,
            value: bigger_value,
            equivalent: convert(Ratio::from_int(bigger_value), bigger, smaller).unwrap(),
        };
        let smaller_choice = Choice {
            unit: smaller,
            value: smaller_value,
            equivalent: convert(Ratio::from_int(smaller_value), smaller, bigger).unwrap(),
        };
        proof {
            let s = MICROS as int;
            if raise {
                lemma_raised_gap(
                    c@,
                    e@,
                    lower as int,
                    upper as int,
                    s,
                    bigger_value as int,
                    smaller_value as int,
                );
            } else {
                lemma_lowered_gap(
                    c@,
                    e@,
                    lower as int,
                    upper as int,
                    s,
                    bigger_value as int,
                    smaller_value as int,
                );
            }
        }
        if coarse_left {
            Challenge { left_choice: bigger_choice, right_choice: smaller_choice }
        } else {
            Challenge { left_choice: smaller_choice, right_choice: bigger_choice }
        }
    }

    /// A fresh challenge for `unit_pair` at `level`, from random draws.
    pub fn generate(unit_pair: (Unit, Unit), level: usize) -> (r: Challenge)
        requires
            convertible_pair(unit_pair),
        ensures
            exists|fraction: u32, raise: bool, coarse_left: bool|
                r.generated_from(unit_pair, level as nat, fraction as int, raise, coarse_left),
            r.wf(),
            r.exactly_one_correct(),
            same_pair(r.pair(), unit_pair),
    {
        let fraction = rand::random::<u32>();
        let raise = rand::random::<bool>();
        let coarse_left = rand::random::<bool>();
        Challenge::generate_with(unit_pair, level, fraction, raise, coarse_left)
    }
}

} // verus!

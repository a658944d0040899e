use vstd::prelude::*;

use crate::ratio::{difference, lemma_fits_cross, less_than, same_value, within, Frac, Ratio};
use crate::units::{rank, Unit};

verus! {

/// An affine map `x |-> (p * x + r) / q`, as `(p, r, q)`, with `p` and `q` positive.
pub type Affine = (int, int, int);

/// Apply an affine map to a fraction, without reduction.
pub open spec fn apply(v: Frac, c: Affine) -> Frac {
    (c.0 * v.0 + c.1 * v.1, c.2 * v.1)
}

/// `c1` followed by `c2`.
pub open spec fn compose(c1: Affine, c2: Affine) -> Affine {
    (c1.0 * c2.0, c2.0 * c1.1 + c2.1 * c1.2, c1.2 * c2.2)
}

/// Every coefficient within `bound`, the multiplier and divisor positive.
pub open spec fn affine_within(c: Affine, bound: int) -> bool {
    0 < c.0 <= bound && -bound <= c.1 <= bound && 0 < c.2 <= bound
}

/// The conversions that the table states directly.
pub open spec fn link(from: Unit, to: Unit) -> Option<Affine> {
    match (from, to) {
        // x * 1.8 + 32
        (Unit::Celsius, Unit::Fahrenheit) => Some((9, 160, 5)),
        // (x - 32) / 1.8
        (Unit::Fahrenheit, Unit::Celsius) => Some((5, -160, 9)),
        // x / 0.3048
        (Unit::Meter, Unit::Foot) => Some((1250, 0, 381)),
        (Unit::Foot, Unit::Meter) => Some((381, 0, 1250)),
        // x / 1.852
        (Unit::Kilometer, Unit::NauticalMile) => Some((250, 0, 463)),
        (Unit::NauticalMile, Unit::Kilometer) => Some((463, 0, 250)),
        // x * 1.609344
        (Unit::Mile, Unit::Kilometer) => Some((25146, 0, 15625)),
        (Unit::Kilometer, Unit::Mile) => Some((15625, 0, 25146)),
        // x * 0.09290341
        (Unit::SquareFoot, Unit::SquareMeter) => Some((9290341, 0, 100000000)),
        (Unit::SquareMeter, Unit::SquareFoot) => Some((100000000, 0, 9290341)),
        // x * 2.4711
        (Unit::Hectare, Unit::Acre) => Some((24711, 0, 10000)),
        (Unit::Acre, Unit::Hectare) => Some((10000, 0, 24711)),
        // x / 29.5735295625
        (Unit::Millilitre, Unit::FluidOunce) => Some((16000000, 0, 473176473)),
        (Unit::FluidOunce, Unit::Millilitre) => Some((473176473, 0, 16000000)),
        // x * 3.785411784
        (Unit::Gallon, Unit::Litre) => Some((473176473, 0, 125000000)),
        (Unit::Litre, Unit::Gallon) => Some((125000000, 0, 473176473)),
        // x * 0.45359237
        (Unit::Pound, Unit::Kilogram) => Some((45359237, 0, 100000000)),
        (Unit::Kilogram, Unit::Pound) => Some((100000000, 0, 45359237)),
        // x * 4.184
        (Unit::Calorie, Unit::Joule) => Some((523, 0, 125)),
        (Unit::Joule, Unit::Calorie) => Some((125, 0, 523)),
        // x * 6.894757
        (Unit::PoundPerSquareInch, Unit::Kilopascal) => Some((6894757, 0, 1000000)),
        (Unit::Kilopascal, Unit::PoundPerSquareInch) => Some((1000000, 0, 6894757)),
        _ => None,
    }
}

/// The conversion from `from` to `to`, if there is one: the identity for equal units, a
/// stated link, or, between miles and nautical miles, the two links through kilometers.
pub open spec fn conversion(from: Unit, to: Unit) -> Option<Affine> {
    if from == to {
        Some((1, 0, 1))
    } else if link(from, to).is_some() {
        link(from, to)
    } else if from == Unit::Mile && to == Unit::NauticalMile {
        Some(
            compose(
                link(Unit::Mile, Unit::Kilometer).unwrap(),
                link(Unit::Kilometer, Unit::NauticalMile).unwrap(),
            ),
        )
    } else if from == Unit::NauticalMile && to == Unit::Mile {
        Some(
            compose(
                link(Unit::NauticalMile, Unit::Kilometer).unwrap(),
                link(Unit::Kilometer, Unit::Mile).unwrap(),
            ),
        )
    } else {
        None
    }
}

/// `v`, measured in `from`, expressed in `to`.
pub open spec fn converted(v: Frac, from: Unit, to: Unit) -> Option<Frac> {
    match conversion(from, to) {
        Some(c) => Some(apply(v, c)),
        None => None,
    }
}

/// How much a change of `delta` in `from` amounts to in `to`.
pub open spec fn converted_delta(delta: Frac, from: Unit, to: Unit) -> Option<Frac> {
    match (converted((0, 1), from, to), converted(delta, from, to)) {
        (Some(base), Some(point)) => Some(difference(point, base)),
        _ => None,
    }
}

/// Largest magnitude of a numerator or denominator that `convert` accepts.
pub open spec fn input_bound() -> int {
    0x400_0000_0000_0000_0000_0000
}

/// Largest magnitude of a numerator or denominator that `convert` returns.
pub open spec fn output_bound() -> int {
    0x400_0000_0000_0000_0000_0000_0000_0000
}

/// Largest magnitude of a numerator or denominator whose conversion `convert` accepts again.
pub open spec fn chain_bound() -> int {
    0x100_0000_0000_0000
}

/// Every conversion of the table has small coefficients and an exact inverse.
pub proof fn lemma_conversion_shape(from: Unit, to: Unit)
    requires
        conversion(from, to).is_some(),
    ensures
        conversion(to, from).is_some(),
        affine_within(conversion(from, to).unwrap(), 0x4000_0000),
        affine_within(conversion(to, from).unwrap(), 0x4000_0000),
        inverse_pair(conversion(from, to).unwrap(), conversion(to, from).unwrap()),
{
    assert(compose((25146, 0, 15625), (250, 0, 463)) == (6286500int, 0int, 7234375int));
    assert(compose((463, 0, 250), (15625, 0, 25146)) == (7234375int, 0int, 6286500int));
    let c = conversion(from, to).unwrap();
    let d = conversion(to, from).unwrap();
    assert(inverse_pair(c, d)) by (nonlinear_arith)
        requires
            c == conversion(from, to).unwrap(),
            d == conversion(to, from).unwrap(),
            conversion(from, to).is_some(),
    ;
}

/// `d` undoes `c`: `d(c(x)) == x` for every `x`.
pub open spec fn inverse_pair(c: Affine, d: Affine) -> bool {
    d.0 * c.0 == d.2 * c.2 && d.0 * c.1 + d.1 * c.2 == 0
}

proof fn lemma_apply_within(v: Frac, c: Affine, bv: int, bc: int)
    requires
        within(v, bv),
        affine_within(c, bc),
    ensures
        within(apply(v, c), 2 * (bv * bc)),
        -(bv * bc) <= c.0 * v.0 <= bv * bc,
        -(bv * bc) <= c.1 * v.1 <= bv * bc,
{
    assert(-(bv * bc) <= c.0 * v.0 <= bv * bc) by (nonlinear_arith)
        requires
            -bv <= v.0 <= bv,
            0 < c.0 <= bc,
    ;
    assert(-(bv * bc) <= c.1 * v.1 <= bv * bc) by (nonlinear_arith)
        requires
            0 < v.1 <= bv,
            -bc <= c.1 <= bc,
    ;
    assert(0 < c.2 * v.1 <= bv * bc) by (nonlinear_arith)
        requires
            0 < v.1 <= bv,
            0 < c.2 <= bc,
    ;
    assert(0 < bv * bc);
    assert(-2 * (bv * bc) <= c.0 * v.0 + c.1 * v.1 <= 2 * (bv * bc));
}

proof fn lemma_distribute(a: int, b: int, c: int, d: int, e: int, n: int, m: int)
    ensures
        a * (b * n + c * m) + d * (e * m) == (b * a) * n + (a * c + d * e) * m,
{
    assert(a * (b * n + c * m) == a * (b * n) + a * (c * m)) by (nonlinear_arith);
    assert(a * (b * n) == (b * a) * n) by (nonlinear_arith);
    assert(a * (c * m) == (a * c) * m) by (nonlinear_arith);
    assert(d * (e * m) == (d * e) * m) by (nonlinear_arith);
    assert((a * c) * m + (d * e) * m == (a * c + d * e) * m) by (nonlinear_arith);
}

proof fn lemma_apply_compose(v: Frac, c1: Affine, c2: Affine)
    ensures
        apply(apply(v, c1), c2) == apply(v, compose(c1, c2)),
{
    lemma_distribute(c2.0, c1.0, c1.1, c2.1, c1.2, v.0, v.1);
    assert(c2.2 * (c1.2 * v.1) == (c1.2 * c2.2) * v.1) by (nonlinear_arith);
}

/// The stated links, as machine integers.
fn link_coefficients(from: Unit, to: Unit) -> (r: Option<(i128, i128, i128)>)
    ensures
        r.is_some() == link(from, to).is_some(),
        r.is_some() ==> link(from, to) == Some(
            (r.unwrap().0 as int, r.unwrap().1 as int, r.unwrap().2 as int),
        ),
{
    match (from, to) {
        (Unit::Celsius, Unit::Fahrenheit) => Some((9, 160, 5)),
        (Unit::Fahrenheit, Unit::Celsius) => Some((5, -160, 9)),
        (Unit::Meter, Unit::Foot) => Some((1250, 0, 381)),
        (Unit::Foot, Unit::Meter) => Some((381, 0, 1250)),
        (Unit::Kilometer, Unit::NauticalMile) => Some((250, 0, 463)),
        (Unit::NauticalMile, Unit::Kilometer) => Some((463, 0, 250)),
        (Unit::Mile, Unit::Kilometer) => Some((25146, 0, 15625)),
        (Unit::Kilometer, Unit::Mile) => Some((15625, 0, 25146)),
        (Unit::SquareFoot, Unit::SquareMeter) => Some((9290341, 0, 100000000)),
        (Unit::SquareMeter, Unit::SquareFoot) => Some((100000000, 0, 9290341)),
        (Unit::Hectare, Unit::Acre) => Some((24711, 0, 10000)),
        (Unit::Acre, Unit::Hectare) => Some((10000, 0, 24711)),
        (Unit::Millilitre, Unit::FluidOunce) => Some((16000000, 0, 473176473)),
        (Unit::FluidOunce, Unit::Millilitre) => Some((473176473, 0, 16000000)),
        (Unit::Gallon, Unit::Litre) => Some((473176473, 0, 125000000)),
        (Unit::Litre, Unit::Gallon) => Some((125000000, 0, 473176473)),
        (Unit::Pound, Unit::Kilogram) => Some((45359237, 0, 100000000)),
        (Unit::Kilogram, Unit::Pound) => Some((100000000, 0, 45359237)),
        (Unit::Calorie, Unit::Joule) => Some((523, 0, 125)),
        (Unit::Joule, Unit::Calorie) => Some((125, 0, 523)),
        (Unit::PoundPerSquareInch, Unit::Kilopascal) => Some((6894757, 0, 1000000)),
        (Unit::Kilopascal, Unit::PoundPerSquareInch) => Some((1000000, 0, 6894757)),
        _ => None,
    }
}

/// Apply one stated link to `value`.
fn apply_link(
    value: Ratio,
    from: Unit,
    to: Unit,
    bound: Ghost<int>,
    scale: Ghost<int>,
) -> (r: Ratio)
    requires
        link(from, to).is_some(),
        affine_within(link(from, to).unwrap(), scale@),
        within(value@, bound@),
        2 * (bound@ * scale@) <= 0x4000_0000_0000_0000_0000_0000_0000_0000,
    ensures
        r@ == apply(value@, link(from, to).unwrap()),
        within(r@, 2 * (bound@ * scale@)),
{
    let c = link_coefficients(from, to).unwrap();
    proof {
        lemma_apply_within(value@, link(from, to).unwrap(), bound@, scale@);
    }
    Ratio { num: c.0 * value.num + c.1 * value.den, den: c.2 * value.den }
}

/// Convert `value` from one unit to another. `None` when the two units measure different
/// quantities.
pub fn convert(value: Ratio, from: Unit, to: Unit) -> (r: Option<Ratio>)
    requires
        within(value@, input_bound()),
    ensures
        r.is_some() == conversion(from, to).is_some(),
        r.is_some() ==> Some(r.unwrap()@) == converted(value@, from, to),
        r.is_some() ==> within(r.unwrap()@, output_bound()),
        r.is_some() && within(value@, chain_bound()) ==> within(r.unwrap()@, input_bound()),
{
    proof {
        if conversion(from, to).is_some() && within(value@, chain_bound()) {
            lemma_conversion_shape(from, to);
            lemma_apply_within(value@, conversion(from, to).unwrap(), chain_bound(), 0x4000_0000);
        }
    }
    if from == to {
        assert(apply(value@, (1, 0, 1)) == value@) by (nonlinear_arith);
        return Some(value);
    }
    if link_coefficients(from, to).is_some() {
        proof {
            lemma_conversion_shape(from, to);
        }
        return Some(apply_link(value, from, to, Ghost(input_bound()), Ghost(0x4000_0000)));
    }
    match (from, to) {
        (Unit::Mile, Unit::NauticalMile) => {
            let bound = Ghost(input_bound());
            let km = apply_link(value, Unit::Mile, Unit::Kilometer, bound, Ghost(0x8000));
            let km_bound = Ghost(2 * (input_bound() * 0x8000));
            let r = apply_link(km, Unit::Kilometer, Unit::NauticalMile, km_bound, Ghost(0x8000));
            proof {
                lemma_apply_compose(
                    value@,
                    link(Unit::Mile, Unit::Kilometer).unwrap(),
                    link(Unit::Kilometer, Unit::NauticalMile).unwrap(),
                );
            }
            Some(r)
        },
        (Unit::NauticalMile, Unit::Mile) => {
            let bound = Ghost(input_bound());
            let km = apply_link(value, Unit::NauticalMile, Unit::Kilometer, bound, Ghost(0x8000));
            let km_bound = Ghost(2 * (input_bound() * 0x8000));
            let r = apply_link(km, Unit::Kilometer, Unit::Mile, km_bound, Ghost(0x8000));
            proof {
                lemma_apply_compose(
                    value@,
                    link(Unit::NauticalMile, Unit::Kilometer).unwrap(),
                    link(Unit::Kilometer, Unit::Mile).unwrap(),
                );
            }
            Some(r)
        },
        _ => None,
    }
}

/// How much a change of `delta` in `from` amounts to in `to`: the difference between the
/// conversions of `delta` and of zero. `None` when the units measure different quantities.
pub fn delta_convert(delta: Ratio, from: Unit, to: Unit) -> (r: Option<Ratio>)
    requires
        within(delta@, 0x100_0000_0000),
    ensures
        r.is_some() == conversion(from, to).is_some(),
        r.is_some() ==> Some(r.unwrap()@) == converted_delta(delta@, from, to),
{
    let zero = Ratio { num: 0, den: 1 };
    match (convert(zero, from, to), convert(delta, from, to)) {
        (Some(base), Some(point)) => {
            proof {
                let c = conversion(from, to).unwrap();
                lemma_conversion_shape(from, to);
                lemma_apply_within(delta@, c, 0x100_0000_0000, 0x4000_0000);
                lemma_apply_within(zero@, c, 1, 0x4000_0000);
                let point_bound = 2 * (0x100_0000_0000int * 0x4000_0000int);
                lemma_fits_cross(point@, base@, point_bound, 2 * (1int * 0x4000_0000int));
            }
            Some(point.minus(&base))
        },
        _ => None,
    }
}

/// Converting a value to another unit and back gives the same number.
pub proof fn lemma_round_trip(v: Frac, a: Unit, b: Unit)
    requires
        v.1 > 0,
        conversion(a, b).is_some(),
    ensures
        converted(v, a, b).is_some(),
        converted(converted(v, a, b).unwrap(), b, a).is_some(),
        converted(converted(v, a, b).unwrap(), b, a).unwrap().1 > 0,
        same_value(converted(converted(v, a, b).unwrap(), b, a).unwrap(), v),
{
    let c = conversion(a, b).unwrap();
    let d = conversion(b, a).unwrap();
    lemma_conversion_shape(a, b);
    lemma_apply_compose(v, c, d);
    let k = c.0 * d.0;
    assert(compose(c, d) == (k, 0int, k)) by (nonlinear_arith)
        requires
            inverse_pair(c, d),
            k == c.0 * d.0,
    ;
    assert(k > 0) by (nonlinear_arith)
        requires
            affine_within(c, 0x4000_0000),
            affine_within(d, 0x4000_0000),
            k == c.0 * d.0,
    ;
    assert(same_value(apply(v, (k, 0, k)), v)) by (nonlinear_arith);
    assert(apply(v, (k, 0, k)).1 > 0) by (nonlinear_arith)
        requires
            k > 0,
            v.1 > 0,
    ;
}

/// A conversion's growth per unit step against the unit order: one step of the finer unit is
/// less than one step of the coarser unit.
pub proof fn lemma_order_follows_delta(a: Unit, b: Unit)
    requires
        conversion(a, b).is_some(),
    ensures
        converted_delta((1, 1), a, b).is_some(),
        less_than(converted_delta((1, 1), a, b).unwrap(), (1, 1)) ==> rank(a) < rank(b),
        less_than((1, 1), converted_delta((1, 1), a, b).unwrap()) ==> rank(a) > rank(b),
        same_value(converted_delta((1, 1), a, b).unwrap(), (1, 1)) ==> a == b,
{
    let c = conversion(a, b).unwrap();
    lemma_conversion_shape(a, b);
    let s = converted_delta((1, 1), a, b).unwrap();
    assert(s == (c.0 * c.2, c.2 * c.2)) by (nonlinear_arith)
        requires
            s == difference(apply((1, 1), c), apply((0, 1), c)),
    ;
    assert(less_than(s, (1, 1)) <==> c.0 < c.2) by (nonlinear_arith)
        requires
            s == (c.0 * c.2, c.2 * c.2),
            c.2 > 0,
    ;
    assert(same_value(s, (1, 1)) <==> c.0 == c.2) by (nonlinear_arith)
        requires
            s == (c.0 * c.2, c.2 * c.2),
            c.2 > 0,
    ;
    assert(less_than((1, 1), s) <==> c.0 > c.2) by (nonlinear_arith)
        requires
            s == (c.0 * c.2, c.2 * c.2),
            c.2 > 0,
    ;
}

} // verus!

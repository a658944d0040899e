use vstd::prelude::*;

use crate::conversion::{convert, converted};
use crate::ratio::{ceil_of, floor_of, within, Frac, Ratio};
use crate::units::Unit;

verus! {

/// Millionths per unit: the fixed-point scale of challenge generation.
pub const MICROS: i128 = 1_000_000;

/// Number of decay steps after which every unit's delta has reached its floor.
pub const FLOOR_LEVEL: usize = 59;

/// The largest level-0 delta of any unit, in millionths: a range of 998 divided by 2.1.
pub const WIDEST_LEVEL0: i128 = 475_238_095;

/// The hand-authored upper ends of the plausible ranges.
pub open spec fn stated_max(u: Unit) -> Frac {
    match u {
        Unit::Celsius => (50, 1),
        Unit::Foot => (200, 1),
        Unit::Gallon => (99, 1),
        Unit::Pound => (500, 1),
        Unit::Kilopascal => (200, 1),
        _ => (999, 1),
    }
}

/// The unit whose range a derived unit's range is converted from.
pub open spec fn range_reference(u: Unit) -> Option<Unit> {
    match u {
        Unit::Fahrenheit => Some(Unit::Celsius),
        Unit::Meter => Some(Unit::Foot),
        Unit::Mile => Some(Unit::Kilometer),
        Unit::NauticalMile => Some(Unit::Kilometer),
        Unit::SquareMeter => Some(Unit::SquareFoot),
        Unit::Hectare => Some(Unit::Acre),
        Unit::FluidOunce => Some(Unit::Millilitre),
        Unit::Litre => Some(Unit::Gallon),
        Unit::Kilogram => Some(Unit::Pound),
        Unit::Calorie => Some(Unit::Joule),
        Unit::PoundPerSquareInch => Some(Unit::Kilopascal),
        _ => None,
    }
}

/// The hand-authored lower ends of the plausible ranges.
pub open spec fn stated_min(u: Unit) -> Frac {
    match u {
        Unit::Celsius => (-40, 1),
        _ => (1, 1),
    }
}

/// Smallest plausible value of a unit: stated for reference units, converted from the
/// reference unit's for derived ones.
pub open spec fn min_of(u: Unit) -> Frac {
    match range_reference(u) {
        Some(r) => converted(stated_min(r), r, u).unwrap(),
        None => stated_min(u),
    }
}

/// Largest plausible value of a unit: stated for reference units, converted from the
/// reference unit's for derived ones.
pub open spec fn max_of(u: Unit) -> Frac {
    match range_reference(u) {
        Some(r) => converted(stated_max(r), r, u).unwrap(),
        None => stated_max(u),
    }
}

/// Lower end of a unit's range in millionths, rounded up.
pub open spec fn low_micros(u: Unit) -> int {
    ceil_of((min_of(u).0 * MICROS, min_of(u).1))
}

/// Upper end of a unit's range in millionths, rounded down.
pub open spec fn high_micros(u: Unit) -> int {
    floor_of((max_of(u).0 * MICROS, max_of(u).1))
}

/// The delta at level 0 in millionths: the range divided by 2.1, rounded down.
pub open spec fn level0_micros(u: Unit) -> int {
    (high_micros(u) - low_micros(u)) * 10 / 21
}

/// `d` after `k` decay steps of 0.9, each rounded down.
pub open spec fn decayed(d: int, k: nat) -> int
    decreases k,
{
    if k == 0 {
        d
    } else {
        decayed(d, (k - 1) as nat) * 9 / 10
    }
}

/// The delta at `level` in millionths: the decayed level-0 delta, never below one unit.
pub open spec fn level_micros(u: Unit, level: nat) -> int {
    let d = decayed(level0_micros(u), level);
    if d < MICROS {
        MICROS as int
    } else {
        d
    }
}

/// Facts about every unit's range that generation relies on.
pub proof fn lemma_range_facts(u: Unit)
    ensures
        within(min_of(u), 0x1_0000_0000_0000),
        within(max_of(u), 0x1_0000_0000_0000),
        -40 * MICROS <= low_micros(u),
        high_micros(u) <= 1000 * MICROS,
        low_micros(u) + 3 * MICROS <= high_micros(u),
        0 <= level0_micros(u) <= WIDEST_LEVEL0,
{
    assert(MICROS == 1_000_000);
    match u {
        Unit::Fahrenheit => {
            assert(max_of(u) == (610int, 5int));
            assert(min_of(u) == (-200int, 5int));
            assert(high_micros(u) == 122000000 && low_micros(u) == -40000000) by (nonlinear_arith)
                requires
                    max_of(u) == (610int, 5int),
                    min_of(u) == (-200int, 5int),
                    MICROS == 1_000_000,
            ;
        },
        Unit::Celsius => {
            assert(max_of(u) == (50int, 1int));
            assert(min_of(u) == (-40int, 1int));
            assert(high_micros(u) == 50000000 && low_micros(u) == -40000000) by (nonlinear_arith)
                requires
                    max_of(u) == (50int, 1int),
                    min_of(u) == (-40int, 1int),
                    MICROS == 1_000_000,
            ;
        },
        Unit::Foot => {
            assert(max_of(u) == (200int, 1int));
            assert(min_of(u) == (1int, 1int));
            assert(high_micros(u) == 200000000 && low_micros(u) == 1000000) by (nonlinear_arith)
                requires
                    max_of(u) == (200int, 1int),
                    min_of(u) == (1int, 1int),
                    MICROS == 1_000_000,
            ;
        },
        Unit::Meter => {
            assert(max_of(u) == (76200int, 1250int));
            assert(min_of(u) == (381int, 1250int));
            assert(high_micros(u) == 60960000 && low_micros(u) == 304800) by (nonlinear_arith)
                requires
                    max_of(u) == (76200int, 1250int),
                    min_of(u) == (381int, 1250int),
                    MICROS == 1_000_000,
            ;
        },
        Unit::Kilometer => {
            assert(max_of(u) == (999int, 1int));
            assert(min_of(u) == (1int, 1int));
            assert(high_micros(u) == 999000000 && low_micros(u) == 1000000) by (nonlinear_arith)
                requires
                    max_of(u) == (999int, 1int),
                    min_of(u) == (1int, 1int),
                    MICROS == 1_000_000,
            ;
        },
        Unit::Mile => {
            assert(max_of(u) == (15609375int, 25146int));
            assert(min_of(u) == (15625int, 25146int));
            assert(high_micros(u) == 620749821 && low_micros(u) == 621372) by (nonlinear_arith)
                requires
                    max_of(u) == (15609375int, 25146int),
                    min_of(u) == (15625int, 25146int),
                    MICROS == 1_000_000,
            ;
        },
        Unit::NauticalMile => {
            assert(max_of(u) == (249750int, 463int));
            assert(min_of(u) == (250int, 463int));
            assert(high_micros(u) == 539416846 && low_micros(u) == 539957) by (nonlinear_arith)
                requires
                    max_of(u) == (249750int, 463int),
                    min_of(u) == (250int, 463int),
                    MICROS == 1_000_000,
            ;
        },
        Unit::SquareFoot => {
            assert(max_of(u) == (999int, 1int));
            assert(min_of(u) == (1int, 1int));
            assert(high_micros(u) == 999000000 && low_micros(u) == 1000000) by (nonlinear_arith)
                requires
                    max_of(u) == (999int, 1int),
                    min_of(u) == (1int, 1int),
                    MICROS == 1_000_000,
            ;
        },
        Unit::SquareMeter => {
            assert(max_of(u) == (9281050659int, 100000000int));
            assert(min_of(u) == (9290341int, 100000000int));
            assert(high_micros(u) == 92810506 && low_micros(u) == 92904) by (nonlinear_arith)
                requires
                    max_of(u) == (9281050659int, 100000000int),
                    min_of(u) == (9290341int, 100000000int),
                    MICROS == 1_000_000,
            ;
        },
        Unit::Acre => {
            assert(max_of(u) == (999int, 1int));
            assert(min_of(u) == (1int, 1int));
            assert(high_micros(u) == 999000000 && low_micros(u) == 1000000) by (nonlinear_arith)
                requires
                    max_of(u) == (999int, 1int),
                    min_of(u) == (1int, 1int),
                    MICROS == 1_000_000,
            ;
        },
        Unit::Hectare => {
            assert(max_of(u) == (9990000int, 24711int));
            assert(min_of(u) == (10000int, 24711int));
            assert(high_micros(u) == 404273400 && low_micros(u) == 404679) by (nonlinear_arith)
                requires
                    max_of(u) == (9990000int, 24711int),
                    min_of(u) == (10000int, 24711int),
                    MICROS == 1_000_000,
            ;
        },
        Unit::Millilitre => {
            assert(max_of(u) == (999int, 1int));
            assert(min_of(u) == (1int, 1int));
            assert(high_micros(u) == 999000000 && low_micros(u) == 1000000) by (nonlinear_arith)
                requires
                    max_of(u) == (999int, 1int),
                    min_of(u) == (1int, 1int),
                    MICROS == 1_000_000,
            ;
        },
        Unit::FluidOunce => {
            assert(max_of(u) == (15984000000int, 473176473int));
            assert(min_of(u) == (16000000int, 473176473int));
            assert(high_micros(u) == 33780208 && low_micros(u) == 33815) by (nonlinear_arith)
                requires
                    max_of(u) == (15984000000int, 473176473int),
                    min_of(u) == (16000000int, 473176473int),
                    MICROS == 1_000_000,
            ;
        },
        Unit::Litre => {
            assert(max_of(u) == (46844470827int, 125000000int));
            assert(min_of(u) == (473176473int, 125000000int));
            assert(high_micros(u) == 374755766 && low_micros(u) == 3785412) by (nonlinear_arith)
                requires
                    max_of(u) == (46844470827int, 125000000int),
                    min_of(u) == (473176473int, 125000000int),
                    MICROS == 1_000_000,
            ;
        },
        Unit::Gallon => {
            assert(max_of(u) == (99int, 1int));
            assert(min_of(u) == (1int, 1int));
            assert(high_micros(u) == 99000000 && low_micros(u) == 1000000) by (nonlinear_arith)
                requires
                    max_of(u) == (99int, 1int),
                    min_of(u) == (1int, 1int),
                    MICROS == 1_000_000,
            ;
        },
        Unit::Pound => {
            assert(max_of(u) == (500int, 1int));
            assert(min_of(u) == (1int, 1int));
            assert(high_micros(u) == 500000000 && low_micros(u) == 1000000) by (nonlinear_arith)
                requires
                    max_of(u) == (500int, 1int),
                    min_of(u) == (1int, 1int),
                    MICROS == 1_000_000,
            ;
        },
        Unit::Kilogram => {
            assert(max_of(u) == (22679618500int, 100000000int));
            assert(min_of(u) == (45359237int, 100000000int));
            assert(high_micros(u) == 226796185 && low_micros(u) == 453593) by (nonlinear_arith)
                requires
                    max_of(u) == (22679618500int, 100000000int),
                    min_of(u) == (45359237int, 100000000int),
                    MICROS == 1_000_000,
            ;
        },
        Unit::Joule => {
            assert(max_of(u) == (999int, 1int));
            assert(min_of(u) == (1int, 1int));
            assert(high_micros(u) == 999000000 && low_micros(u) == 1000000) by (nonlinear_arith)
                requires
                    max_of(u) == (999int, 1int),
                    min_of(u) == (1int, 1int),
                    MICROS == 1_000_000,
            ;
        },
        Unit::Calorie => {
            assert(max_of(u) == (124875int, 523int));
            assert(min_of(u) == (125int, 523int));
            assert(high_micros(u) == 238766730 && low_micros(u) == 239006) by (nonlinear_arith)
                requires
                    max_of(u) == (124875int, 523int),
                    min_of(u) == (125int, 523int),
                    MICROS == 1_000_000,
            ;
        },
        Unit::Kilopascal => {
            assert(max_of(u) == (200int, 1int));
            assert(min_of(u) == (1int, 1int));
            assert(high_micros(u) == 200000000 && low_micros(u) == 1000000) by (nonlinear_arith)
                requires
                    max_of(u) == (200int, 1int),
                    min_of(u) == (1int, 1int),
                    MICROS == 1_000_000,
            ;
        },
        Unit::PoundPerSquareInch => {
            assert(max_of(u) == (200000000int, 6894757int));
            assert(min_of(u) == (1000000int, 6894757int));
            assert(high_micros(u) == 29007548 && low_micros(u) == 145038) by (nonlinear_arith)
                requires
                    max_of(u) == (200000000int, 6894757int),
                    min_of(u) == (1000000int, 6894757int),
                    MICROS == 1_000_000,
            ;
        },
    }
}

impl Unit {
    /// Smallest plausible value of this unit.
    pub fn min_value(&self) -> (r: Ratio)
        ensures
            r@ == min_of(*self),
    {
        match self.range_reference() {
            Some(reference) => {
                let m = reference.stated_min_value();
                match convert(m, reference, *self) {
                    Some(v) => v,
                    None => m,
                }
            },
            None => self.stated_min_value(),
        }
    }

    fn stated_min_value(&self) -> (r: Ratio)
        ensures
            r@ == stated_min(*self),
    {
        match self {
            Unit::Celsius => Ratio { num: -40, den: 1 },
            _ => Ratio { num: 1, den: 1 },
        }
    }

    fn stated_max_value(&self) -> (r: Ratio)
        ensures
            r@ == stated_max(*self),
    {
        match self {
            Unit::Celsius => Ratio { num: 50, den: 1 },
            Unit::Foot => Ratio { num: 200, den: 1 },
            Unit::Gallon => Ratio { num: 99, den: 1 },
            Unit::Pound => Ratio { num: 500, den: 1 },
            Unit::Kilopascal => Ratio { num: 200, den: 1 },
            _ => Ratio { num: 999, den: 1 },
        }
    }

    fn range_reference(&self) -> (r: Option<Unit>)
        ensures
            r == range_reference(*self),
    {
        match self {
            Unit::Fahrenheit => Some(Unit::Celsius),
            Unit::Meter => Some(Unit::Foot),
            Unit::Mile => Some(Unit::Kilometer),
            Unit::NauticalMile => Some(Unit::Kilometer),
            Unit::SquareMeter => Some(Unit::SquareFoot),
            Unit::Hectare => Some(Unit::Acre),
            Unit::FluidOunce => Some(Unit::Millilitre),
            Unit::Litre => Some(Unit::Gallon),
            Unit::Kilogram => Some(Unit::Pound),
            Unit::Calorie => Some(Unit::Joule),
            Unit::PoundPerSquareInch => Some(Unit::Kilopascal),
            _ => None,
        }
    }

    /// Largest plausible value of this unit.
    pub fn max_value(&self) -> (r: Ratio)
        ensures
            r@ == max_of(*self),
    {
        match self.range_reference() {
            Some(reference) => {
                let m = reference.stated_max_value();
                match convert(m, reference, *self) {
                    Some(v) => v,
                    None => m,
                }
            },
            None => self.stated_max_value(),
        }
    }
}

proof fn lemma_decayed_monotone(d: int, i: nat, j: nat)
    requires
        d >= 0,
        i <= j,
    ensures
        0 <= decayed(d, j) <= decayed(d, i),
    decreases j,
{
    if j > i {
        lemma_decayed_monotone(d, i, (j - 1) as nat);
    } else {
        lemma_decayed_nonnegative(d, j);
    }
}

proof fn lemma_decayed_nonnegative(d: int, k: nat)
    requires
        d >= 0,
    ensures
        decayed(d, k) >= 0,
    decreases k,
{
    if k > 0 {
        lemma_decayed_nonnegative(d, (k - 1) as nat);
    }
}

/// A larger starting delta never decays below a smaller one.
proof fn lemma_decayed_monotone_in_start(a: int, b: int, k: nat)
    requires
        0 <= a <= b,
    ensures
        decayed(a, k) <= decayed(b, k),
    decreases k,
{
    if k > 0 {
        lemma_decayed_monotone_in_start(a, b, (k - 1) as nat);
        let x = decayed(a, (k - 1) as nat);
        let y = decayed(b, (k - 1) as nat);
        assert(x * 9 / 10 <= y * 9 / 10) by (nonlinear_arith)
            requires
                x <= y,
        ;
    }
}

/// The widest unit's delta falls below one unit after `FLOOR_LEVEL` decay steps.
proof fn lemma_widest_reaches_floor()
    ensures
        decayed(WIDEST_LEVEL0 as int, FLOOR_LEVEL as nat) < MICROS,
{
    assert(decayed(WIDEST_LEVEL0 as int, 0) == WIDEST_LEVEL0);
    assert(decayed(WIDEST_LEVEL0 as int, 1) == 427714285);
    assert(decayed(WIDEST_LEVEL0 as int, 2) == 384942856);
    assert(decayed(WIDEST_LEVEL0 as int, 3) == 346448570);
    assert(decayed(WIDEST_LEVEL0 as int, 4) == 311803713);
    assert(decayed(WIDEST_LEVEL0 as int, 5) == 280623341);
    assert(decayed(WIDEST_LEVEL0 as int, 6) == 252561006);
    assert(decayed(WIDEST_LEVEL0 as int, 7) == 227304905);
    assert(decayed(WIDEST_LEVEL0 as int, 8) == 204574414);
    assert(decayed(WIDEST_LEVEL0 as int, 9) == 184116972);
    assert(decayed(WIDEST_LEVEL0 as int, 10) == 165705274);
    assert(decayed(WIDEST_LEVEL0 as int, 11) == 149134746);
    assert(decayed(WIDEST_LEVEL0 as int, 12) == 134221271);
    assert(decayed(WIDEST_LEVEL0 as int, 13) == 120799143);
    assert(decayed(WIDEST_LEVEL0 as int, 14) == 108719228);
    assert(decayed(WIDEST_LEVEL0 as int, 15) == 97847305);
    assert(decayed(WIDEST_LEVEL0 as int, 16) == 88062574);
    assert(decayed(WIDEST_LEVEL0 as int, 17) == 79256316);
    assert(decayed(WIDEST_LEVEL0 as int, 18) == 71330684);
    assert(decayed(WIDEST_LEVEL0 as int, 19) == 64197615);
    assert(decayed(WIDEST_LEVEL0 as int, 20) == 57777853);
    assert(decayed(WIDEST_LEVEL0 as int, 21) == 52000067);
    assert(decayed(WIDEST_LEVEL0 as int, 22) == 46800060);
    assert(decayed(WIDEST_LEVEL0 as int, 23) == 42120054);
    assert(decayed(WIDEST_LEVEL0 as int, 24) == 37908048);
    assert(decayed(WIDEST_LEVEL0 as int, 25) == 34117243);
    assert(decayed(WIDEST_LEVEL0 as int, 26) == 30705518);
    assert(decayed(WIDEST_LEVEL0 as int, 27) == 27634966);
    assert(decayed(WIDEST_LEVEL0 as int, 28) == 24871469);
    assert(decayed(WIDEST_LEVEL0 as int, 29) == 22384322);
    assert(decayed(WIDEST_LEVEL0 as int, 30) == 20145889);
    assert(decayed(WIDEST_LEVEL0 as int, 31) == 18131300);
    assert(decayed(WIDEST_LEVEL0 as int, 32) == 16318170);
    assert(decayed(WIDEST_LEVEL0 as int, 33) == 14686353);
    assert(decayed(WIDEST_LEVEL0 as int, 34) == 13217717);
    assert(decayed(WIDEST_LEVEL0 as int, 35) == 11895945);
    assert(decayed(WIDEST_LEVEL0 as int, 36) == 10706350);
    assert(decayed(WIDEST_LEVEL0 as int, 37) == 9635715);
    assert(decayed(WIDEST_LEVEL0 as int, 38) == 8672143);
    assert(decayed(WIDEST_LEVEL0 as int, 39) == 7804928);
    assert(decayed(WIDEST_LEVEL0 as int, 40) == 7024435);
    assert(decayed(WIDEST_LEVEL0 as int, 41) == 6321991);
    assert(decayed(WIDEST_LEVEL0 as int, 42) == 5689791);
    assert(decayed(WIDEST_LEVEL0 as int, 43) == 5120811);
    assert(decayed(WIDEST_LEVEL0 as int, 44) == 4608729);
    assert(decayed(WIDEST_LEVEL0 as int, 45) == 4147856);
    assert(decayed(WIDEST_LEVEL0 as int, 46) == 3733070);
    assert(decayed(WIDEST_LEVEL0 as int, 47) == 3359763);
    assert(decayed(WIDEST_LEVEL0 as int, 48) == 3023786);
    assert(decayed(WIDEST_LEVEL0 as int, 49) == 2721407);
    assert(decayed(WIDEST_LEVEL0 as int, 50) == 2449266);
    assert(decayed(WIDEST_LEVEL0 as int, 51) == 2204339);
    assert(decayed(WIDEST_LEVEL0 as int, 52) == 1983905);
    assert(decayed(WIDEST_LEVEL0 as int, 53) == 1785514);
    assert(decayed(WIDEST_LEVEL0 as int, 54) == 1606962);
    assert(decayed(WIDEST_LEVEL0 as int, 55) == 1446265);
    assert(decayed(WIDEST_LEVEL0 as int, 56) == 1301638);
    assert(decayed(WIDEST_LEVEL0 as int, 57) == 1171474);
    assert(decayed(WIDEST_LEVEL0 as int, 58) == 1054326);
    assert(decayed(WIDEST_LEVEL0 as int, 59) == 948893);
}

/// From `FLOOR_LEVEL` on, every unit's delta is exactly one unit, its floor; at no level is it
/// below one unit.
pub proof fn lemma_delta_floor(u: Unit, level: nat)
    ensures
        level_micros(u, level) >= MICROS,
        level >= FLOOR_LEVEL ==> level_micros(u, level) == MICROS,
        level_micros(u, level) == MICROS || level_micros(u, level) <= level0_micros(u),
{
    lemma_range_facts(u);
    let d0 = level0_micros(u);
    lemma_decayed_monotone(d0, 0, level);
    if level >= FLOOR_LEVEL {
        lemma_widest_reaches_floor();
        lemma_decayed_monotone_in_start(d0, WIDEST_LEVEL0 as int, FLOOR_LEVEL as nat);
        lemma_decayed_monotone(d0, FLOOR_LEVEL as nat, level);
    }
}

impl Unit {
    /// Lower and upper ends of this unit's range, in millionths.
    pub(crate) fn range_micros(&self) -> (r: (i128, i128))
        ensures
            r.0 == low_micros(*self),
            r.1 == high_micros(*self),
    {
        let lo = self.min_value();
        let hi = self.max_value();
        proof {
            lemma_range_facts(*self);
        }
        let low = Ratio { num: lo.num * MICROS, den: lo.den }.ceil();
        let high = Ratio { num: hi.num * MICROS, den: hi.den }.floor();
        (low, high)
    }

    /// Half-width of the value gap at level 0: the unit's range divided by 2.1, in millionths
    /// of the unit.
    pub fn level0_delta(&self) -> (r: Ratio)
        ensures
            r@ == (level0_micros(*self), MICROS as int),
    {
        proof {
            lemma_range_facts(*self);
        }
        let (low, high) = self.range_micros();
        Ratio { num: (high - low) * 10 / 21, den: MICROS }
    }

    /// Half-width of the value gap at `level`: the level-0 delta decayed by 0.9 per level,
    /// in millionths of the unit rounded down at each step, and never below one unit.
    pub fn level_delta(&self, level: usize) -> (r: Ratio)
        ensures
            r@ == (level_micros(*self, level as nat), MICROS as int),
    {
        proof {
            lemma_range_facts(*self);
        }
        let d0 = self.level0_delta().num;
        let mut d = d0;
        let mut i: usize = 0;
        while i < level && d >= MICROS
            invariant
                0 <= i <= level,
                d0 == level0_micros(*self),
                0 <= d0 < 512 * MICROS,
                d == decayed(d0 as int, i as nat),
                0 <= d <= d0,
            decreases level - i,
        {
            d = d * 9 / 10;
            i = i + 1;
        }
        proof {
            if i < level {
                lemma_decayed_monotone(d0 as int, i as nat, level as nat);
            }
        }
        if d < MICROS {
            Ratio { num: MICROS, den: MICROS }
        } else {
            Ratio { num: d, den: MICROS }
        }
    }
}

} // verus!

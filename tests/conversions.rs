use unit_game::conversion::{convert, delta_convert};
use unit_game::ratio::{floor_div, Ratio};
use unit_game::units::{quantity_to_icon_src, quantity_to_string, Quantity, Unit};

const ALL_UNITS: &[Unit] = &[
    Unit::Fahrenheit,
    Unit::Celsius,
    Unit::Foot,
    Unit::Meter,
    Unit::Kilometer,
    Unit::Mile,
    Unit::NauticalMile,
    Unit::SquareFoot,
    Unit::SquareMeter,
    Unit::Acre,
    Unit::Hectare,
    Unit::Millilitre,
    Unit::FluidOunce,
    Unit::Litre,
    Unit::Gallon,
    Unit::Pound,
    Unit::Kilogram,
    Unit::Joule,
    Unit::Calorie,
    Unit::Kilopascal,
    Unit::PoundPerSquareInch,
];

fn value_of(r: Ratio) -> f64 {
    r.num as f64 / r.den as f64
}

fn floats_close_enough(a: f64, b: f64) -> bool {
    (a - b).abs() < 0.001
}

fn whole(v: i64) -> Ratio {
    Ratio::from_int(v)
}

#[test]
fn conversions_work() {
    let a = convert(whole(-40), Unit::Celsius, Unit::Fahrenheit).unwrap();
    let b = convert(whole(-40), Unit::Fahrenheit, Unit::Celsius).unwrap();
    assert!(a.same_value_as(&b));
    assert!(floats_close_enough(
        value_of(convert(whole(0), Unit::Celsius, Unit::Celsius).unwrap()),
        0.0
    ));
    assert!(floats_close_enough(
        value_of(convert(whole(0), Unit::Celsius, Unit::Fahrenheit).unwrap()),
        32.0
    ));
    assert!(floats_close_enough(
        value_of(convert(whole(100), Unit::Celsius, Unit::Fahrenheit).unwrap()),
        212.0
    ));
    assert!(floats_close_enough(
        value_of(convert(whole(0), Unit::Fahrenheit, Unit::Celsius).unwrap()),
        -17.777777
    ));
    assert!(floats_close_enough(
        value_of(convert(whole(100), Unit::Fahrenheit, Unit::Celsius).unwrap()),
        37.777777
    ));

    let a = convert(whole(0), Unit::Kilometer, Unit::NauticalMile).unwrap();
    let b = convert(whole(0), Unit::NauticalMile, Unit::Kilometer).unwrap();
    assert!(a.same_value_as(&b));
    assert!(floats_close_enough(
        value_of(convert(whole(1000), Unit::NauticalMile, Unit::Kilometer).unwrap()),
        1852.0
    ));

    assert!(floats_close_enough(
        value_of(convert(whole(8700), Unit::Joule, Unit::Calorie).unwrap()),
        2079.35
    ));
}

#[test]
fn units_ordered_properly() {
    assert!(Unit::Fahrenheit < Unit::Celsius);
    assert!(Unit::Foot < Unit::Meter);
    assert_eq!(
        [Unit::Mile, Unit::Kilometer, Unit::NauticalMile].iter().min(),
        Some(&Unit::Kilometer)
    );
    assert!(Unit::FluidOunce > Unit::Millilitre);
}

#[test]
fn units_order_follows_delta() {
    for a in ALL_UNITS {
        for b in ALL_UNITS {
            if let Some(delta) = delta_convert(whole(1), *a, *b) {
                if delta.num < delta.den {
                    assert!(*a < *b, "delta = {:?} so {:?} < {:?}", delta, *a, *b);
                } else if delta.num > delta.den {
                    assert!(*a > *b, "delta = {:?} so {:?} > {:?}", delta, *a, *b);
                } else {
                    assert_eq!(*a, *b, "delta = {:?} so {:?} == {:?}", delta, *a, *b);
                }
            }
        }
    }
}

#[test]
fn fixed_points_are_exact() {
    let same = |r: Ratio, v: i64| r.same_value_as(&whole(v));
    assert!(same(convert(whole(0), Unit::Celsius, Unit::Celsius).unwrap(), 0));
    assert!(same(convert(whole(0), Unit::Celsius, Unit::Fahrenheit).unwrap(), 32));
    assert!(same(convert(whole(100), Unit::Celsius, Unit::Fahrenheit).unwrap(), 212));
    assert!(same(convert(whole(-40), Unit::Celsius, Unit::Fahrenheit).unwrap(), -40));
    assert!(same(convert(whole(-40), Unit::Fahrenheit, Unit::Celsius).unwrap(), -40));
}

#[test]
fn round_trips_give_the_value_back() {
    let samples = [whole(-40), whole(0), whole(1), whole(37), whole(999), Ratio { num: 7, den: 3 }];
    for a in ALL_UNITS {
        for b in ALL_UNITS {
            for v in samples {
                if let Some(there) = convert(v, *a, *b) {
                    let back = convert(there, *b, *a).unwrap();
                    assert!(back.same_value_as(&v), "{:?} -> {:?} -> {:?}", a, b, back);
                }
            }
        }
    }
}

#[test]
fn conversion_coefficients_are_exact() {
    let same = |r: Ratio, num: i128, den: i128| r.same_value_as(&Ratio { num, den });
    assert!(same(convert(whole(1), Unit::Foot, Unit::Meter).unwrap(), 3048, 10000));
    assert!(same(convert(whole(1), Unit::Mile, Unit::Kilometer).unwrap(), 1609344, 1000000));
    assert!(same(convert(whole(1), Unit::NauticalMile, Unit::Kilometer).unwrap(), 1852, 1000));
    assert!(same(convert(whole(1), Unit::SquareFoot, Unit::SquareMeter).unwrap(), 9290341, 100000000));
    assert!(same(convert(whole(1), Unit::Hectare, Unit::Acre).unwrap(), 24711, 10000));
    assert!(same(convert(whole(1), Unit::FluidOunce, Unit::Millilitre).unwrap(), 295735295625, 10000000000));
    assert!(same(convert(whole(1), Unit::Gallon, Unit::Litre).unwrap(), 3785411784, 1000000000));
    assert!(same(convert(whole(1), Unit::Pound, Unit::Kilogram).unwrap(), 45359237, 100000000));
    assert!(same(convert(whole(1), Unit::Calorie, Unit::Joule).unwrap(), 4184, 1000));
    assert!(same(convert(whole(1), Unit::PoundPerSquareInch, Unit::Kilopascal).unwrap(), 6894757, 1000000));
}

#[test]
fn mile_to_nautical_mile_goes_through_kilometers() {
    let direct = convert(whole(10), Unit::Mile, Unit::NauticalMile).unwrap();
    let km = convert(whole(10), Unit::Mile, Unit::Kilometer).unwrap();
    let two_steps = convert(km, Unit::Kilometer, Unit::NauticalMile).unwrap();
    assert!(direct.same_value_as(&two_steps));
    assert!(floats_close_enough(value_of(direct), 8.689762));
    let back = convert(whole(1), Unit::NauticalMile, Unit::Mile).unwrap();
    assert!(floats_close_enough(value_of(back), 1.150779));
}

#[test]
fn unrelated_units_do_not_convert() {
    assert!(convert(whole(1), Unit::Celsius, Unit::Meter).is_none());
    assert!(convert(whole(1), Unit::Acre, Unit::Litre).is_none());
    assert!(delta_convert(whole(1), Unit::Pound, Unit::Joule).is_none());
}

#[test]
fn delta_ignores_the_temperature_offset() {
    let d = delta_convert(whole(1), Unit::Celsius, Unit::Fahrenheit).unwrap();
    assert!(d.same_value_as(&Ratio { num: 9, den: 5 }));
    let d = delta_convert(whole(10), Unit::Fahrenheit, Unit::Celsius).unwrap();
    assert!(d.same_value_as(&Ratio { num: 50, den: 9 }));
}

#[test]
fn ratios_round_both_ways() {
    let r = Ratio { num: -7, den: 2 };
    assert_eq!(r.floor(), -4);
    assert_eq!(r.ceil(), -3);
    let r = Ratio { num: 7, den: 2 };
    assert_eq!(r.floor(), 3);
    assert_eq!(r.ceil(), 4);
    assert_eq!(Ratio { num: -6, den: 3 }.floor(), -2);
    assert_eq!(Ratio { num: -6, den: 3 }.ceil(), -2);
    assert_eq!(floor_div(-1, 5), -1);
    assert_eq!(floor_div(-5, 5), -1);
    assert_eq!(floor_div(-6, 5), -2);
    let d = Ratio { num: 1, den: 2 }.minus(&Ratio { num: 1, den: 3 });
    assert!(d.same_value_as(&Ratio { num: 1, den: 6 }));
}

#[test]
fn units_pair_finer_first() {
    assert_eq!(Unit::Celsius.pair_with(Unit::Fahrenheit), (Unit::Fahrenheit, Unit::Celsius));
    assert_eq!(Unit::Foot.pair_with(Unit::Meter), (Unit::Foot, Unit::Meter));
    assert_eq!(Unit::Mile.pair_with(Unit::Mile), (Unit::Mile, Unit::Mile));
}

#[test]
fn quantities_list_their_pairs() {
    assert_eq!(Quantity::Temperature.unit_pairs(), vec![(Unit::Fahrenheit, Unit::Celsius)]);
    assert_eq!(
        Quantity::Length.unit_pairs(),
        vec![
            (Unit::Meter, Unit::Foot),
            (Unit::Kilometer, Unit::Mile),
            (Unit::Kilometer, Unit::NauticalMile),
            (Unit::NauticalMile, Unit::Mile),
        ]
    );
    assert_eq!(Quantity::Pressure.unit_pairs().len(), 1);
}

#[test]
fn labels_and_symbols() {
    assert_eq!(Unit::Celsius.symbol(), "C");
    assert_eq!(Unit::FluidOunce.symbol(), "fl oz");
    assert_eq!(Unit::PoundPerSquareInch.symbol(), "psi");
    assert_eq!(quantity_to_string(Quantity::Temperature), "C/F");
    assert_eq!(quantity_to_string(Quantity::Area), "m^2/sq ft");
    assert_eq!(quantity_to_icon_src(Quantity::Mass), "assets/temperature.svg");
}

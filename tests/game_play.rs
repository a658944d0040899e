use unit_game::challenge::{Challenge, Choice, ChoiceSelection};
use unit_game::conversion::convert;
use unit_game::difficulty::{FLOOR_LEVEL, MICROS};
use unit_game::game::Game;
use unit_game::ratio::Ratio;
use unit_game::units::{Quantity, Unit};

const ALL_QUANTITIES: [Quantity; 7] = [
    Quantity::Temperature,
    Quantity::Length,
    Quantity::Area,
    Quantity::Volume,
    Quantity::Mass,
    Quantity::Energy,
    Quantity::Pressure,
];

fn preset_game() -> Game {
    let unit_pair = Unit::Celsius.pair_with(Unit::Fahrenheit);
    Game {
        in_progress: true,
        level_per_unit_pair: vec![(unit_pair, 3)],
        challenge: Challenge {
            left_choice: Choice {
                unit: Unit::Celsius,
                value: 30,
                equivalent: Ratio::from_int(30),
            },
            right_choice: Choice {
                unit: Unit::Fahrenheit,
                value: 0,
                equivalent: Ratio::from_int(0),
            },
        },
    }
}

fn correct_side(challenge: &Challenge) -> ChoiceSelection {
    if challenge.is_correct(ChoiceSelection::Left) {
        ChoiceSelection::Left
    } else {
        ChoiceSelection::Right
    }
}

fn wrong_side(challenge: &Challenge) -> ChoiceSelection {
    match correct_side(challenge) {
        ChoiceSelection::Left => ChoiceSelection::Right,
        ChoiceSelection::Right => ChoiceSelection::Left,
    }
}

#[test]
fn new_game_is_in_progress() {
    assert_eq!(Game::new_with_single_quantity(Quantity::Temperature).in_progress, true);
}

#[test]
fn correct_pick_increases_level() {
    let unit_pair = Unit::Celsius.pair_with(Unit::Fahrenheit);
    let mut game = preset_game();
    game.pick(ChoiceSelection::Left);
    assert_eq!(game.level_of(unit_pair), Some(4));
    assert_eq!(game.in_progress, true);
}

#[test]
fn wrong_pick_stops_game() {
    let unit_pair = Unit::Celsius.pair_with(Unit::Fahrenheit);
    let mut game = preset_game();
    game.pick(ChoiceSelection::Right);
    assert_eq!(game.level_of(unit_pair), Some(3));
    assert_eq!(game.in_progress, false);
}

#[test]
fn new_game_tracks_every_pair_at_level_zero() {
    for quantity in ALL_QUANTITIES {
        let game = Game::new_with_single_quantity(quantity);
        assert!(game.in_progress);
        let expected: Vec<((Unit, Unit), usize)> =
            quantity.unit_pairs().into_iter().map(|p| (p, 0)).collect();
        assert_eq!(game.level_per_unit_pair, expected);
        let shown = game.challenge.unit_pair();
        assert!(quantity
            .unit_pairs()
            .iter()
            .any(|p| Unit::pair_with(p.0, p.1) == shown));
    }
}

#[test]
fn levels_climb_on_temperature() {
    let pair = (Unit::Fahrenheit, Unit::Celsius);
    let mut game = Game::new_with_single_quantity(Quantity::Temperature);
    for level in 0..30 {
        assert_eq!(game.level_of(pair), Some(level));
        assert_eq!(game.challenge.unit_pair(), pair);
        let side = correct_side(&game.challenge);
        game.pick(side);
        assert!(game.in_progress);
        assert_eq!(game.level_of(pair), Some(level + 1));
    }
}

#[test]
fn a_wrong_pick_ends_the_game_for_good() {
    let mut game = Game::new_with_single_quantity(Quantity::Length);
    let side = wrong_side(&game.challenge);
    let levels = game.level_per_unit_pair.clone();
    game.pick(side);
    assert!(!game.in_progress);
    assert_eq!(game.level_per_unit_pair, levels);
    game.pick(ChoiceSelection::Left);
    assert!(!game.in_progress);
    game.pick(ChoiceSelection::Right);
    assert!(!game.in_progress);
    assert_eq!(game.level_per_unit_pair, levels);
}

#[test]
fn levels_are_kept_per_pair_in_either_order() {
    let mut game = Game::new_with_single_quantity(Quantity::Length);
    assert_eq!(game.level_of((Unit::Foot, Unit::Meter)), Some(0));
    assert_eq!(game.level_of((Unit::Meter, Unit::Foot)), Some(0));
    assert_eq!(game.level_of((Unit::Celsius, Unit::Fahrenheit)), None);
    let asked = game.challenge.unit_pair();
    let side = correct_side(&game.challenge);
    game.pick(side);
    assert_eq!(game.level_of(asked), Some(1));
    assert_eq!(game.level_per_unit_pair.len(), 4);
}

#[test]
fn exactly_one_side_is_correct() {
    for round in 0..10_000usize {
        let quantity = ALL_QUANTITIES[round % ALL_QUANTITIES.len()];
        let pairs = quantity.unit_pairs();
        let pair = pairs[round % pairs.len()];
        let level = round % 11;
        let challenge = Challenge::generate(pair, level);
        let left = challenge.is_correct(ChoiceSelection::Left);
        let right = challenge.is_correct(ChoiceSelection::Right);
        assert!(left != right, "{:?} at level {}: {:?}", pair, level, challenge);
    }
}

#[test]
fn generation_from_given_draws() {
    let pair = (Unit::Fahrenheit, Unit::Celsius);
    let c = Challenge::generate_with(pair, 0, 0, true, true);
    assert_eq!(c.left_choice.unit, Unit::Celsius);
    assert_eq!(c.left_choice.value, 46);
    assert!(c.left_choice.equivalent.same_value_as(&Ratio { num: 574, den: 5 }));
    assert_eq!(c.right_choice.unit, Unit::Fahrenheit);
    assert_eq!(c.right_choice.value, -40);
    assert!(c.right_choice.equivalent.same_value_as(&Ratio::from_int(-40)));
    assert!(c.is_correct(ChoiceSelection::Left));
    assert!(!c.is_correct(ChoiceSelection::Right));

    let c = Challenge::generate_with(pair, 0, 0, false, false);
    assert_eq!(c.right_choice.unit, Unit::Celsius);
    assert_eq!(c.right_choice.value, -40);
    assert_eq!(c.left_choice.unit, Unit::Fahrenheit);
    assert_eq!(c.left_choice.value, 115);
    assert!(c.is_correct(ChoiceSelection::Left));
    assert!(!c.is_correct(ChoiceSelection::Right));
}

#[test]
fn generated_values_stay_in_range() {
    for quantity in ALL_QUANTITIES {
        for pair in quantity.unit_pairs() {
            for level in [0usize, 1, 5, 20, 100] {
                for fraction in [0u32, 1 << 31, u32::MAX] {
                    for raise in [true, false] {
                        let c = Challenge::generate_with(pair, level, fraction, raise, true);
                        let bigger = c.left_choice.unit;
                        let low = bigger.min_value();
                        let high = bigger.max_value();
                        let v = c.left_choice.value as i128;
                        assert!(v * low.den >= low.num - low.den, "{:?}", c);
                        assert!(v * high.den <= high.num + high.den, "{:?}", c);
                    }
                }
            }
        }
    }
}

#[test]
fn unit_ranges() {
    let min = Unit::Fahrenheit.min_value();
    assert!(min.same_value_as(&Ratio::from_int(-40)));
    let max = Unit::Fahrenheit.max_value();
    assert!(max.same_value_as(&Ratio::from_int(122)));
    assert!(Unit::Meter.max_value().same_value_as(&Ratio { num: 6096, den: 100 }));
    assert!(Unit::NauticalMile.max_value().same_value_as(&Ratio { num: 999000, den: 1852 }));
    assert!(Unit::Kilometer.max_value().same_value_as(&Ratio::from_int(999)));
    assert!(Unit::Meter.min_value().same_value_as(&Ratio { num: 3048, den: 10000 }));
    assert!(Unit::Foot.min_value().same_value_as(&Ratio::from_int(1)));
    assert!(Unit::Celsius.min_value().same_value_as(&Ratio::from_int(-40)));
}

#[test]
fn derived_ranges_come_from_their_reference_units() {
    let derived = [
        (Unit::Fahrenheit, Unit::Celsius),
        (Unit::Meter, Unit::Foot),
        (Unit::Mile, Unit::Kilometer),
        (Unit::NauticalMile, Unit::Kilometer),
        (Unit::SquareMeter, Unit::SquareFoot),
        (Unit::Hectare, Unit::Acre),
        (Unit::FluidOunce, Unit::Millilitre),
        (Unit::Litre, Unit::Gallon),
        (Unit::Kilogram, Unit::Pound),
        (Unit::Calorie, Unit::Joule),
        (Unit::PoundPerSquareInch, Unit::Kilopascal),
    ];
    for (unit, reference) in derived {
        let min = convert(reference.min_value(), reference, unit).unwrap();
        let max = convert(reference.max_value(), reference, unit).unwrap();
        assert!(unit.min_value().same_value_as(&min), "{:?}", unit);
        assert!(unit.max_value().same_value_as(&max), "{:?}", unit);
    }
}

#[test]
fn widest_delta_reaches_its_floor_exactly_at_the_floor_level() {
    assert_eq!(FLOOR_LEVEL, 59);
    let before = Unit::Kilometer.level_delta(FLOOR_LEVEL - 1);
    assert!(before.num > before.den);
    let at = Unit::Kilometer.level_delta(FLOOR_LEVEL);
    assert_eq!((at.num, at.den), (MICROS, MICROS));
}

#[test]
fn level_delta_decays_to_one_unit() {
    let d0 = Unit::Celsius.level0_delta();
    assert_eq!((d0.num, d0.den), (42_857_142, MICROS));
    let d1 = Unit::Celsius.level_delta(1);
    assert_eq!((d1.num, d1.den), (38_571_427, MICROS));
    assert_eq!(Unit::Celsius.level_delta(0).num, 42_857_142);
    for unit in [Unit::Celsius, Unit::Mile, Unit::Hectare, Unit::PoundPerSquareInch] {
        let mut previous = unit.level_delta(0).num;
        for level in 1..200usize {
            let d = unit.level_delta(level);
            assert!(d.num <= previous);
            assert!(d.num >= d.den);
            if level >= FLOOR_LEVEL {
                assert_eq!(d.num, d.den);
            }
            previous = d.num;
        }
        assert_eq!(unit.level_delta(usize::MAX).num, MICROS);
    }
}

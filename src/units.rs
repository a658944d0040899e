use core::cmp::Ordering;

use vstd::prelude::*;

verus! {

/// A physical dimension, grouping units that convert into one another.
#[derive(Clone, Copy, Debug, PartialEq, Eq, Structural, Hash)]
pub enum Quantity {
    Temperature,
    Length,
    Area,
    Volume,
    Mass,
    Energy,
    Pressure,
}

/// A unit of measurement.
///
/// Units are ordered by how much real-world change one step of the unit represents: a
/// Fahrenheit degree is a smaller change than a Celsius degree, a foot smaller than a meter.
/// The order is the order of declaration, across all quantities.
#[derive(Clone, Copy, Debug, PartialEq, Eq, Structural, Hash, Ord)]
pub enum Unit {
    // Temperature
    Fahrenheit,
    Celsius,
    // Length
    Foot,
    Meter,
    Kilometer,
    Mile,
    NauticalMile,
    // Area
    SquareFoot,
    SquareMeter,
    Acre,
    Hectare,
    // Volume
    Millilitre,
    FluidOunce,
    Litre,
    Gallon,
    // Mass
    Pound,
    Kilogram,
    // Energy
    Joule,
    Calorie,
    // Pressure
    Kilopascal,
    PoundPerSquareInch,
}

/// Position of a unit in the granularity order.
pub open spec fn rank(u: Unit) -> int {
    match u {
        Unit::Fahrenheit => 0,
        Unit::Celsius => 1,
        Unit::Foot => 2,
        Unit::Meter => 3,
        Unit::Kilometer => 4,
        Unit::Mile => 5,
        Unit::NauticalMile => 6,
        Unit::SquareFoot => 7,
        Unit::SquareMeter => 8,
        Unit::Acre => 9,
        Unit::Hectare => 10,
        Unit::Millilitre => 11,
        Unit::FluidOunce => 12,
        Unit::Litre => 13,
        Unit::Gallon => 14,
        Unit::Pound => 15,
        Unit::Kilogram => 16,
        Unit::Joule => 17,
        Unit::Calorie => 18,
        Unit::Kilopascal => 19,
        Unit::PoundPerSquareInch => 20,
    }
}

impl Unit {
    fn position(&self) -> (r: u8)
        ensures
            r == rank(*self),
    {
        match self {
            Unit::Fahrenheit => 0,
            Unit::Celsius => 1,
            Unit::Foot => 2,
            Unit::Meter => 3,
            Unit::Kilometer => 4,
            Unit::Mile => 5,
            Unit::NauticalMile => 6,
            Unit::SquareFoot => 7,
            Unit::SquareMeter => 8,
            Unit::Acre => 9,
            Unit::Hectare => 10,
            Unit::Millilitre => 11,
            Unit::FluidOunce => 12,
            Unit::Litre => 13,
            Unit::Gallon => 14,
            Unit::Pound => 15,
            Unit::Kilogram => 16,
            Unit::Joule => 17,
            Unit::Calorie => 18,
            Unit::Kilopascal => 19,
            Unit::PoundPerSquareInch => 20,
        }
    }
}

/// The order of two units by rank.
pub open spec fn unit_order(a: Unit, b: Unit) -> Ordering {
    if rank(a) < rank(b) {
        Ordering::Less
    } else if rank(a) == rank(b) {
        Ordering::Equal
    } else {
        Ordering::Greater
    }
}

impl PartialOrd for Unit {
    fn partial_cmp(&self, other: &Unit) -> (r: Option<Ordering>)
        ensures
            r == Some(unit_order(*self, *other)),
    {
        let a = self.position();
        let b = other.position();
        if a < b {
            Some(Ordering::Less)
        } else if a == b {
            Some(Ordering::Equal)
        } else {
            Some(Ordering::Greater)
        }
    }
}

impl vstd::std_specs::cmp::PartialOrdSpecImpl for Unit {
    open spec fn obeys_partial_cmp_spec() -> bool {
        true
    }

    open spec fn partial_cmp_spec(&self, other: &Unit) -> Option<Ordering> {
        Some(unit_order(*self, *other))
    }
}

/// The unit pair `(a, b)` put in order: the finer unit first.
pub open spec fn ordered_pair(a: Unit, b: Unit) -> (Unit, Unit) {
    if rank(a) < rank(b) {
        (a, b)
    } else {
        (b, a)
    }
}

/// Two unit pairs name the same pair of units, in either order.
pub open spec fn same_pair(p: (Unit, Unit), q: (Unit, Unit)) -> bool {
    p == q || p == (q.1, q.0)
}

/// The short symbol of a unit, as shown to the player.
pub open spec fn symbol_of(u: Unit) -> Seq<char> {
    match u {
        Unit::Fahrenheit => "F"@,
        Unit::Celsius => "C"@,
        Unit::Foot => "ft"@,
        Unit::Meter => "m"@,
        Unit::Kilometer => "km"@,
        Unit::Mile => "mi"@,
        Unit::NauticalMile => "NM"@,
        Unit::SquareFoot => "sq ft"@,
        Unit::SquareMeter => "m^2"@,
        Unit::Acre => "acre"@,
        Unit::Hectare => "ha"@,
        Unit::Millilitre => "mL"@,
        Unit::FluidOunce => "fl oz"@,
        Unit::Litre => "L"@,
        Unit::Gallon => "gal"@,
        Unit::Pound => "lb"@,
        Unit::Kilogram => "kg"@,
        Unit::Joule => "J"@,
        Unit::Calorie => "cal"@,
        Unit::Kilopascal => "kPa"@,
        Unit::PoundPerSquareInch => "psi"@,
    }
}

impl Unit {
    /// The pair of `self` and `other`, finer unit first.
    pub fn pair_with(self, other: Self) -> (r: (Self, Self))
        ensures
            r == ordered_pair(self, other),
    {
        if self < other {
            (self, other)
        } else {
            (other, self)
        }
    }

    /// The unit's symbol, such as `km` or `fl oz`.
    pub fn symbol(&self) -> (r: String)
        ensures
            r@ == symbol_of(*self),
    {
        let s: &str = match self {
            Unit::Fahrenheit => "F",
            Unit::Celsius => "C",
            Unit::Foot => "ft",
            Unit::Meter => "m",
            Unit::Kilometer => "km",
            Unit::Mile => "mi",
            Unit::NauticalMile => "NM",
            Unit::SquareFoot => "sq ft",
            Unit::SquareMeter => "m^2",
            Unit::Acre => "acre",
            Unit::Hectare => "ha",
            Unit::Millilitre => "mL",
            Unit::FluidOunce => "fl oz",
            Unit::Litre => "L",
            Unit::Gallon => "gal",
            Unit::Pound => "lb",
            Unit::Kilogram => "kg",
            Unit::Joule => "J",
            Unit::Calorie => "cal",
            Unit::Kilopascal => "kPa",
            Unit::PoundPerSquareInch => "psi",
        };
        s.to_owned()
    }
}

/// The unit pairs that a game on `q` asks about.
pub open spec fn pairs_of(q: Quantity) -> Seq<(Unit, Unit)> {
    match q {
        Quantity::Temperature => seq![ordered_pair(Unit::Celsius, Unit::Fahrenheit)],
        Quantity::Length => seq![
            (Unit::Meter, Unit::Foot),
            (Unit::Kilometer, Unit::Mile),
            (Unit::Kilometer, Unit::NauticalMile),
            (Unit::NauticalMile, Unit::Mile),
        ],
        Quantity::Area => seq![(Unit::SquareFoot, Unit::SquareMeter), (Unit::Hectare, Unit::Acre)],
        Quantity::Volume => seq![(Unit::Millilitre, Unit::FluidOunce), (Unit::Gallon, Unit::Litre)],
        Quantity::Mass => seq![(Unit::Kilogram, Unit::Pound)],
        Quantity::Energy => seq![(Unit::Calorie, Unit::Joule)],
        Quantity::Pressure => seq![(Unit::Kilopascal, Unit::PoundPerSquareInch)],
    }
}

impl Quantity {
    /// The unit pairs of this quantity.
    pub fn unit_pairs(&self) -> (r: Vec<(Unit, Unit)>)
        ensures
            r@ == pairs_of(*self),
    {
        match self {
            Quantity::Temperature => vec![Unit::Celsius.pair_with(Unit::Fahrenheit)],
            Quantity::Length => vec![
                (Unit::Meter, Unit::Foot),
                (Unit::Kilometer, Unit::Mile),
                (Unit::Kilometer, Unit::NauticalMile),
                (Unit::NauticalMile, Unit::Mile),
            ],
            Quantity::Area => vec![(Unit::SquareFoot, Unit::SquareMeter), (Unit::Hectare, Unit::Acre)],
            Quantity::Volume => vec![(Unit::Millilitre, Unit::FluidOunce), (Unit::Gallon, Unit::Litre)],
            Quantity::Mass => vec![(Unit::Kilogram, Unit::Pound)],
            Quantity::Energy => vec![(Unit::Calorie, Unit::Joule)],
            Quantity::Pressure => vec![(Unit::Kilopascal, Unit::PoundPerSquareInch)],
        }
    }
}

/// The menu label of a quantity: the symbols of its best-known units.
pub open spec fn label_of(quantity: Quantity) -> Seq<char> {
    match quantity {
        Quantity::Temperature => "C/F"@,
        Quantity::Length => "km/M"@,
        Quantity::Area => "m^2/sq ft"@,
        Quantity::Volume => "L/fl oz"@,
        Quantity::Mass => "kg/lbs"@,
        Quantity::Energy => "cal/J"@,
        Quantity::Pressure => "psi/kPa"@,
    }
}

/// The menu label of `quantity`.
pub fn quantity_to_string(quantity: Quantity) -> (r: &'static str)
    ensures
        r@ == label_of(quantity),
{
    match quantity {
        Quantity::Temperature => "C/F",
        Quantity::Length => "km/M",
        Quantity::Area => "m^2/sq ft",
        Quantity::Volume => "L/fl oz",
        Quantity::Mass => "kg/lbs",
        Quantity::Energy => "cal/J",
        Quantity::Pressure => "psi/kPa",
    }
}

/// The icon shown for a quantity in the menu; one icon serves every quantity.
pub open spec fn icon_of(quantity: Quantity) -> Seq<char> {
    "assets/temperature.svg"@
}

/// The path of the menu icon of `quantity`.
pub fn quantity_to_icon_src(quantity: Quantity) -> (r: String)
    ensures
        r@ == icon_of(quantity),
{
    "assets/temperature.svg".to_owned()
}

} // verus!

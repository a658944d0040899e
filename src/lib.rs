//! A game of comparing quantities across units: each challenge shows two values in two units
//! of one quantity, such as a temperature in Celsius and one in Fahrenheit, and the player
//! picks the larger.
//!
//! - `ratio`: exact rational numbers.
//! - `units`: units, quantities, and the order of units by granularity.
//! - `conversion`: the conversion table, exact in both directions.
//! - `difficulty`: each unit's plausible range and the value gap per level.
//! - `challenge`: generating a challenge with exactly one correct side.
//! - `game`: levels per unit pair and the effect of each pick.

pub mod challenge;
pub mod conversion;
pub mod difficulty;
pub mod game;
pub mod ratio;
pub mod units;

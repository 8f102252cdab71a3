//! Simulation engine for repeated randomized draws ("rolls") from a
//! gacha-style multi-tier probability pool (a "banner").
//!
//! The engine draws rolls from a weighted outcome space with escalating
//! ("pity") probability, runs independent trials until an acquisition goal
//! is met, and aggregates the roll counts of the trials into a histogram.

use vstd::prelude::*;

pub mod banner;
pub mod codec;
pub mod controller;
pub mod goal;
pub mod histogram;
pub mod rng;
pub mod sim;
pub mod weighted_choice;

verus! {

/// The four item colors. The set is fixed and dense from ordinal 0,
/// so a color can index a four-element table.
#[derive(Copy, Clone, Debug, PartialEq, Eq, Structural)]
pub enum Color {
    Red,
    Blue,
    Green,
    Colorless,
}

/// The four rarity pools a single roll can land in. `Focus` and
/// `Fivestar` together form the top rarity tier; `Focus` alone counts
/// toward acquisition goals.
#[derive(Copy, Clone, Debug, PartialEq, Eq, Structural)]
pub enum Pool {
    Focus,
    Fivestar,
    Fourstar,
    Threestar,
}

/// Number of colors; every per-color table has exactly this length.
pub const NUM_COLORS: usize = 4;

impl Color {
    /// Ordinal of the color, used to index per-color tables.
    pub open spec fn ord(self) -> int {
        match self {
            Color::Red => 0,
            Color::Blue => 1,
            Color::Green => 2,
            Color::Colorless => 3,
        }
    }

    /// Executable ordinal; always below `NUM_COLORS`.
    pub fn index(self) -> (r: usize)
        ensures
            r == self.ord(),
            r < NUM_COLORS,
    {
        match self {
            Color::Red => 0,
            Color::Blue => 1,
            Color::Green => 2,
            Color::Colorless => 3,
        }
    }

    /// The color with the given ordinal, rejecting out-of-range values.
    pub fn try_from(value: u8) -> (r: Result<Color, ()>)
        ensures
            value < 4 ==> (r matches Ok(c) && c.ord() == value),
            value >= 4 ==> r is Err,
    {
        match value {
            0 => Ok(Color::Red),
            1 => Ok(Color::Blue),
            2 => Ok(Color::Green),
            3 => Ok(Color::Colorless),
            _ => Err(()),
        }
    }

    /// All colors, in ordinal order.
    pub fn all() -> (r: Vec<Color>)
        ensures
            r@.len() == NUM_COLORS,
            forall|i: int| 0 <= i < r@.len() ==> r@[i].ord() == i,
    {
        let mut v: Vec<Color> = Vec::new();
        v.push(Color::Red);
        v.push(Color::Blue);
        v.push(Color::Green);
        v.push(Color::Colorless);
        v
    }
}

impl Pool {
    /// Ordinal of the pool, used to flatten (pool, color) outcome tables.
    pub open spec fn ord(self) -> int {
        match self {
            Pool::Focus => 0,
            Pool::Fivestar => 1,
            Pool::Fourstar => 2,
            Pool::Threestar => 3,
        }
    }

    /// The pool with the given ordinal, rejecting out-of-range values.
    pub fn try_from(value: u8) -> (r: Result<Pool, ()>)
        ensures
            value < 4 ==> (r matches Ok(p) && p.ord() == value),
            value >= 4 ==> r is Err,
    {
        match value {
            0 => Ok(Pool::Focus),
            1 => Ok(Pool::Fivestar),
            2 => Ok(Pool::Fourstar),
            3 => Ok(Pool::Threestar),
            _ => Err(()),
        }
    }
}

} // verus!

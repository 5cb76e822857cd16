//! Server difficulty settings.

use vstd::prelude::*;

verus! {

/// The server difficulty level.
#[derive(Debug, Clone, Copy, PartialEq, Eq, Structural)]
pub enum Difficulty {
    /// Peaceful - no hostile mobs spawn, health regenerates.
    Peaceful,
    /// Easy - hostile mobs deal less damage.
    Easy,
    /// Normal - default difficulty.
    Normal,
    /// Hard - hostile mobs deal more damage, can break doors.
    Hard,
}

/// The id of a difficulty on the wire.
pub open spec fn difficulty_id(d: Difficulty) -> u8 {
    match d {
        Difficulty::Peaceful => 0,
        Difficulty::Easy => 1,
        Difficulty::Normal => 2,
        Difficulty::Hard => 3,
    }
}

impl Difficulty {
    /// Returns true if this is peaceful difficulty.
    pub fn is_peaceful(self) -> (r: bool)
        ensures
            r == (self == Difficulty::Peaceful),
    {
        match self {
            Difficulty::Peaceful => true,
            _ => false,
        }
    }

    /// The id of this difficulty (0 for peaceful up to 3 for hard).
    pub fn id(self) -> (r: u8)
        ensures
            r == difficulty_id(self),
    {
        match self {
            Difficulty::Peaceful => 0,
            Difficulty::Easy => 1,
            Difficulty::Normal => 2,
            Difficulty::Hard => 3,
        }
    }
}

impl Default for Difficulty {
    /// Normal is the default difficulty.
    fn default() -> (r: Self)
        ensures
            r == Difficulty::Normal,
    {
        Difficulty::Normal
    }
}

} // verus!

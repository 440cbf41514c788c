use vstd::prelude::*;

use crate::state::Difficulty;

verus! {

/// The classic difficulty a menu level number stands for.
pub open spec fn spec_difficulty_from_level(level: u8) -> Difficulty {
    if level == 1 {
        Difficulty::Easy
    } else if level == 2 {
        Difficulty::Medium
    } else if level == 3 {
        Difficulty::Hard
    } else {
        Difficulty::Impossible
    }
}

pub fn difficulty_from_level(level: u8) -> (r: Difficulty)
    ensures
        r == spec_difficulty_from_level(level),
{
    match level {
        1 => Difficulty::Easy,
        2 => Difficulty::Medium,
        3 => Difficulty::Hard,
        _ => Difficulty::Impossible,
    }
}

} // verus!

use vstd::prelude::*;

use crate::classic_penalties::with_pressure_cleared;
use crate::state::{AppState, Difficulty};
use crate::text::{chars_to_string, push_u64_chars, spec_num_chars, str_to_chars};

verus! {

/// Level every endless run starts at.
pub const START_LEVEL: u8 = 1;

/// Last round played on the Easy-equivalent tier.
pub const EASY_END_ROUND: u32 = 3;

/// Last round played on the Normal-equivalent tier.
pub const NORMAL_END_ROUND: u32 = 6;

/// Last round played on the Hard-equivalent tier.
pub const HARD_END_ROUND: u32 = 10;

/// First round played on the Hard-equivalent tier.
pub const HARD_START_ROUND: u32 = 7;

/// First round played on the Expert-equivalent tier.
pub const EXPERT_START_ROUND: u32 = 11;

/// Report of a level change produced by advancing the round counter.
#[derive(Clone, Copy, Debug, PartialEq, Eq, Structural)]
pub struct LevelUpEvent {
    pub from_level: u8,
    pub to_level: u8,
    pub round: u32,
}

/// `x + 1`, saturating at the type's maximum.
pub open spec fn sat_inc_u32(x: u32) -> u32 {
    if x == u32::MAX {
        u32::MAX
    } else {
        (x + 1) as u32
    }
}

pub open spec fn spec_is_infinite(difficulty: Difficulty) -> bool {
    difficulty == Difficulty::RecallMode
}

pub fn is_infinite(difficulty: Difficulty) -> (r: bool)
    ensures
        r == spec_is_infinite(difficulty),
{
    difficulty == Difficulty::RecallMode
}

/// Difficulty level a given round is played at: rounds 1-3 level 1, 4-6
/// level 2, 7-10 level 3, all later rounds level 4.
pub open spec fn spec_level_for_round(round: u32) -> u8 {
    if round <= EASY_END_ROUND {
        1
    } else if round <= NORMAL_END_ROUND {
        2
    } else if round <= HARD_END_ROUND {
        3
    } else {
        4
    }
}

pub fn level_for_round(round: u32) -> (r: u8)
    ensures
        r == spec_level_for_round(round),
{
    if round <= EASY_END_ROUND {
        1
    } else if round <= NORMAL_END_ROUND {
        2
    } else if round <= HARD_END_ROUND {
        3
    } else {
        4
    }
}

/// The classic tier whose penalty thresholds apply at a given round.
pub open spec fn spec_classic_difficulty_for_round(round: u32) -> Difficulty {
    if round <= EASY_END_ROUND {
        Difficulty::Easy
    } else if round <= NORMAL_END_ROUND {
        Difficulty::Medium
    } else if round <= HARD_END_ROUND {
        Difficulty::Hard
    } else {
        Difficulty::Impossible
    }
}

pub fn classic_difficulty_for_round(round: u32) -> (r: Difficulty)
    ensures
        r == spec_classic_difficulty_for_round(round),
{
    if round <= EASY_END_ROUND {
        Difficulty::Easy
    } else if round <= NORMAL_END_ROUND {
        Difficulty::Medium
    } else if round <= HARD_END_ROUND {
        Difficulty::Hard
    } else {
        Difficulty::Impossible
    }
}

/// Rounds survived within the Hard-equivalent tier, counted from its first
/// round: the round the tier is entered counts as zero survival.
pub open spec fn spec_hard_survival_rounds(round: u32) -> u32 {
    if round <= HARD_START_ROUND {
        0
    } else {
        (round - HARD_START_ROUND) as u32
    }
}

pub fn hard_survival_rounds(round: u32) -> (r: u32)
    ensures
        r == spec_hard_survival_rounds(round),
{
    if round <= HARD_START_ROUND {
        0
    } else {
        round - HARD_START_ROUND
    }
}

/// Rounds survived within the Expert-equivalent tier, counted from its
/// first round: the round the tier is entered counts as zero survival.
pub open spec fn spec_expert_survival_rounds(round: u32) -> u32 {
    if round <= EXPERT_START_ROUND {
        0
    } else {
        (round - EXPERT_START_ROUND) as u32
    }
}

pub fn expert_survival_rounds(round: u32) -> (r: u32)
    ensures
        r == spec_expert_survival_rounds(round),
{
    if round <= EXPERT_START_ROUND {
        0
    } else {
        round - EXPERT_START_ROUND
    }
}

pub open spec fn spec_level_name(level: u8) -> Seq<char> {
    if level <= 1 {
        "Easy"@
    } else if level == 2 {
        "Normal"@
    } else if level == 3 {
        "Hard"@
    } else {
        "Expert"@
    }
}

pub fn level_name(level: u8) -> (r: &'static str)
    ensures
        r@ == spec_level_name(level),
{
    if level <= 1 {
        "Easy"
    } else if level == 2 {
        "Normal"
    } else if level == 3 {
        "Hard"
    } else {
        "Expert"
    }
}

/// Level the next round would be played at.
pub fn projected_level_for_next_round(st: &AppState) -> (r: u8)
    ensures
        r == spec_level_for_round(sat_inc_u32(st.infinite_round)),
{
    if st.infinite_round == u32::MAX {
        level_for_round(u32::MAX)
    } else {
        level_for_round(st.infinite_round + 1)
    }
}

/// Put the state at the start of a fresh endless run: level 1 grid shape
/// and the round counter back at 1. The board itself is not rebuilt here.
pub fn prepare_start(st: &mut AppState)
    ensures
        *final(st) == (AppState {
            recall_level: 1,
            grid_cols: 3,
            grid_rows: 4,
            match_size: 2,
            infinite_round: 1,
            ..*old(st)
        }),
{
    st.apply_infinite_level_without_reset(START_LEVEL);
    st.reset_infinite_round();
}

/// Full transition of advancing the endless round counter: bump the round,
/// drop penalty pressure when the applicable classic tier changes, adopt the
/// new level's grid shape and report the level change when the level changes.
pub open spec fn spec_advance_round(st: AppState) -> (AppState, Option<LevelUpEvent>) {
    if st.difficulty != Difficulty::RecallMode {
        (st, None)
    } else {
        let prev_cd = spec_classic_difficulty_for_round(st.infinite_round);
        let prev_level = st.recall_level;
        let new_round = sat_inc_u32(st.infinite_round);
        let s1 = AppState { infinite_round: new_round, ..st };
        let s2 = if spec_classic_difficulty_for_round(new_round) != prev_cd {
            with_pressure_cleared(s1)
        } else {
            s1
        };
        let target = spec_level_for_round(new_round);
        if target != prev_level {
            let shape = AppState::spec_recall_config(target);
            (
                AppState {
                    recall_level: target,
                    grid_cols: shape.0,
                    grid_rows: shape.1,
                    match_size: shape.2,
                    ..s2
                },
                Some(LevelUpEvent { from_level: prev_level, to_level: target, round: new_round }),
            )
        } else {
            (s2, None)
        }
    }
}

/// Advance the endless round counter and apply the tier and level changes
/// the new round calls for.
pub fn advance_round(st: &mut AppState) -> (r: Option<LevelUpEvent>)
    ensures
        (*final(st), r) == spec_advance_round(*old(st)),
{
    if !is_infinite(st.difficulty) {
        return None;
    }

    let previous_classic_difficulty = classic_difficulty_for_round(st.infinite_round);
    let previous_level = st.recall_level;
    st.advance_infinite_round();
    let next_classic_difficulty = classic_difficulty_for_round(st.infinite_round);
    if !(next_classic_difficulty == previous_classic_difficulty) {
        st.reset_impossible_pressure();
    }
    let target_level = level_for_round(st.infinite_round);
    if !(target_level == previous_level) {
        st.apply_infinite_level_without_reset(target_level);
        return Some(LevelUpEvent {
            from_level: previous_level,
            to_level: target_level,
            round: st.infinite_round,
        });
    }

    None
}

/// The milestone a round reaches, if any: on the Hard- or Expert-equivalent
/// tier, every fifth round survived within that tier.
pub open spec fn spec_infinite_milestone_value(round: u32) -> Option<(Difficulty, u32)> {
    let d = spec_classic_difficulty_for_round(round);
    if d == Difficulty::Hard {
        let s = spec_hard_survival_rounds(round);
        if s > 0 && s % 5 == 0 {
            Some((Difficulty::Hard, s))
        } else {
            None
        }
    } else if d == Difficulty::Impossible {
        let s = spec_expert_survival_rounds(round);
        if s > 0 && s % 5 == 0 {
            Some((Difficulty::Impossible, s))
        } else {
            None
        }
    } else {
        None
    }
}

pub fn infinite_milestone_value(round: u32) -> (r: Option<(Difficulty, u32)>)
    ensures
        r == spec_infinite_milestone_value(round),
{
    match classic_difficulty_for_round(round) {
        Difficulty::Hard => {
            let hard_survival = hard_survival_rounds(round);
            if hard_survival > 0 && hard_survival % 5 == 0 {
                Some((Difficulty::Hard, hard_survival))
            } else {
                None
            }
        },
        Difficulty::Impossible => {
            let expert_survival = expert_survival_rounds(round);
            if expert_survival > 0 && expert_survival % 5 == 0 {
                Some((Difficulty::Impossible, expert_survival))
            } else {
                None
            }
        },
        _ => None,
    }
}

/// A milestone fires exactly on the Hard- and Expert-equivalent tiers, at a
/// positive survival count divisible by five; it never fires in the round
/// the tier is entered.
pub proof fn lemma_milestone_firing(round: u32)
    ensures
        spec_infinite_milestone_value(round) is Some <==> {
            let d = spec_classic_difficulty_for_round(round);
            ||| (d == Difficulty::Hard && spec_hard_survival_rounds(round) > 0
                && spec_hard_survival_rounds(round) % 5 == 0)
            ||| (d == Difficulty::Impossible && spec_expert_survival_rounds(round) > 0
                && spec_expert_survival_rounds(round) % 5 == 0)
        },
        spec_infinite_milestone_value(round) matches Some(m) ==> m == (
        spec_classic_difficulty_for_round(round),
        if spec_classic_difficulty_for_round(round) == Difficulty::Hard {
            spec_hard_survival_rounds(round)
        } else {
            spec_expert_survival_rounds(round)
        },
        ),
{
}

/// Label of the current endless round for the header: the deep tiers show
/// the survival streak, earlier ones the plain round number.
pub fn mode_label(st: &AppState) -> (r: String)
    ensures
        ({
            let round = st.infinite_round;
            if spec_classic_difficulty_for_round(round) == Difficulty::Impossible {
                r@ == "Infinite Expert Survival "@ + spec_num_chars(
                    spec_expert_survival_rounds(round) as nat,
                )
            } else if st.recall_level >= 3 {
                r@ == "Infinite Hard Survival "@ + spec_num_chars(
                    spec_hard_survival_rounds(round) as nat,
                )
            } else {
                r@ == "Infinite Round "@ + spec_num_chars(round as nat)
            }
        }),
{
    if classic_difficulty_for_round(st.infinite_round) == Difficulty::Impossible {
        let mut out = str_to_chars("Infinite Expert Survival ");
        push_u64_chars(expert_survival_rounds(st.infinite_round) as u64, &mut out);
        chars_to_string(&out)
    } else if st.recall_level >= 3 {
        let mut out = str_to_chars("Infinite Hard Survival ");
        push_u64_chars(hard_survival_rounds(st.infinite_round) as u64, &mut out);
        chars_to_string(&out)
    } else {
        let mut out = str_to_chars("Infinite Round ");
        push_u64_chars(st.infinite_round as u64, &mut out);
        chars_to_string(&out)
    }
}

} // verus!

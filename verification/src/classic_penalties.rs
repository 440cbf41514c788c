use vstd::prelude::*;

use crate::state::{AppState, Difficulty};

verus! {

/// Cumulative mismatches that fire punishment on the Expert tier.
pub const MISMATCH_THRESHOLD: u8 = 3;

/// Cumulative mismatches that fire punishment on the Normal tier.
pub const MEDIUM_MISMATCH_THRESHOLD: u8 = 5;

/// Cumulative mismatches that fire punishment on the Hard tier.
pub const HARD_MISMATCH_THRESHOLD: u8 = 2;

pub const HARD_RESHUFFLE_REVEAL_MS: u64 = 950;

/// One punishment event: how many hidden tiles to force-reveal (or all of
/// them), for how long, and whether the hidden tiles are reshuffled first.
#[derive(Clone, Copy, Debug, PartialEq, Eq, Structural)]
pub struct PunishmentPlan {
    pub reveal_count: usize,
    pub reveal_ms: u64,
    pub reshuffle_hidden: bool,
    pub reveal_all_hidden: bool,
    pub source_difficulty: Difficulty,
}

pub open spec fn spec_is_expert(difficulty: Difficulty) -> bool {
    difficulty == Difficulty::Impossible
}

pub fn is_expert(difficulty: Difficulty) -> (r: bool)
    ensures
        r == spec_is_expert(difficulty),
{
    difficulty == Difficulty::Impossible
}

pub open spec fn spec_mismatch_pause_ms(difficulty: Difficulty) -> u64 {
    if difficulty == Difficulty::Easy {
        750
    } else {
        500
    }
}

/// How long mismatched tiles stay face up before they flip back.
pub fn mismatch_pause_ms(difficulty: Difficulty) -> (r: u64)
    ensures
        r == spec_mismatch_pause_ms(difficulty),
{
    match difficulty {
        Difficulty::Easy => 750,
        _ => 500,
    }
}

/// `x + 1`, saturating at the type's maximum.
pub open spec fn sat_inc_u8(x: u8) -> u8 {
    if x == 255 {
        255
    } else {
        (x + 1) as u8
    }
}

/// The state with all penalty pressure dropped.
pub open spec fn with_pressure_cleared(st: AppState) -> AppState {
    AppState {
        impossible_mismatch_count: 0,
        impossible_punish_stage: 0,
        impossible_last_first_index: None,
        impossible_same_first_streak: 0,
        ..st
    }
}

/// Expert punishment severity by escalation stage: the first strike reveals
/// 7 tiles for 650 ms, the second 5 for 540 ms, all later ones 4 for 430 ms.
pub open spec fn expert_stage_plan(stage: u8, source: Difficulty) -> PunishmentPlan {
    if stage == 1 {
        PunishmentPlan {
            reveal_count: 7,
            reveal_ms: 650,
            reshuffle_hidden: true,
            reveal_all_hidden: false,
            source_difficulty: source,
        }
    } else if stage == 2 {
        PunishmentPlan {
            reveal_count: 5,
            reveal_ms: 540,
            reshuffle_hidden: true,
            reveal_all_hidden: false,
            source_difficulty: source,
        }
    } else {
        PunishmentPlan {
            reveal_count: 4,
            reveal_ms: 430,
            reshuffle_hidden: true,
            reveal_all_hidden: false,
            source_difficulty: source,
        }
    }
}

/// Full transition of the classic penalty engine on one mismatch: the state
/// afterwards and the punishment fired, if any.
pub open spec fn spec_register_mismatch(st: AppState, first_pick_index: usize, difficulty: Difficulty) -> (
    AppState,
    Option<PunishmentPlan>,
) {
    if difficulty == Difficulty::Medium {
        let c = sat_inc_u8(st.impossible_mismatch_count);
        if c < MEDIUM_MISMATCH_THRESHOLD {
            (AppState { impossible_mismatch_count: c, ..st }, None)
        } else {
            (
                with_pressure_cleared(st),
                Some(
                    PunishmentPlan {
                        reveal_count: 2,
                        reveal_ms: 320,
                        reshuffle_hidden: true,
                        reveal_all_hidden: false,
                        source_difficulty: difficulty,
                    },
                ),
            )
        }
    } else if difficulty == Difficulty::Hard {
        let c = sat_inc_u8(st.impossible_mismatch_count);
        if c < HARD_MISMATCH_THRESHOLD {
            (AppState { impossible_mismatch_count: c, ..st }, None)
        } else {
            (
                with_pressure_cleared(st),
                Some(
                    PunishmentPlan {
                        reveal_count: 0,
                        reveal_ms: HARD_RESHUFFLE_REVEAL_MS,
                        reshuffle_hidden: true,
                        reveal_all_hidden: true,
                        source_difficulty: difficulty,
                    },
                ),
            )
        }
    } else if difficulty == Difficulty::Impossible {
        let last = if st.impossible_last_first_index == Some(first_pick_index) {
            st.impossible_last_first_index
        } else {
            Some(first_pick_index)
        };
        let streak = if st.impossible_last_first_index == Some(first_pick_index) {
            sat_inc_u8(st.impossible_same_first_streak)
        } else {
            1u8
        };
        let c = sat_inc_u8(st.impossible_mismatch_count);
        if c >= MISMATCH_THRESHOLD || streak >= 2 {
            let stage = sat_inc_u8(st.impossible_punish_stage);
            (
                AppState {
                    impossible_mismatch_count: 0,
                    impossible_punish_stage: stage,
                    impossible_last_first_index: None,
                    impossible_same_first_streak: 0,
                    ..st
                },
                Some(expert_stage_plan(stage, difficulty)),
            )
        } else {
            (
                AppState {
                    impossible_mismatch_count: c,
                    impossible_last_first_index: last,
                    impossible_same_first_streak: streak,
                    ..st
                },
                None,
            )
        }
    } else {
        (st, None)
    }
}

/// Count one mismatch against the given classic tier and decide whether an
/// escalating punishment fires now. Easy never punishes; Normal fires every
/// 5th mismatch (reveal 2 for 320 ms); Hard every 2nd (reshuffle and reveal
/// all hidden tiles for 950 ms); Expert fires on 3 cumulative mismatches or
/// on a repeated first pick, with stage-based severity.
pub fn register_mismatch_and_plan_reshuffle_for(
    st: &mut AppState,
    first_pick_index: usize,
    difficulty: Difficulty,
) -> (r: Option<PunishmentPlan>)
    ensures
        (*final(st), r) == spec_register_mismatch(*old(st), first_pick_index, difficulty),
{
    match difficulty {
        Difficulty::Easy => return None,
        Difficulty::Medium => {
            st.impossible_mismatch_count = saturating_inc_u8(st.impossible_mismatch_count);
            if st.impossible_mismatch_count < MEDIUM_MISMATCH_THRESHOLD {
                return None;
            }
            st.reset_impossible_pressure();
            return Some(PunishmentPlan {
                reveal_count: 2,
                reveal_ms: 320,
                reshuffle_hidden: true,
                reveal_all_hidden: false,
                source_difficulty: difficulty,
            });
        },
        Difficulty::Hard => {
            st.impossible_mismatch_count = saturating_inc_u8(st.impossible_mismatch_count);
            if st.impossible_mismatch_count < HARD_MISMATCH_THRESHOLD {
                return None;
            }
            st.reset_impossible_pressure();
            return Some(PunishmentPlan {
                reveal_count: 0,
                reveal_ms: HARD_RESHUFFLE_REVEAL_MS,
                reshuffle_hidden: true,
                reveal_all_hidden: true,
                source_difficulty: difficulty,
            });
        },
        Difficulty::Impossible => {},
        _ => return None,
    }

    let same_first = match st.impossible_last_first_index {
        Some(prev) => prev == first_pick_index,
        None => false,
    };
    if same_first {
        st.impossible_same_first_streak = saturating_inc_u8(st.impossible_same_first_streak);
    } else {
        st.impossible_last_first_index = Some(first_pick_index);
        st.impossible_same_first_streak = 1;
    }

    st.impossible_mismatch_count = saturating_inc_u8(st.impossible_mismatch_count);
    let threshold_hit = st.impossible_mismatch_count >= MISMATCH_THRESHOLD;
    let repeated_first_hit = st.impossible_same_first_streak >= 2;
    let should_punish = threshold_hit || repeated_first_hit;

    if !should_punish {
        return None;
    }

    st.impossible_mismatch_count = 0;
    st.impossible_same_first_streak = 0;
    st.impossible_last_first_index = None;
    st.impossible_punish_stage = saturating_inc_u8(st.impossible_punish_stage);

    let (reveal_count, reveal_ms): (usize, u64) = if st.impossible_punish_stage == 1 {
        (7, 650)
    } else if st.impossible_punish_stage == 2 {
        (5, 540)
    } else {
        (4, 430)
    };

    Some(PunishmentPlan {
        reveal_count,
        reveal_ms,
        reshuffle_hidden: true,
        reveal_all_hidden: false,
        source_difficulty: difficulty,
    })
}

/// `x + 1`, saturating at the type's maximum.
fn saturating_inc_u8(x: u8) -> (r: u8)
    ensures
        r == sat_inc_u8(x),
{
    if x == 255 {
        255
    } else {
        x + 1
    }
}

/// A successful match drops the accumulated pressure on the tiers that
/// track any (Normal, Hard, Expert); Easy has none to drop.
pub fn reset_penalty_after_match_for(st: &mut AppState, difficulty: Difficulty)
    ensures
        (difficulty == Difficulty::Medium || difficulty == Difficulty::Hard || difficulty
            == Difficulty::Impossible) ==> *final(st) == with_pressure_cleared(*old(st)),
        !(difficulty == Difficulty::Medium || difficulty == Difficulty::Hard || difficulty
            == Difficulty::Impossible) ==> *final(st) == *old(st),
{
    match difficulty {
        Difficulty::Medium | Difficulty::Hard | Difficulty::Impossible => {
            st.reset_impossible_pressure();
        },
        _ => {},
    }
}

/// On the Expert tier, three consecutive mismatches with no repeated first
/// pick build up the cumulative counter and only the third fires, at stage
/// one (reveal 7 for 650 ms); a second full such cycle fires at stage two
/// (reveal 5 for 540 ms).
pub proof fn lemma_expert_penalty_monotonic(
    st: AppState,
    p1: usize,
    p2: usize,
    p3: usize,
    p4: usize,
    p5: usize,
    p6: usize,
)
    requires
        st.pressure_cleared(),
        p1 != p2,
        p2 != p3,
        p4 != p5,
        p5 != p6,
    ensures
        ({
            let (s1, r1) = spec_register_mismatch(st, p1, Difficulty::Impossible);
            let (s2, r2) = spec_register_mismatch(s1, p2, Difficulty::Impossible);
            let (s3, r3) = spec_register_mismatch(s2, p3, Difficulty::Impossible);
            let (s4, r4) = spec_register_mismatch(s3, p4, Difficulty::Impossible);
            let (s5, r5) = spec_register_mismatch(s4, p5, Difficulty::Impossible);
            let (s6, r6) = spec_register_mismatch(s5, p6, Difficulty::Impossible);
            &&& r1 is None
            &&& r2 is None
            &&& r3 == Some(expert_stage_plan(1, Difficulty::Impossible))
            &&& s3.impossible_punish_stage == 1
            &&& r4 is None
            &&& r5 is None
            &&& r6 == Some(expert_stage_plan(2, Difficulty::Impossible))
            &&& s6.impossible_punish_stage == 2
        }),
{
}

/// On the Expert tier, two consecutive mismatches that start from the same
/// tile fire punishment even though the cumulative mismatch counter is still
/// below its threshold.
pub proof fn lemma_repeated_first_pick_trigger(st: AppState, p: usize)
    requires
        st.impossible_mismatch_count == 0,
        st.impossible_same_first_streak == 0,
        st.impossible_last_first_index is None,
    ensures
        ({
            let (s1, r1) = spec_register_mismatch(st, p, Difficulty::Impossible);
            let (s2, r2) = spec_register_mismatch(s1, p, Difficulty::Impossible);
            &&& r1 is None
            &&& s1.impossible_mismatch_count < MISMATCH_THRESHOLD
            &&& s2.impossible_mismatch_count == 0
            &&& r2 == Some(
                expert_stage_plan(sat_inc_u8(st.impossible_punish_stage), Difficulty::Impossible),
            )
        }),
{
}

} // verus!

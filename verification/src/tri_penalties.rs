use vstd::prelude::*;

use crate::board::{count_hidden, hidden_values};
use crate::classic_penalties::{sat_inc_u8, with_pressure_cleared, PunishmentPlan};
use crate::state::{AppState, Difficulty};

verus! {

/// Cumulative mismatches that fire punishment at Tri level 2.
pub const TRI_NORMAL_MISMATCH_THRESHOLD: u8 = 5;

/// Cumulative mismatches that fire punishment at Tri level 3.
pub const TRI_HARD_MISMATCH_THRESHOLD: u8 = 3;

/// Cumulative mismatches that fire punishment at Tri level 4.
pub const TRI_EXPERT_MISMATCH_THRESHOLD: u8 = 3;

pub open spec fn spec_tri_mismatch_pause_ms(level: u8) -> u64 {
    if level <= 1 {
        800
    } else if level == 2 {
        650
    } else if level == 3 {
        550
    } else {
        500
    }
}

/// How long mismatched tiles stay face up on a Tri board at the given level.
pub fn mismatch_pause_ms(level: u8) -> (r: u64)
    ensures
        r == spec_tri_mismatch_pause_ms(level),
{
    if level <= 1 {
        800
    } else if level == 2 {
        650
    } else if level == 3 {
        550
    } else {
        500
    }
}

/// Tri level-4 punishment severity by escalation stage, with the reveal
/// count capped by the number of tiles actually hidden: the first strike
/// asks for 9 tiles for 700 ms, the second 7 for 590 ms, later ones 5 for
/// 480 ms.
pub open spec fn tri_stage_plan(stage: u8, hidden_count: nat) -> PunishmentPlan {
    let base: nat = if stage == 1 {
        9
    } else if stage == 2 {
        7
    } else {
        5
    };
    let ms: u64 = if stage == 1 {
        700
    } else if stage == 2 {
        590
    } else {
        480
    };
    PunishmentPlan {
        reveal_count: (if base <= hidden_count {
            base
        } else {
            hidden_count
        }) as usize,
        reveal_ms: ms,
        reshuffle_hidden: true,
        reveal_all_hidden: false,
        source_difficulty: Difficulty::Tri,
    }
}

/// Full transition of the Tri penalty engine on one mismatch: the state
/// afterwards and the punishment fired, if any.
pub open spec fn spec_register_mismatch_tri(st: AppState, first_pick_index: usize) -> (
    AppState,
    Option<PunishmentPlan>,
) {
    if st.tri_level <= 1 {
        (st, None)
    } else if st.tri_level == 2 {
        let c = sat_inc_u8(st.impossible_mismatch_count);
        if c < TRI_NORMAL_MISMATCH_THRESHOLD {
            (AppState { impossible_mismatch_count: c, ..st }, None)
        } else {
            (
                with_pressure_cleared(st),
                Some(
                    PunishmentPlan {
                        reveal_count: 3,
                        reveal_ms: 340,
                        reshuffle_hidden: true,
                        reveal_all_hidden: false,
                        source_difficulty: Difficulty::Tri,
                    },
                ),
            )
        }
    } else if st.tri_level == 3 {
        let c = sat_inc_u8(st.impossible_mismatch_count);
        if c < TRI_HARD_MISMATCH_THRESHOLD {
            (AppState { impossible_mismatch_count: c, ..st }, None)
        } else {
            (
                with_pressure_cleared(st),
                Some(
                    PunishmentPlan {
                        reveal_count: 0,
                        reveal_ms: 950,
                        reshuffle_hidden: true,
                        reveal_all_hidden: true,
                        source_difficulty: Difficulty::Tri,
                    },
                ),
            )
        }
    } else {
        let last = if st.impossible_last_first_index == Some(first_pick_index) {
            st.impossible_last_first_index
        } else {
            Some(first_pick_index)
        };
        let streak = if st.impossible_last_first_index == Some(first_pick_index) {
            sat_inc_u8(st.impossible_same_first_streak)
        } else {
            1u8
        };
        let c = sat_inc_u8(st.impossible_mismatch_count);
        if c >= TRI_EXPERT_MISMATCH_THRESHOLD || streak >= 2 {
            let stage = sat_inc_u8(st.impossible_punish_stage);
            (
                AppState {
                    impossible_mismatch_count: 0,
                    impossible_punish_stage: stage,
                    impossible_last_first_index: None,
                    impossible_same_first_streak: 0,
                    ..st
                },
                Some(tri_stage_plan(stage, hidden_values(st.tiles@).len())),
            )
        } else {
            (
                AppState {
                    impossible_mismatch_count: c,
                    impossible_last_first_index: last,
                    impossible_same_first_streak: streak,
                    ..st
                },
                None,
            )
        }
    }
}

/// Count one mismatch against the active Tri level and decide whether an
/// escalating punishment fires now. Level 1 never punishes; level 2 fires
/// every 5th mismatch (reveal 3 for 340 ms); level 3 every 3rd (reshuffle
/// and reveal all hidden tiles for 950 ms); level 4 fires on 3 cumulative
/// mismatches or on a repeated first pick, with stage-based severity capped
/// by the number of hidden tiles.
pub fn register_mismatch_and_plan_reshuffle(st: &mut AppState, first_pick_index: usize) -> (r:
    Option<PunishmentPlan>)
    ensures
        (*final(st), r) == spec_register_mismatch_tri(*old(st), first_pick_index),
{
    if st.tri_level <= 1 {
        return None;
    } else if st.tri_level == 2 {
        st.impossible_mismatch_count = if st.impossible_mismatch_count == 255 {
            255
        } else {
            st.impossible_mismatch_count + 1
        };
        if st.impossible_mismatch_count < TRI_NORMAL_MISMATCH_THRESHOLD {
            return None;
        }
        st.reset_impossible_pressure();
        return Some(PunishmentPlan {
            reveal_count: 3,
            reveal_ms: 340,
            reshuffle_hidden: true,
            reveal_all_hidden: false,
            source_difficulty: Difficulty::Tri,
        });
    } else if st.tri_level == 3 {
        st.impossible_mismatch_count = if st.impossible_mismatch_count == 255 {
            255
        } else {
            st.impossible_mismatch_count + 1
        };
        if st.impossible_mismatch_count < TRI_HARD_MISMATCH_THRESHOLD {
            return None;
        }
        st.reset_impossible_pressure();
        return Some(PunishmentPlan {
            reveal_count: 0,
            reveal_ms: 950,
            reshuffle_hidden: true,
            reveal_all_hidden: true,
            source_difficulty: Difficulty::Tri,
        });
    }

    let same_first = match st.impossible_last_first_index {
        Some(prev) => prev == first_pick_index,
        None => false,
    };
    if same_first {
        st.impossible_same_first_streak = if st.impossible_same_first_streak == 255 {
            255
        } else {
            st.impossible_same_first_streak + 1
        };
    } else {
        st.impossible_last_first_index = Some(first_pick_index);
        st.impossible_same_first_streak = 1;
    }

    st.impossible_mismatch_count = if st.impossible_mismatch_count == 255 {
        255
    } else {
        st.impossible_mismatch_count + 1
    };
    let threshold_hit = st.impossible_mismatch_count >= TRI_EXPERT_MISMATCH_THRESHOLD;
    let repeated_first_hit = st.impossible_same_first_streak >= 2;
    if !(threshold_hit || repeated_first_hit) {
        return None;
    }

    st.impossible_mismatch_count = 0;
    st.impossible_same_first_streak = 0;
    st.impossible_last_first_index = None;
    st.impossible_punish_stage = if st.impossible_punish_stage == 255 {
        255
    } else {
        st.impossible_punish_stage + 1
    };

    let hidden_count = count_hidden(&st.tiles);
    let (base_reveal_count, reveal_ms): (usize, u64) = if st.impossible_punish_stage == 1 {
        (9, 700)
    } else if st.impossible_punish_stage == 2 {
        (7, 590)
    } else {
        (5, 480)
    };
    let reveal_count = if base_reveal_count <= hidden_count {
        base_reveal_count
    } else {
        hidden_count
    };

    Some(PunishmentPlan {
        reveal_count,
        reveal_ms,
        reshuffle_hidden: true,
        reveal_all_hidden: false,
        source_difficulty: Difficulty::Tri,
    })
}

/// A successful match drops the accumulated pressure at Tri levels 2 and
/// above; level 1 tracks none.
pub fn reset_penalty_after_match(st: &mut AppState)
    ensures
        old(st).tri_level < 2 ==> *final(st) == *old(st),
        old(st).tri_level >= 2 ==> *final(st) == with_pressure_cleared(*old(st)),
{
    if st.tri_level < 2 {
        return;
    }
    st.reset_impossible_pressure();
}

} // verus!

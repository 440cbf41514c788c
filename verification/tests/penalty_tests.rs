use recall_core::classic_penalties::{
    is_expert, mismatch_pause_ms, register_mismatch_and_plan_reshuffle_for,
    reset_penalty_after_match_for,
};
use recall_core::state::{AppState, Difficulty, Tile, TileStatus};
use recall_core::tri_penalties;

fn pool() -> Vec<String> {
    ["a", "b", "c", "d", "e", "f"].iter().map(|s| s.to_string()).collect()
}

fn fresh_state(difficulty: Difficulty) -> AppState {
    let p = pool();
    let mut st = AppState::new(&p);
    st.set_difficulty(difficulty, &p);
    st
}

#[test]
fn easy_never_punishes() {
    let mut st = fresh_state(Difficulty::Easy);
    for i in 0..20 {
        assert!(register_mismatch_and_plan_reshuffle_for(&mut st, i, Difficulty::Easy).is_none());
    }
    assert_eq!(st.impossible_mismatch_count, 0);
}

#[test]
fn medium_fires_on_fifth_mismatch() {
    let mut st = fresh_state(Difficulty::Medium);
    for i in 0..4 {
        assert!(register_mismatch_and_plan_reshuffle_for(&mut st, i, Difficulty::Medium).is_none());
    }
    let plan = register_mismatch_and_plan_reshuffle_for(&mut st, 4, Difficulty::Medium)
        .expect("fifth mismatch must punish");
    assert_eq!(plan.reveal_count, 2);
    assert_eq!(plan.reveal_ms, 320);
    assert!(plan.reshuffle_hidden);
    assert!(!plan.reveal_all_hidden);
    assert_eq!(plan.source_difficulty, Difficulty::Medium);
    assert_eq!(st.impossible_mismatch_count, 0);
}

#[test]
fn hard_fires_on_second_mismatch_with_reveal_all() {
    let mut st = fresh_state(Difficulty::Hard);
    assert!(register_mismatch_and_plan_reshuffle_for(&mut st, 0, Difficulty::Hard).is_none());
    let plan = register_mismatch_and_plan_reshuffle_for(&mut st, 1, Difficulty::Hard)
        .expect("second mismatch must punish");
    assert_eq!(plan.reveal_count, 0);
    assert_eq!(plan.reveal_ms, 950);
    assert!(plan.reshuffle_hidden);
    assert!(plan.reveal_all_hidden);
}

#[test]
fn impossible_penalty_monotonicity() {
    // Three consecutive mismatches with pairwise different first picks:
    // only the third fires, at stage 1 (reveal 7 for 650 ms); a second full
    // cycle fires at stage 2 (reveal 5 for 540 ms).
    let mut st = fresh_state(Difficulty::Impossible);
    assert!(register_mismatch_and_plan_reshuffle_for(&mut st, 0, Difficulty::Impossible).is_none());
    assert!(register_mismatch_and_plan_reshuffle_for(&mut st, 1, Difficulty::Impossible).is_none());
    let plan1 = register_mismatch_and_plan_reshuffle_for(&mut st, 2, Difficulty::Impossible)
        .expect("third mismatch must punish");
    assert_eq!(st.impossible_punish_stage, 1);
    assert_eq!(plan1.reveal_count, 7);
    assert_eq!(plan1.reveal_ms, 650);
    assert!(plan1.reshuffle_hidden);
    assert!(!plan1.reveal_all_hidden);

    assert!(register_mismatch_and_plan_reshuffle_for(&mut st, 3, Difficulty::Impossible).is_none());
    assert!(register_mismatch_and_plan_reshuffle_for(&mut st, 4, Difficulty::Impossible).is_none());
    let plan2 = register_mismatch_and_plan_reshuffle_for(&mut st, 5, Difficulty::Impossible)
        .expect("sixth mismatch must punish again");
    assert_eq!(st.impossible_punish_stage, 2);
    assert_eq!(plan2.reveal_count, 5);
    assert_eq!(plan2.reveal_ms, 540);
}

#[test]
fn impossible_third_cycle_severity() {
    let mut st = fresh_state(Difficulty::Impossible);
    st.impossible_punish_stage = 2;
    st.impossible_mismatch_count = 2;
    let plan = register_mismatch_and_plan_reshuffle_for(&mut st, 9, Difficulty::Impossible)
        .expect("threshold reached");
    assert_eq!(plan.reveal_count, 4);
    assert_eq!(plan.reveal_ms, 430);
}

#[test]
fn repeated_first_pick_triggers_early() {
    // Two consecutive mismatches from the same first tile fire punishment
    // although the cumulative counter is still below its threshold of 3.
    let mut st = fresh_state(Difficulty::Impossible);
    assert!(register_mismatch_and_plan_reshuffle_for(&mut st, 7, Difficulty::Impossible).is_none());
    assert_eq!(st.impossible_mismatch_count, 1);
    let plan = register_mismatch_and_plan_reshuffle_for(&mut st, 7, Difficulty::Impossible)
        .expect("repeated first pick must punish");
    assert_eq!(plan.reveal_count, 7);
    assert_eq!(st.impossible_punish_stage, 1);
}

#[test]
fn reset_after_match_clears_pressure_on_tracking_tiers() {
    let mut st = fresh_state(Difficulty::Medium);
    register_mismatch_and_plan_reshuffle_for(&mut st, 0, Difficulty::Medium);
    assert_eq!(st.impossible_mismatch_count, 1);
    reset_penalty_after_match_for(&mut st, Difficulty::Medium);
    assert_eq!(st.impossible_mismatch_count, 0);

    let mut st2 = fresh_state(Difficulty::Easy);
    st2.impossible_mismatch_count = 3;
    reset_penalty_after_match_for(&mut st2, Difficulty::Easy);
    assert_eq!(st2.impossible_mismatch_count, 3);
}

#[test]
fn classic_pause_times() {
    assert_eq!(mismatch_pause_ms(Difficulty::Easy), 750);
    assert_eq!(mismatch_pause_ms(Difficulty::Medium), 500);
    assert_eq!(mismatch_pause_ms(Difficulty::Impossible), 500);
    assert!(is_expert(Difficulty::Impossible));
    assert!(!is_expert(Difficulty::Hard));
}

#[test]
fn tri_pause_times() {
    assert_eq!(tri_penalties::mismatch_pause_ms(1), 800);
    assert_eq!(tri_penalties::mismatch_pause_ms(2), 650);
    assert_eq!(tri_penalties::mismatch_pause_ms(3), 550);
    assert_eq!(tri_penalties::mismatch_pause_ms(4), 500);
}

#[test]
fn tri_level_two_fires_on_fifth() {
    let p = pool();
    let mut st = AppState::new(&p);
    st.set_difficulty(Difficulty::Tri, &p);
    st.set_tri_level(2, &p);
    for i in 0..4 {
        assert!(tri_penalties::register_mismatch_and_plan_reshuffle(&mut st, i).is_none());
    }
    let plan = tri_penalties::register_mismatch_and_plan_reshuffle(&mut st, 4)
        .expect("fifth mismatch must punish");
    assert_eq!(plan.reveal_count, 3);
    assert_eq!(plan.reveal_ms, 340);
    assert_eq!(plan.source_difficulty, Difficulty::Tri);
}

#[test]
fn tri_level_three_reveals_all() {
    let p = pool();
    let mut st = AppState::new(&p);
    st.set_difficulty(Difficulty::Tri, &p);
    st.set_tri_level(3, &p);
    assert!(tri_penalties::register_mismatch_and_plan_reshuffle(&mut st, 0).is_none());
    assert!(tri_penalties::register_mismatch_and_plan_reshuffle(&mut st, 1).is_none());
    let plan = tri_penalties::register_mismatch_and_plan_reshuffle(&mut st, 2)
        .expect("third mismatch must punish");
    assert!(plan.reveal_all_hidden);
    assert_eq!(plan.reveal_ms, 950);
}

#[test]
fn tri_level_four_caps_reveal_by_hidden_count() {
    let p = pool();
    let mut st = AppState::new(&p);
    st.set_difficulty(Difficulty::Tri, &p);
    st.set_tri_level(4, &p);
    // Leave only 4 hidden tiles; stage 1 asks for 9 but must be capped.
    st.tiles = (0..8)
        .map(|i| Tile {
            value: format!("s{}", i / 3),
            status: if i < 4 { TileStatus::Hidden } else { TileStatus::Matched },
        })
        .collect();
    assert!(tri_penalties::register_mismatch_and_plan_reshuffle(&mut st, 0).is_none());
    assert!(tri_penalties::register_mismatch_and_plan_reshuffle(&mut st, 1).is_none());
    let plan = tri_penalties::register_mismatch_and_plan_reshuffle(&mut st, 2)
        .expect("third mismatch must punish");
    assert_eq!(plan.reveal_count, 4);
    assert_eq!(plan.reveal_ms, 700);
}

#[test]
fn tri_reset_after_match() {
    let p = pool();
    let mut st = AppState::new(&p);
    st.set_difficulty(Difficulty::Tri, &p);
    st.set_tri_level(1, &p);
    st.impossible_mismatch_count = 2;
    tri_penalties::reset_penalty_after_match(&mut st);
    assert_eq!(st.impossible_mismatch_count, 2);
    st.set_tri_level(2, &p);
    st.impossible_mismatch_count = 2;
    tri_penalties::reset_penalty_after_match(&mut st);
    assert_eq!(st.impossible_mismatch_count, 0);
}

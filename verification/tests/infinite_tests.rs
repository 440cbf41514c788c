use recall_core::classic::difficulty_from_level;
use recall_core::infinite::{
    advance_round, classic_difficulty_for_round, expert_survival_rounds, hard_survival_rounds,
    infinite_milestone_value, is_infinite, level_for_round, level_name, mode_label,
    projected_level_for_next_round, prepare_start,
};
use recall_core::state::{AppState, Difficulty};

fn pool() -> Vec<String> {
    ["a", "b", "c", "d", "e", "f"].iter().map(|s| s.to_string()).collect()
}

#[test]
fn tier_mapping() {
    assert_eq!(level_for_round(1), 1);
    assert_eq!(level_for_round(3), 1);
    assert_eq!(level_for_round(4), 2);
    assert_eq!(level_for_round(6), 2);
    assert_eq!(level_for_round(7), 3);
    assert_eq!(level_for_round(10), 3);
    assert_eq!(level_for_round(11), 4);
    assert_eq!(level_for_round(1000), 4);
}

#[test]
fn classic_difficulty_mapping() {
    assert_eq!(classic_difficulty_for_round(3), Difficulty::Easy);
    assert_eq!(classic_difficulty_for_round(4), Difficulty::Medium);
    assert_eq!(classic_difficulty_for_round(7), Difficulty::Hard);
    assert_eq!(classic_difficulty_for_round(11), Difficulty::Impossible);
}

#[test]
fn survival_counters() {
    // Survival is counted from the tier's first round, which counts as zero.
    assert_eq!(hard_survival_rounds(6), 0);
    assert_eq!(hard_survival_rounds(7), 0);
    assert_eq!(hard_survival_rounds(8), 1);
    assert_eq!(hard_survival_rounds(12), 5);
    assert_eq!(expert_survival_rounds(10), 0);
    assert_eq!(expert_survival_rounds(11), 0);
    assert_eq!(expert_survival_rounds(12), 1);
    assert_eq!(expert_survival_rounds(16), 5);
}

#[test]
fn advance_round_level_up_at_eleven() {
    let p = pool();
    let mut st = AppState::new(&p);
    st.set_difficulty(Difficulty::RecallMode, &p);
    st.infinite_round = 10;
    st.apply_infinite_level_without_reset(3);
    let event = advance_round(&mut st).expect("crossing round 10 to 11 must level up");
    assert_eq!(event.from_level, 3);
    assert_eq!(event.to_level, 4);
    assert_eq!(event.round, 11);
    assert_eq!(st.infinite_round, 11);
    assert_eq!(st.recall_level, 4);
}

#[test]
fn advance_round_resets_pressure_on_tier_change() {
    let p = pool();
    let mut st = AppState::new(&p);
    st.set_difficulty(Difficulty::RecallMode, &p);
    st.infinite_round = 3;
    st.apply_infinite_level_without_reset(1);
    st.impossible_mismatch_count = 2;
    advance_round(&mut st);
    assert_eq!(st.infinite_round, 4);
    assert_eq!(st.impossible_mismatch_count, 0);
}

#[test]
fn advance_round_within_tier_keeps_pressure() {
    let p = pool();
    let mut st = AppState::new(&p);
    st.set_difficulty(Difficulty::RecallMode, &p);
    st.infinite_round = 4;
    st.apply_infinite_level_without_reset(2);
    st.impossible_mismatch_count = 2;
    let event = advance_round(&mut st);
    assert!(event.is_none());
    assert_eq!(st.infinite_round, 5);
    assert_eq!(st.impossible_mismatch_count, 2);
}

#[test]
fn advance_round_ignores_non_infinite_modes() {
    let p = pool();
    let mut st = AppState::new(&p);
    st.set_difficulty(Difficulty::Hard, &p);
    let round_before = st.infinite_round;
    assert!(advance_round(&mut st).is_none());
    assert_eq!(st.infinite_round, round_before);
}

#[test]
fn milestone_firing() {
    // Milestones fire every fifth round survived within the deep tiers;
    // the Expert tier starts at round 11, so the first fires at round 16.
    assert_eq!(infinite_milestone_value(16), Some((Difficulty::Impossible, 5)));
    assert_eq!(infinite_milestone_value(21), Some((Difficulty::Impossible, 10)));
    assert_eq!(infinite_milestone_value(11), None);
    assert_eq!(infinite_milestone_value(12), None);
    assert_eq!(infinite_milestone_value(15), None);
    for round in 1..=10 {
        assert_eq!(infinite_milestone_value(round), None);
    }
}

#[test]
fn level_names() {
    assert_eq!(level_name(1), "Easy");
    assert_eq!(level_name(2), "Normal");
    assert_eq!(level_name(3), "Hard");
    assert_eq!(level_name(4), "Expert");
    assert_eq!(level_name(0), "Easy");
    assert_eq!(level_name(9), "Expert");
}

#[test]
fn prepare_start_resets_round_and_level() {
    let p = pool();
    let mut st = AppState::new(&p);
    st.set_difficulty(Difficulty::RecallMode, &p);
    st.infinite_round = 9;
    st.apply_infinite_level_without_reset(3);
    prepare_start(&mut st);
    assert_eq!(st.infinite_round, 1);
    assert_eq!(st.recall_level, 1);
    assert_eq!((st.grid_cols, st.grid_rows, st.match_size), (3, 4, 2));
}

#[test]
fn projected_level() {
    let p = pool();
    let mut st = AppState::new(&p);
    st.set_difficulty(Difficulty::RecallMode, &p);
    st.infinite_round = 10;
    assert_eq!(projected_level_for_next_round(&st), 4);
    st.infinite_round = 2;
    assert_eq!(projected_level_for_next_round(&st), 1);
}

#[test]
fn mode_labels() {
    let p = pool();
    let mut st = AppState::new(&p);
    st.set_difficulty(Difficulty::RecallMode, &p);
    st.infinite_round = 2;
    st.apply_infinite_level_without_reset(1);
    assert_eq!(mode_label(&st), "Infinite Round 2");
    st.infinite_round = 9;
    st.apply_infinite_level_without_reset(3);
    assert_eq!(mode_label(&st), "Infinite Hard Survival 2");
    st.infinite_round = 13;
    st.apply_infinite_level_without_reset(4);
    assert_eq!(mode_label(&st), "Infinite Expert Survival 2");
}

#[test]
fn is_infinite_only_for_recall_mode() {
    assert!(is_infinite(Difficulty::RecallMode));
    assert!(!is_infinite(Difficulty::Tri));
}

#[test]
fn menu_level_to_difficulty() {
    assert_eq!(difficulty_from_level(1), Difficulty::Easy);
    assert_eq!(difficulty_from_level(2), Difficulty::Medium);
    assert_eq!(difficulty_from_level(3), Difficulty::Hard);
    assert_eq!(difficulty_from_level(4), Difficulty::Impossible);
    assert_eq!(difficulty_from_level(0), Difficulty::Impossible);
}

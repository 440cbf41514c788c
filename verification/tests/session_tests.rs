use recall_core::classic_penalties::PunishmentPlan;
use recall_core::session::{
    all_tiles_matched, apply_punishment, begin_infinite_transition, evaluate_flip_outcome,
    finalize_infinite_transition, finish_mismatch, handle_tile_click, hide_all_tiles,
    hide_tiles_at, resolve_match, FlipOutcome, FlipResponse, MatchResolution,
};
use recall_core::state::{AppState, Difficulty, Tile, TileStatus};

fn pool() -> Vec<String> {
    ["a", "b", "c", "d", "e", "f"].iter().map(|s| s.to_string()).collect()
}

fn tile(value: &str, status: TileStatus) -> Tile {
    Tile { value: value.to_string(), status }
}

/// A 2x2 pairs board with a fixed assignment, ready for clicks.
fn small_state() -> AppState {
    let p = pool();
    let mut st = AppState::new(&p);
    st.grid_cols = 2;
    st.grid_rows = 2;
    st.match_size = 2;
    st.tiles = vec![
        tile("a", TileStatus::Hidden),
        tile("b", TileStatus::Hidden),
        tile("a", TileStatus::Hidden),
        tile("b", TileStatus::Hidden),
    ];
    st.flipped_indices = Vec::new();
    st.lock_input = false;
    st
}

#[test]
fn evaluate_flip_outcome_is_value_driven() {
    let st = small_state();
    assert_eq!(evaluate_flip_outcome(&st, &vec![0], 0), FlipOutcome::Continue);
    assert_eq!(evaluate_flip_outcome(&st, &vec![0, 2], 2), FlipOutcome::CompleteMatch);
    assert_eq!(evaluate_flip_outcome(&st, &vec![0, 1], 1), FlipOutcome::Mismatch);
}

#[test]
fn click_flow_matching_pair() {
    let mut st = small_state();
    assert_eq!(handle_tile_click(&mut st, 0), FlipResponse::MoreFlips);
    assert_eq!(st.tiles[0].status, TileStatus::Flipped);
    assert!(st.active_session_started);
    assert_eq!(handle_tile_click(&mut st, 2), FlipResponse::GroupComplete);
    assert!(st.lock_input);
    assert_eq!(st.run_matches, 1);
    let indices = st.flipped_indices.clone();
    let game_id = st.game_id;
    assert_eq!(resolve_match(&mut st, game_id, &indices), MatchResolution::Continuing);
    assert_eq!(st.tiles[0].status, TileStatus::Matched);
    assert_eq!(st.tiles[2].status, TileStatus::Matched);
    assert!(!st.lock_input);
    assert!(st.flipped_indices.is_empty());
}

#[test]
fn click_flow_mismatch_books_miss_and_pause() {
    let mut st = small_state();
    st.difficulty = Difficulty::Easy;
    handle_tile_click(&mut st, 0);
    match handle_tile_click(&mut st, 1) {
        FlipResponse::GroupMismatch { pause_ms, plan } => {
            assert_eq!(pause_ms, 750);
            assert!(plan.is_none());
        },
        other => panic!("expected a mismatch, got {:?}", other),
    }
    assert_eq!(st.run_mismatches, 1);
    assert!(st.lock_input);
    let game_id = st.game_id;
    let indices = st.flipped_indices.clone();
    assert!(hide_tiles_at(&mut st, game_id, &indices));
    assert_eq!(st.tiles[0].status, TileStatus::Hidden);
    assert_eq!(st.tiles[1].status, TileStatus::Hidden);
    assert!(finish_mismatch(&mut st, game_id));
    assert!(!st.lock_input);
    assert!(st.flipped_indices.is_empty());
}

#[test]
fn invalid_clicks_are_ignored() {
    let mut st = small_state();
    assert_eq!(handle_tile_click(&mut st, 99), FlipResponse::Ignored);
    st.tiles[0].status = TileStatus::Matched;
    assert_eq!(handle_tile_click(&mut st, 0), FlipResponse::Ignored);
    st.lock_input = true;
    assert_eq!(handle_tile_click(&mut st, 1), FlipResponse::Ignored);
    assert_eq!(st.run_matches, 0);
    assert_eq!(st.run_mismatches, 0);
}

#[test]
fn completing_the_board_reports_the_mode() {
    let mut st = small_state();
    st.difficulty = Difficulty::Easy;
    handle_tile_click(&mut st, 0);
    handle_tile_click(&mut st, 2);
    let id = st.game_id;
    let indices = st.flipped_indices.clone();
    resolve_match(&mut st, id, &indices);
    handle_tile_click(&mut st, 1);
    handle_tile_click(&mut st, 3);
    let indices = st.flipped_indices.clone();
    assert_eq!(resolve_match(&mut st, id, &indices), MatchResolution::RoundCompleteClassic);
    assert!(all_tiles_matched(&st));

    let mut st2 = small_state();
    st2.difficulty = Difficulty::RecallMode;
    handle_tile_click(&mut st2, 0);
    handle_tile_click(&mut st2, 2);
    let id2 = st2.game_id;
    let indices = st2.flipped_indices.clone();
    resolve_match(&mut st2, id2, &indices);
    handle_tile_click(&mut st2, 1);
    handle_tile_click(&mut st2, 3);
    let indices = st2.flipped_indices.clone();
    assert_eq!(resolve_match(&mut st2, id2, &indices), MatchResolution::RoundCompleteInfinite);
}

#[test]
fn stale_game_id_makes_steps_no_ops() {
    let mut st = small_state();
    let stale = st.game_id.wrapping_add(1);
    let before_status = st.tiles[0].status;
    assert_eq!(resolve_match(&mut st, stale, &vec![0]), MatchResolution::Stale);
    assert_eq!(st.tiles[0].status, before_status);
    assert!(!hide_tiles_at(&mut st, stale, &vec![0]));
    assert!(!finish_mismatch(&mut st, stale));
    assert!(!begin_infinite_transition(&mut st, stale));
    assert!(!hide_all_tiles(&mut st, stale));
    assert!(finalize_infinite_transition(&mut st, stale).is_none());
    assert!(apply_punishment(
        &mut st,
        stale,
        &PunishmentPlan {
            reveal_count: 2,
            reveal_ms: 320,
            reshuffle_hidden: true,
            reveal_all_hidden: false,
            source_difficulty: Difficulty::Medium,
        },
    )
    .is_empty());
}

#[test]
fn punishment_reveals_requested_count() {
    let mut st = small_state();
    let id = st.game_id;
    let plan = PunishmentPlan {
        reveal_count: 2,
        reveal_ms: 320,
        reshuffle_hidden: true,
        reveal_all_hidden: false,
        source_difficulty: Difficulty::Medium,
    };
    let revealed = apply_punishment(&mut st, id, &plan);
    assert_eq!(revealed.len(), 2);
    for &idx in &revealed {
        assert_eq!(st.tiles[idx].status, TileStatus::Flipped);
    }
    assert_eq!(
        st.tiles.iter().filter(|t| t.status == TileStatus::Flipped).count(),
        2
    );
    assert!(st.lock_input);
    // The reveal window ends: the same tiles go back face down.
    assert!(hide_tiles_at(&mut st, id, &revealed));
    assert!(finish_mismatch(&mut st, id));
    assert!(st.tiles.iter().all(|t| t.status == TileStatus::Hidden));
}

#[test]
fn punishment_reveal_all_flips_every_hidden_tile() {
    let mut st = small_state();
    st.tiles[3].status = TileStatus::Matched;
    let id = st.game_id;
    let plan = PunishmentPlan {
        reveal_count: 0,
        reveal_ms: 950,
        reshuffle_hidden: true,
        reveal_all_hidden: true,
        source_difficulty: Difficulty::Hard,
    };
    let revealed = apply_punishment(&mut st, id, &plan);
    assert_eq!(revealed.len(), 3);
    assert_eq!(st.tiles[3].status, TileStatus::Matched);
}

#[test]
fn punishment_count_capped_by_hidden_tiles() {
    let mut st = small_state();
    st.tiles[0].status = TileStatus::Matched;
    st.tiles[1].status = TileStatus::Matched;
    let id = st.game_id;
    let plan = PunishmentPlan {
        reveal_count: 7,
        reveal_ms: 650,
        reshuffle_hidden: true,
        reveal_all_hidden: false,
        source_difficulty: Difficulty::Impossible,
    };
    let revealed = apply_punishment(&mut st, id, &plan);
    assert_eq!(revealed.len(), 2);
}

#[test]
fn infinite_transition_sequence() {
    let p = pool();
    let mut st = AppState::new(&p);
    st.set_difficulty(Difficulty::RecallMode, &p);
    st.infinite_round = 10;
    st.apply_infinite_level_without_reset(3);
    let id = st.game_id;
    assert!(begin_infinite_transition(&mut st, id));
    assert!(st.lock_input);
    assert!(hide_all_tiles(&mut st, id));
    assert!(st.tiles.iter().all(|t| t.status == TileStatus::Hidden));
    let (level_up, milestone) =
        finalize_infinite_transition(&mut st, id).expect("transition must apply");
    let event = level_up.expect("round 10 to 11 levels up");
    assert_eq!(event.to_level, 4);
    assert_eq!(milestone, None);
    assert_eq!(st.infinite_round, 11);
}

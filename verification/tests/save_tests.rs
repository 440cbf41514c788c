use recall_core::session_save::{
    difficulty_from_code, difficulty_to_code, has_saved_run, parse_saved_run, parse_tile,
    push_encoded_tile, restore_saved_run, save_current_run, serialize_saved_run, SavedRun,
};
use recall_core::state::{AppState, Difficulty, Tile, TileStatus};

fn pool() -> Vec<String> {
    ["a", "b", "c", "d", "e", "f"].iter().map(|s| s.to_string()).collect()
}

fn tile(value: &str, status: TileStatus) -> Tile {
    Tile { value: value.to_string(), status }
}

fn sample_run() -> SavedRun {
    SavedRun {
        difficulty: Difficulty::Impossible,
        tri_level: 3,
        recall_level: 2,
        infinite_round: 1,
        seconds_elapsed: 245,
        run_mismatches: 7,
        run_matches: 12,
        impossible_mismatch_count: 2,
        impossible_punish_stage: 1,
        impossible_last_first_index: Some(17),
        impossible_same_first_streak: 1,
        flipped_indices: vec![4, 9],
        tiles: vec![
            tile("a", TileStatus::Matched),
            tile("b", TileStatus::Hidden),
            tile("x|y", TileStatus::Hidden),
            tile("line\nbreak", TileStatus::Flipped),
            tile("back\\slash", TileStatus::Hidden),
            tile("", TileStatus::Matched),
        ],
    }
}

fn assert_same_run(a: &SavedRun, b: &SavedRun) {
    assert_eq!(a.difficulty, b.difficulty);
    assert_eq!(a.tri_level, b.tri_level);
    assert_eq!(a.recall_level, b.recall_level);
    assert_eq!(a.infinite_round, b.infinite_round);
    assert_eq!(a.seconds_elapsed, b.seconds_elapsed);
    assert_eq!(a.run_mismatches, b.run_mismatches);
    assert_eq!(a.run_matches, b.run_matches);
    assert_eq!(a.impossible_mismatch_count, b.impossible_mismatch_count);
    assert_eq!(a.impossible_punish_stage, b.impossible_punish_stage);
    assert_eq!(a.impossible_last_first_index, b.impossible_last_first_index);
    assert_eq!(a.impossible_same_first_streak, b.impossible_same_first_streak);
    assert_eq!(a.flipped_indices, b.flipped_indices);
    assert_eq!(a.tiles.len(), b.tiles.len());
    for i in 0..a.tiles.len() {
        assert_eq!(a.tiles[i].status, b.tiles[i].status);
        assert_eq!(a.tiles[i].value, b.tiles[i].value);
    }
}

#[test]
fn save_round_trip() {
    let run = sample_run();
    let text = serialize_saved_run(&run);
    let parsed = parse_saved_run(text.as_str()).expect("written save must parse");
    assert_same_run(&run, &parsed);
}

#[test]
fn save_round_trip_empty_flip_group() {
    let mut run = sample_run();
    run.flipped_indices = Vec::new();
    run.impossible_last_first_index = None;
    let text = serialize_saved_run(&run);
    let parsed = parse_saved_run(text.as_str()).expect("written save must parse");
    assert_same_run(&run, &parsed);
}

#[test]
fn corrupt_version_is_rejected() {
    let run = sample_run();
    let text = serialize_saved_run(&run);
    let corrupted = text.replacen("version=1", "version=2", 1);
    assert!(parse_saved_run(corrupted.as_str()).is_none());
    let garbled = text.replacen("version=1", "version=abc", 1);
    assert!(parse_saved_run(garbled.as_str()).is_none());
}

#[test]
fn unstarted_or_empty_files_are_rejected() {
    assert!(parse_saved_run("").is_none());
    assert!(parse_saved_run("version=1\n").is_none());
    assert!(parse_saved_run("version=1\nstarted=0\ndifficulty=easy\n").is_none());
    assert!(parse_saved_run("version=1\nstarted=1\n").is_none());
}

#[test]
fn malformed_fields_reject_the_file() {
    assert!(parse_saved_run("version=1\nstarted=1\ndifficulty=easy\ntri_level=abc\n").is_none());
    assert!(
        parse_saved_run("version=1\nstarted=1\ndifficulty=easy\nflipped_indices=1,x\n").is_none()
    );
    assert!(parse_saved_run("version=1\nstarted=1\ndifficulty=easy\ntile=Q|foo\n").is_none());
}

#[test]
fn unknown_difficulty_is_rejected() {
    assert!(parse_saved_run("version=1\nstarted=1\ndifficulty=brutal\n").is_none());
}

#[test]
fn unknown_keys_are_ignored() {
    let parsed =
        parse_saved_run("version=1\nstarted=1\ndifficulty=tri\nfuture_field=9\n").expect("parses");
    assert_eq!(parsed.difficulty, Difficulty::Tri);
    assert_eq!(parsed.tri_level, 3);
}

#[test]
fn difficulty_codes_round_trip() {
    for d in [
        Difficulty::Easy,
        Difficulty::Medium,
        Difficulty::Hard,
        Difficulty::Impossible,
        Difficulty::Tri,
        Difficulty::RecallMode,
    ] {
        let code = difficulty_to_code(d);
        let chars: Vec<char> = code.chars().collect();
        assert_eq!(difficulty_from_code(&chars), Some(d));
    }
    let bad: Vec<char> = "nightmare".chars().collect();
    assert_eq!(difficulty_from_code(&bad), None);
}

#[test]
fn tile_encoding_round_trips_special_characters() {
    let original = tile("a|b\\c\nd", TileStatus::Flipped);
    let mut encoded: Vec<char> = Vec::new();
    push_encoded_tile(&original, &mut encoded);
    let text: String = encoded.iter().collect();
    assert_eq!(text, "F|a\\|b\\\\c\\nd");
    let parsed = parse_tile(&encoded).expect("encoded tile must parse");
    assert_eq!(parsed.status, TileStatus::Flipped);
    assert_eq!(parsed.value, "a|b\\c\nd");
}

#[test]
fn has_saved_run_checks_parseability() {
    let run = sample_run();
    let text = serialize_saved_run(&run);
    assert!(has_saved_run(&Some(text)));
    assert!(!has_saved_run(&Some("junk".to_string())));
    assert!(!has_saved_run(&None));
}

#[test]
fn save_current_run_needs_an_active_session() {
    let p = pool();
    let mut st = AppState::new(&p);
    assert!(save_current_run(&st).is_none());
    st.active_session_started = true;
    let text = save_current_run(&st).expect("active session with tiles saves");
    assert!(text.starts_with("version=1\nstarted=1\n"));
    st.tiles = Vec::new();
    assert!(save_current_run(&st).is_none());
}

#[test]
fn state_save_and_restore_round_trip() {
    let p = pool();
    let mut st = AppState::new(&p);
    st.set_difficulty(Difficulty::Medium, &p);
    st.active_session_started = true;
    st.seconds_elapsed = 73;
    st.run_matches = 4;
    st.run_mismatches = 2;
    st.impossible_mismatch_count = 2;
    // Flip one pair open so the flip group is non-trivial.
    st.tiles[5].status = TileStatus::Flipped;
    st.flipped_indices = vec![5];
    let text = save_current_run(&st).expect("active session saves");
    let run = parse_saved_run(text.as_str()).expect("saved text parses");

    let mut st2 = AppState::new(&p);
    assert!(restore_saved_run(&mut st2, run, &p));
    assert_eq!(st2.difficulty, Difficulty::Medium);
    assert_eq!(st2.seconds_elapsed, 73);
    assert_eq!(st2.run_matches, 4);
    assert_eq!(st2.run_mismatches, 2);
    assert_eq!(st2.impossible_mismatch_count, 2);
    assert_eq!(st2.flipped_indices, vec![5]);
    assert_eq!(st2.tiles.len(), st.tiles.len());
    for i in 0..st.tiles.len() {
        assert_eq!(st2.tiles[i].status, st.tiles[i].status);
        assert_eq!(st2.tiles[i].value, st.tiles[i].value);
    }
    assert!(st2.active_session_started);
    assert!(!st2.lock_input);
}

#[test]
fn restore_rejects_wrong_tile_count() {
    let p = pool();
    let mut run = sample_run();
    run.difficulty = Difficulty::Easy;
    // Easy expects 12 tiles; the sample carries 6.
    let mut st = AppState::new(&p);
    assert!(!restore_saved_run(&mut st, run, &p));
    assert_eq!(st.difficulty, Difficulty::Easy);
}

#[test]
fn restore_drops_stale_flipped_indices() {
    let p = pool();
    let mut st = AppState::new(&p);
    st.set_difficulty(Difficulty::Easy, &p);
    st.active_session_started = true;
    let text = save_current_run(&st).expect("saves");
    let mut run = parse_saved_run(text.as_str()).expect("parses");
    // Point the flip group at tiles that are not flipped and out of range.
    run.flipped_indices = vec![0, 999];
    let mut st2 = AppState::new(&p);
    assert!(restore_saved_run(&mut st2, run, &p));
    assert!(st2.flipped_indices.is_empty());
}

#[test]
fn restore_resumes_full_flip_group_with_lock_held() {
    let p = pool();
    let mut run = sample_run();
    // A Tri level-3 board has 42 tiles and groups of 3; save a board of the
    // right size whose surviving flip group is a complete group.
    run.difficulty = Difficulty::Tri;
    run.tri_level = 3;
    run.tiles = (0..42)
        .map(|i| tile(
            &format!("s{}", i / 3),
            if i < 3 { TileStatus::Flipped } else { TileStatus::Hidden },
        ))
        .collect();
    run.flipped_indices = vec![0, 1, 2];
    let mut st = AppState::new(&p);
    assert!(restore_saved_run(&mut st, run, &p));
    // The run comes back in full, with input locked until the caller
    // resolves the pending group.
    assert_eq!(st.flipped_indices, vec![0, 1, 2]);
    assert!(st.lock_input);
    assert_eq!(st.run_matches, 12);
    assert_eq!(st.run_mismatches, 7);
    assert_eq!(st.seconds_elapsed, 245);
    assert_eq!(st.tiles[0].status, TileStatus::Flipped);
    assert_eq!(st.tiles[3].status, TileStatus::Hidden);
}

#[test]
fn restore_rejects_oversized_flip_group() {
    let p = pool();
    let mut run = sample_run();
    // Four surviving flipped tiles can never arise from groups of three:
    // such a save is inconsistent and the resume is refused.
    run.difficulty = Difficulty::Tri;
    run.tri_level = 3;
    run.tiles = (0..42)
        .map(|i| tile(
            &format!("s{}", i / 3),
            if i < 4 { TileStatus::Flipped } else { TileStatus::Hidden },
        ))
        .collect();
    run.flipped_indices = vec![0, 1, 2, 3];
    let mut st = AppState::new(&p);
    assert!(!restore_saved_run(&mut st, run, &p));
    // The refused resume leaves a fresh round: nothing of the run installed.
    assert!(st.flipped_indices.is_empty());
    assert!(!st.lock_input);
    assert_eq!(st.run_matches, 0);
    assert_eq!(st.run_mismatches, 0);
    assert!(st.tiles.iter().all(|t| t.status == TileStatus::Hidden || t.value.is_empty()));
}

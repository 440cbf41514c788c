use std::collections::HashMap;

use recall_core::board::generate_board;
use recall_core::state::{AppState, Difficulty, Tile, TileStatus};

fn pool(symbols: &[&str]) -> Vec<String> {
    symbols.iter().map(|s| s.to_string()).collect()
}

fn value_counts(tiles: &[Tile]) -> HashMap<String, usize> {
    let mut counts = HashMap::new();
    for t in tiles {
        *counts.entry(t.value.clone()).or_insert(0) += 1;
    }
    counts
}

#[test]
fn generate_board_even_grid() {
    let p = pool(&["a", "b", "c", "d", "e", "f"]);
    let tiles = generate_board(3, 4, 2, &p);
    assert_eq!(tiles.len(), 12);
    for (value, count) in value_counts(&tiles) {
        assert!(!value.is_empty());
        assert_eq!(count % 2, 0);
    }
    assert!(tiles.iter().all(|t| t.status == TileStatus::Hidden));
}

#[test]
fn generate_board_with_filler() {
    // 6*7 = 42 tiles, match groups of 4 would leave 2 fillers; the game uses
    // group sizes 2 and 3, where 42 % 3 == 0, so force a remainder with a
    // 4x4 grid and groups of 3: 16 % 3 == 1 filler.
    let p = pool(&["a", "b", "c", "d", "e", "f", "g", "h"]);
    let tiles = generate_board(4, 4, 3, &p);
    assert_eq!(tiles.len(), 16);
    let fillers: Vec<&Tile> = tiles.iter().filter(|t| t.value.is_empty()).collect();
    assert_eq!(fillers.len(), 1);
    assert!(fillers.iter().all(|t| t.status == TileStatus::Matched));
    // Fillers sit at the end of the vector.
    assert!(tiles[15].value.is_empty());
    for (value, count) in value_counts(&tiles) {
        if !value.is_empty() {
            assert_eq!(count % 3, 0);
        }
    }
}

#[test]
fn generate_board_groups_distinct_symbols_when_pool_suffices() {
    // 12 tiles in pairs need 6 groups; a 6-symbol pool covers them without
    // reuse, so every symbol on the board occurs exactly twice and comes
    // from the pool.
    let p = pool(&["a", "b", "c", "d", "e", "f"]);
    let tiles = generate_board(3, 4, 2, &p);
    for (value, count) in value_counts(&tiles) {
        assert_eq!(count, 2);
        assert!(p.contains(&value));
    }
}

#[test]
fn generate_board_small_pool_wraps() {
    // A pool smaller than the number of groups is reused cyclically.
    let p = pool(&["x", "y"]);
    let tiles = generate_board(3, 4, 2, &p);
    assert_eq!(tiles.len(), 12);
    for (value, count) in value_counts(&tiles) {
        assert!(!value.is_empty());
        assert_eq!(count % 2, 0);
    }
}

#[test]
fn reshuffle_preserves_visibility_and_values() {
    let p = pool(&["a", "b", "c", "d", "e", "f"]);
    let mut st = AppState::new(&p);
    // Fix a deterministic board over the generated one.
    st.tiles = vec![
        Tile { value: "a".to_string(), status: TileStatus::Hidden },
        Tile { value: "b".to_string(), status: TileStatus::Flipped },
        Tile { value: "a".to_string(), status: TileStatus::Hidden },
        Tile { value: "c".to_string(), status: TileStatus::Matched },
        Tile { value: "c".to_string(), status: TileStatus::Hidden },
        Tile { value: "b".to_string(), status: TileStatus::Hidden },
    ];
    let before = st.tiles.clone();
    st.reshuffle_hidden_tiles();
    assert_eq!(st.tiles.len(), before.len());
    for i in 0..before.len() {
        assert_eq!(st.tiles[i].status, before[i].status);
        if before[i].status != TileStatus::Hidden {
            assert_eq!(st.tiles[i].value, before[i].value);
        }
    }
    let mut old_hidden: Vec<String> = before
        .iter()
        .filter(|t| t.status == TileStatus::Hidden)
        .map(|t| t.value.clone())
        .collect();
    let mut new_hidden: Vec<String> = st
        .tiles
        .iter()
        .filter(|t| t.status == TileStatus::Hidden)
        .map(|t| t.value.clone())
        .collect();
    old_hidden.sort();
    new_hidden.sort();
    assert_eq!(old_hidden, new_hidden);
}

#[test]
fn reshuffle_with_one_hidden_tile_is_a_no_op() {
    let p = pool(&["a", "b"]);
    let mut st = AppState::new(&p);
    st.tiles = vec![
        Tile { value: "a".to_string(), status: TileStatus::Hidden },
        Tile { value: "b".to_string(), status: TileStatus::Matched },
    ];
    st.reshuffle_hidden_tiles();
    assert_eq!(st.tiles[0].value, "a");
    assert_eq!(st.tiles[1].value, "b");
}

#[test]
fn difficulty_configs() {
    assert_eq!(Difficulty::Easy.config(), (3, 4, 2));
    assert_eq!(Difficulty::Medium.config(), (4, 6, 2));
    assert_eq!(Difficulty::Hard.config(), (6, 7, 2));
    assert_eq!(Difficulty::Impossible.config(), (6, 8, 2));
    assert_eq!(Difficulty::Tri.config(), (6, 7, 3));
    assert_eq!(Difficulty::RecallMode.config(), (3, 4, 2));
}

#[test]
fn difficulty_names() {
    assert_eq!(Difficulty::Easy.name(), "Easy");
    assert_eq!(Difficulty::Medium.name(), "Normal");
    assert_eq!(Difficulty::Impossible.name(), "Expert");
    assert_eq!(Difficulty::RecallMode.name(), "Infinite");
}

#[test]
fn set_difficulty_builds_matching_grid() {
    let p = pool(&["a", "b", "c", "d", "e", "f", "g", "h", "i", "j", "k", "l"]);
    let mut st = AppState::new(&p);
    st.set_difficulty(Difficulty::Hard, &p);
    assert_eq!((st.grid_cols, st.grid_rows, st.match_size), (6, 7, 2));
    assert_eq!(st.tiles.len(), 42);
    st.set_difficulty(Difficulty::Tri, &p);
    assert_eq!(st.match_size, 3);
    assert_eq!(st.tiles.len(), 42);
}

#[test]
fn tri_and_recall_level_grids() {
    let p = pool(&["a", "b", "c", "d", "e", "f", "g", "h", "i", "j", "k", "l"]);
    let mut st = AppState::new(&p);
    st.set_difficulty(Difficulty::Tri, &p);
    st.set_tri_level(1, &p);
    assert_eq!((st.grid_cols, st.grid_rows, st.match_size), (4, 6, 3));
    st.set_tri_level(9, &p);
    assert_eq!(st.tri_level, 4);
    assert_eq!((st.grid_cols, st.grid_rows, st.match_size), (6, 8, 3));
    st.set_difficulty(Difficulty::RecallMode, &p);
    st.set_recall_level(3, &p);
    assert_eq!((st.grid_cols, st.grid_rows, st.match_size), (6, 7, 2));
}

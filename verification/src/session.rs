use vstd::prelude::*;

use crate::board::{hidden_values, shuffle_indices};
use crate::classic_penalties;
use crate::classic_penalties::{
    spec_mismatch_pause_ms, spec_register_mismatch, with_pressure_cleared, PunishmentPlan,
};
use crate::infinite;
use crate::infinite::{
    sat_inc_u32, spec_advance_round, spec_classic_difficulty_for_round,
    spec_infinite_milestone_value, LevelUpEvent,
};
use crate::state::{AppState, Difficulty, Tile, TileStatus};
use crate::tri_penalties;
use crate::tri_penalties::{spec_register_mismatch_tri, spec_tri_mismatch_pause_ms};

verus! {

/// What one more flip means for the current flip group.
#[derive(Clone, Copy, Debug, PartialEq, Eq, Structural)]
pub enum FlipOutcome {
    Continue,
    Mismatch,
    CompleteMatch,
}

/// Outcome of a flip group: a mismatch as soon as any flipped tile differs
/// from the first, a complete match once the whole group is flipped, more
/// flips needed otherwise.
pub open spec fn spec_evaluate_flip_outcome(
    tiles: Seq<Tile>,
    indices: Seq<usize>,
    latest_index: usize,
    match_size: int,
) -> FlipOutcome {
    if indices.len() > 1 && tiles[indices[0] as int].value@ != tiles[latest_index as int].value@ {
        FlipOutcome::Mismatch
    } else if indices.len() == match_size {
        FlipOutcome::CompleteMatch
    } else {
        FlipOutcome::Continue
    }
}

/// Compare the latest flipped tile against the first of the group and
/// decide whether the group goes on, fails, or completes.
pub fn evaluate_flip_outcome(st: &AppState, indices: &Vec<usize>, latest_index: usize) -> (r:
    FlipOutcome)
    requires
        latest_index < st.tiles@.len(),
        forall|i: int| 0 <= i < indices@.len() ==> (#[trigger] indices@[i]) < st.tiles@.len(),
    ensures
        r == spec_evaluate_flip_outcome(
            st.tiles@,
            indices@,
            latest_index,
            st.match_size as int,
        ),
{
    if indices.len() > 1 {
        if !(st.tiles[latest_index].value == st.tiles[indices[0]].value) {
            return FlipOutcome::Mismatch;
        }
    }

    if indices.len() == st.match_size {
        FlipOutcome::CompleteMatch
    } else {
        FlipOutcome::Continue
    }
}

/// With a match group of two, the second flip completes the group exactly
/// when both tiles carry the same value, and fails it otherwise.
pub proof fn lemma_flip_outcome_pairs(tiles: Seq<Tile>, i: usize, j: usize)
    requires
        0 <= i < tiles.len(),
        0 <= j < tiles.len(),
    ensures
        tiles[i as int].value@ == tiles[j as int].value@ ==> spec_evaluate_flip_outcome(
            tiles,
            seq![i, j],
            j,
            2,
        ) == FlipOutcome::CompleteMatch,
        tiles[i as int].value@ != tiles[j as int].value@ ==> spec_evaluate_flip_outcome(
            tiles,
            seq![i, j],
            j,
            2,
        ) == FlipOutcome::Mismatch,
{
}

/// The classic tier whose penalty rules govern the state right now: in the
/// endless mode the tier of the current round, otherwise the mode itself.
pub open spec fn spec_penalty_difficulty(st: AppState) -> Difficulty {
    if st.difficulty == Difficulty::RecallMode {
        spec_classic_difficulty_for_round(st.infinite_round)
    } else {
        st.difficulty
    }
}

/// What the state machine asks the caller to do after a click.
#[derive(Clone, Copy, Debug, PartialEq, Eq, Structural)]
pub enum FlipResponse {
    /// The click was invalid or input was locked; nothing changed.
    Ignored,
    /// The tile flipped; the group needs more flips.
    MoreFlips,
    /// The group failed; pause, hide the group, then apply the plan if any.
    GroupMismatch { pause_ms: u64, plan: Option<PunishmentPlan> },
    /// The group completed; resolve it with the flipped indices.
    GroupComplete,
}

/// Handle one tile click: flip the tile, extend the flip group, and decide
/// the consequence. Invalid clicks (locked input, bad index, tile not
/// hidden) change nothing. A mismatch books the miss and asks the active
/// penalty engine; a completed group books the match and releases the
/// penalty pressure; both lock input until the caller resolves them.
pub fn handle_tile_click(st: &mut AppState, index: usize) -> (r: FlipResponse)
    requires
        old(st).wf(),
    ensures
        final(st).wf(),
        (index >= old(st).tiles@.len() || old(st).lock_input || old(st).tiles@[index as int].status
            != TileStatus::Hidden) ==> (*final(st) == *old(st) && r == FlipResponse::Ignored),
        !(index >= old(st).tiles@.len() || old(st).lock_input || old(
            st,
        ).tiles@[index as int].status != TileStatus::Hidden) ==> ({
            let flipped_tile = Tile {
                value: old(st).tiles@[index as int].value,
                status: TileStatus::Flipped,
            };
            let mid = AppState {
                tiles: final(st).tiles,
                flipped_indices: final(st).flipped_indices,
                active_session_started: true,
                ..*old(st)
            };
            let outcome = spec_evaluate_flip_outcome(
                final(st).tiles@,
                final(st).flipped_indices@,
                index,
                old(st).match_size as int,
            );
            let first_pick = final(st).flipped_indices@[0];
            let pd = spec_penalty_difficulty(*old(st));
            &&& final(st).tiles@ == old(st).tiles@.update(index as int, flipped_tile)
            &&& final(st).flipped_indices@ == old(st).flipped_indices@.push(index)
            &&& final(st).active_session_started
            &&& (outcome == FlipOutcome::Continue ==> (*final(st) == mid && r
                == FlipResponse::MoreFlips))
            &&& (outcome == FlipOutcome::Mismatch ==> ({
                let counted = AppState {
                    run_mismatches: sat_inc_u32(old(st).run_mismatches),
                    ..mid
                };
                let engine = if old(st).difficulty == Difficulty::Tri {
                    spec_register_mismatch_tri(counted, first_pick)
                } else {
                    spec_register_mismatch(counted, first_pick, pd)
                };
                let pause = if old(st).difficulty == Difficulty::Tri {
                    spec_tri_mismatch_pause_ms(old(st).tri_level)
                } else {
                    spec_mismatch_pause_ms(pd)
                };
                &&& *final(st) == (AppState { lock_input: true, ..engine.0 })
                &&& r == (FlipResponse::GroupMismatch { pause_ms: pause, plan: engine.1 })
            }))
            &&& (outcome == FlipOutcome::CompleteMatch ==> ({
                let counted = AppState { run_matches: sat_inc_u32(old(st).run_matches), ..mid };
                let cleared = if old(st).difficulty == Difficulty::Tri {
                    if old(st).tri_level >= 2 {
                        with_pressure_cleared(counted)
                    } else {
                        counted
                    }
                } else {
                    if pd == Difficulty::Medium || pd == Difficulty::Hard || pd
                        == Difficulty::Impossible {
                        with_pressure_cleared(counted)
                    } else {
                        counted
                    }
                };
                &&& *final(st) == (AppState { lock_input: true, ..cleared })
                &&& r == FlipResponse::GroupComplete
            }))
        }),
{
    if index >= st.tiles.len() {
        return FlipResponse::Ignored;
    }
    if st.lock_input {
        return FlipResponse::Ignored;
    }
    if !(st.tiles[index].status == TileStatus::Hidden) {
        return FlipResponse::Ignored;
    }

    let value = st.tiles[index].value.clone();
    st.tiles[index] = Tile { value, status: TileStatus::Flipped };
    proof {
        assert(st.tiles@ =~= old(st).tiles@.update(
            index as int,
            Tile { value: old(st).tiles@[index as int].value, status: TileStatus::Flipped },
        ));
    }
    st.flipped_indices.push(index);
    st.active_session_started = true;

    let outcome = evaluate_flip_outcome(st, &st.flipped_indices, index);

    match outcome {
        FlipOutcome::Mismatch => {
            st.run_mismatches = if st.run_mismatches == u32::MAX {
                u32::MAX
            } else {
                st.run_mismatches + 1
            };
            let first_pick_index = st.flipped_indices[0];
            let (pause_ms, plan): (u64, Option<PunishmentPlan>) = if st.difficulty
                == Difficulty::Tri {
                let p = tri_penalties::mismatch_pause_ms(st.tri_level);
                let plan = tri_penalties::register_mismatch_and_plan_reshuffle(
                    st,
                    first_pick_index,
                );
                (p, plan)
            } else {
                let penalty_difficulty = if infinite::is_infinite(st.difficulty) {
                    infinite::classic_difficulty_for_round(st.infinite_round)
                } else {
                    st.difficulty
                };
                let p = classic_penalties::mismatch_pause_ms(penalty_difficulty);
                let plan = classic_penalties::register_mismatch_and_plan_reshuffle_for(
                    st,
                    first_pick_index,
                    penalty_difficulty,
                );
                (p, plan)
            };
            st.lock_input = true;
            FlipResponse::GroupMismatch { pause_ms, plan }
        },
        FlipOutcome::CompleteMatch => {
            st.run_matches = if st.run_matches == u32::MAX {
                u32::MAX
            } else {
                st.run_matches + 1
            };
            if st.difficulty == Difficulty::Tri {
                tri_penalties::reset_penalty_after_match(st);
            } else {
                let penalty_difficulty = if infinite::is_infinite(st.difficulty) {
                    infinite::classic_difficulty_for_round(st.infinite_round)
                } else {
                    st.difficulty
                };
                classic_penalties::reset_penalty_after_match_for(st, penalty_difficulty);
            }
            st.lock_input = true;
            FlipResponse::GroupComplete
        },
        FlipOutcome::Continue => FlipResponse::MoreFlips,
    }
}

/// Every tile on the board is matched: the round is over.
pub open spec fn spec_all_matched(tiles: Seq<Tile>) -> bool {
    forall|i: int| 0 <= i < tiles.len() ==> (#[trigger] tiles[i]).status == TileStatus::Matched
}

/// Whether every tile is matched.
pub fn all_tiles_matched(st: &AppState) -> (r: bool)
    ensures
        r == spec_all_matched(st.tiles@),
{
    let mut i: usize = 0;
    while i < st.tiles.len()
        invariant
            i <= st.tiles@.len(),
            forall|k: int| 0 <= k < i ==> (#[trigger] st.tiles@[k]).status == TileStatus::Matched,
        decreases st.tiles@.len() - i,
    {
        if !(st.tiles[i].status == TileStatus::Matched) {
            return false;
        }
        i += 1;
    }
    true
}

/// Some entry of `s` before `bound` equals `x`.
pub open spec fn index_in(s: Seq<usize>, bound: int, x: usize) -> bool {
    exists|w: int| 0 <= w < bound && (#[trigger] s[w]) == x
}

/// What resolving a completed flip group led to.
#[derive(Clone, Copy, Debug, PartialEq, Eq, Structural)]
pub enum MatchResolution {
    /// The round this group belonged to is gone; nothing changed.
    Stale,
    /// The group is matched and the round goes on.
    Continuing,
    /// The board is complete; the endless mode moves to the next round.
    RoundCompleteInfinite,
    /// The board is complete; the run ends in a victory.
    RoundCompleteClassic,
}

/// Resolve a completed flip group: mark its tiles matched, clear the group,
/// unlock input, and report whether that finished the board. A stale game
/// id leaves everything unchanged.
pub fn resolve_match(st: &mut AppState, game_id: u64, indices: &Vec<usize>) -> (r: MatchResolution)
    requires
        forall|j: int| 0 <= j < indices@.len() ==> (#[trigger] indices@[j]) < old(st).tiles@.len(),
    ensures
        old(st).game_id != game_id ==> (*final(st) == *old(st) && r == MatchResolution::Stale),
        old(st).game_id == game_id ==> ({
            &&& *final(st) == (AppState {
                tiles: final(st).tiles,
                flipped_indices: final(st).flipped_indices,
                lock_input: false,
                ..*old(st)
            })
            &&& final(st).flipped_indices@.len() == 0
            &&& final(st).tiles@.len() == old(st).tiles@.len()
            &&& forall|i: usize|
                i < old(st).tiles@.len() ==> (#[trigger] final(st).tiles@[i as int]).status == (
                if index_in(indices@, indices@.len() as int, i) {
                    TileStatus::Matched
                } else {
                    old(st).tiles@[i as int].status
                })
            &&& forall|i: int|
                0 <= i < old(st).tiles@.len() ==> (#[trigger] final(st).tiles@[i]).value@ == old(
                    st,
                ).tiles@[i].value@
            &&& r == (if spec_all_matched(final(st).tiles@) {
                if old(st).difficulty == Difficulty::RecallMode {
                    MatchResolution::RoundCompleteInfinite
                } else {
                    MatchResolution::RoundCompleteClassic
                }
            } else {
                MatchResolution::Continuing
            })
        }),
{
    if !(st.game_id == game_id) {
        return MatchResolution::Stale;
    }

    let ghost orig = st.tiles@;
    let mut j: usize = 0;
    while j < indices.len()
        invariant
            j <= indices@.len(),
            forall|k: int| 0 <= k < indices@.len() ==> (#[trigger] indices@[k]) < orig.len(),
            st.tiles@.len() == orig.len(),
            forall|i: usize|
                i < orig.len() ==> (#[trigger] st.tiles@[i as int]).status == (
                if index_in(indices@, j as int, i) {
                    TileStatus::Matched
                } else {
                    orig[i as int].status
                }),
            forall|i: int|
                0 <= i < orig.len() ==> (#[trigger] st.tiles@[i]).value@ == orig[i].value@,
            *st == (AppState { tiles: st.tiles, ..*old(st) }),
        decreases indices@.len() - j,
    {
        let idx = indices[j];
        let value = st.tiles[idx].value.clone();
        st.tiles[idx] = Tile { value, status: TileStatus::Matched };
        proof {
            assert forall|i: usize|
                i < orig.len() implies (#[trigger] st.tiles@[i as int]).status == (
            if index_in(indices@, j + 1, i) {
                TileStatus::Matched
            } else {
                orig[i as int].status
            }) by {
                if i == idx {
                    assert((indices@[j as int]) == idx);
                    assert(index_in(indices@, j + 1, i));
                } else {
                    if index_in(indices@, j + 1, i) {
                        let w = choose|w: int|
                            0 <= w < j + 1 && (#[trigger] indices@[w]) == i;
                        assert(w != j);
                        assert(index_in(indices@, j as int, i));
                    } else {
                        assert(!index_in(indices@, j as int, i)) by {
                            if index_in(indices@, j as int, i) {
                                let w = choose|w: int|
                                    0 <= w < j && (#[trigger] indices@[w]) == i;
                                assert(0 <= w < j + 1 && (indices@[w]) == i);
                                assert(index_in(indices@, j + 1, i));
                            }
                        }
                    }
                }
            }
        }
        j += 1;
    }
    st.flipped_indices = Vec::new();
    st.lock_input = false;

    if all_tiles_matched(st) {
        if st.difficulty == Difficulty::RecallMode {
            MatchResolution::RoundCompleteInfinite
        } else {
            MatchResolution::RoundCompleteClassic
        }
    } else {
        MatchResolution::Continuing
    }
}

/// Turn the tiles at the given indices face down again. A stale game id
/// leaves everything unchanged.
pub fn hide_tiles_at(st: &mut AppState, game_id: u64, indices: &Vec<usize>) -> (applied: bool)
    requires
        forall|j: int| 0 <= j < indices@.len() ==> (#[trigger] indices@[j]) < old(st).tiles@.len(),
    ensures
        old(st).game_id != game_id ==> (*final(st) == *old(st) && !applied),
        old(st).game_id == game_id ==> ({
            &&& applied
            &&& *final(st) == (AppState { tiles: final(st).tiles, ..*old(st) })
            &&& final(st).tiles@.len() == old(st).tiles@.len()
            &&& forall|i: usize|
                i < old(st).tiles@.len() ==> (#[trigger] final(st).tiles@[i as int]).status == (
                if index_in(indices@, indices@.len() as int, i) {
                    TileStatus::Hidden
                } else {
                    old(st).tiles@[i as int].status
                })
            &&& forall|i: int|
                0 <= i < old(st).tiles@.len() ==> (#[trigger] final(st).tiles@[i]).value@ == old(
                    st,
                ).tiles@[i].value@
        }),
{
    if !(st.game_id == game_id) {
        return false;
    }

    let ghost orig = st.tiles@;
    let mut j: usize = 0;
    while j < indices.len()
        invariant
            j <= indices@.len(),
            forall|k: int| 0 <= k < indices@.len() ==> (#[trigger] indices@[k]) < orig.len(),
            st.tiles@.len() == orig.len(),
            forall|i: usize|
                i < orig.len() ==> (#[trigger] st.tiles@[i as int]).status == (
                if index_in(indices@, j as int, i) {
                    TileStatus::Hidden
                } else {
                    orig[i as int].status
                }),
            forall|i: int|
                0 <= i < orig.len() ==> (#[trigger] st.tiles@[i]).value@ == orig[i].value@,
            *st == (AppState { tiles: st.tiles, ..*old(st) }),
        decreases indices@.len() - j,
    {
        let idx = indices[j];
        let value = st.tiles[idx].value.clone();
        st.tiles[idx] = Tile { value, status: TileStatus::Hidden };
        proof {
            assert forall|i: usize|
                i < orig.len() implies (#[trigger] st.tiles@[i as int]).status == (
            if index_in(indices@, j + 1, i) {
                TileStatus::Hidden
            } else {
                orig[i as int].status
            }) by {
                if i == idx {
                    assert((indices@[j as int]) == idx);
                    assert(index_in(indices@, j + 1, i));
                } else {
                    if index_in(indices@, j + 1, i) {
                        let w = choose|w: int|
                            0 <= w < j + 1 && (#[trigger] indices@[w]) == i;
                        assert(w != j);
                        assert(index_in(indices@, j as int, i));
                    } else {
                        assert(!index_in(indices@, j as int, i)) by {
                            if index_in(indices@, j as int, i) {
                                let w = choose|w: int|
                                    0 <= w < j && (#[trigger] indices@[w]) == i;
                                assert(0 <= w < j + 1 && (indices@[w]) == i);
                                assert(index_in(indices@, j + 1, i));
                            }
                        }
                    }
                }
            }
        }
        j += 1;
    }
    true
}

/// The values of `tiles` at the positions where `ref_tiles` is hidden, in
/// board order.
pub open spec fn values_at_hidden_of(ref_tiles: Seq<Tile>, tiles: Seq<Tile>) -> Seq<Seq<char>>
    decreases ref_tiles.len(),
{
    if ref_tiles.len() == 0 || tiles.len() == 0 {
        Seq::empty()
    } else {
        let rest = values_at_hidden_of(ref_tiles.drop_last(), tiles.drop_last());
        if ref_tiles.last().status == TileStatus::Hidden {
            rest.push(tiles.last().value@)
        } else {
            rest
        }
    }
}

/// Reading values through a reference board whose statuses agree with the
/// board itself reads exactly the hidden values.
proof fn lemma_vah_statuses(ref_tiles: Seq<Tile>, tiles: Seq<Tile>)
    requires
        ref_tiles.len() == tiles.len(),
        forall|i: int|
            0 <= i < tiles.len() ==> (#[trigger] ref_tiles[i]).status == tiles[i].status,
    ensures
        values_at_hidden_of(ref_tiles, tiles) == hidden_values(tiles),
    decreases ref_tiles.len(),
{
    if ref_tiles.len() > 0 {
        lemma_vah_statuses(ref_tiles.drop_last(), tiles.drop_last());
        assert(ref_tiles.last().status == tiles.last().status);
    }
}

/// Reading values through a reference board ignores statuses of the board
/// read from: boards with pointwise equal values read the same.
proof fn lemma_vah_values_only(ref_tiles: Seq<Tile>, a: Seq<Tile>, b: Seq<Tile>)
    requires
        a.len() == b.len(),
        forall|i: int| 0 <= i < a.len() ==> (#[trigger] a[i]).value@ == b[i].value@,
    ensures
        values_at_hidden_of(ref_tiles, a) == values_at_hidden_of(ref_tiles, b),
    decreases ref_tiles.len(),
{
    if ref_tiles.len() > 0 && a.len() > 0 {
        lemma_vah_values_only(ref_tiles.drop_last(), a.drop_last(), b.drop_last());
        assert(a.last().value@ == b.last().value@);
    }
}

/// Boards with pointwise equal statuses have hidden value lists of the same
/// length (at the same positions).
proof fn lemma_hidden_len_statuses(a: Seq<Tile>, b: Seq<Tile>)
    requires
        a.len() == b.len(),
        forall|i: int| 0 <= i < a.len() ==> (#[trigger] a[i]).status == b[i].status,
    ensures
        hidden_values(a).len() == hidden_values(b).len(),
    decreases a.len(),
{
    if a.len() > 0 {
        lemma_hidden_len_statuses(a.drop_last(), b.drop_last());
        assert(a.last().status == b.last().status);
    }
}

/// Carry out a punishment on the board: reshuffle the hidden tiles if the
/// plan says so, then force-reveal a random selection of hidden tiles (all
/// of them, or the plan's count as far as tiles are hidden). The revealed
/// indices are returned so the caller can hide them again after the plan's
/// display time. Input stays locked. A stale game id leaves everything
/// unchanged and reveals nothing.
pub fn apply_punishment(st: &mut AppState, game_id: u64, plan: &PunishmentPlan) -> (revealed: Vec<
    usize,
>)
    ensures
        old(st).game_id != game_id ==> (*final(st) == *old(st) && revealed@.len() == 0),
        old(st).game_id == game_id ==> ({
            let hidden_count = hidden_values(old(st).tiles@).len();
            &&& *final(st) == (AppState {
                tiles: final(st).tiles,
                flipped_indices: final(st).flipped_indices,
                lock_input: true,
                ..*old(st)
            })
            &&& final(st).flipped_indices@.len() == 0
            &&& final(st).tiles@.len() == old(st).tiles@.len()
            &&& revealed@.len() == (if plan.reveal_all_hidden {
                hidden_count
            } else if plan.reveal_count <= hidden_count {
                plan.reveal_count as nat
            } else {
                hidden_count
            })
            &&& revealed@.no_duplicates()
            &&& forall|j: int|
                0 <= j < revealed@.len() ==> (#[trigger] revealed@[j]) < old(st).tiles@.len()
                    && old(st).tiles@[revealed@[j] as int].status == TileStatus::Hidden
            &&& forall|i: usize|
                i < old(st).tiles@.len() ==> (#[trigger] final(st).tiles@[i as int]).status == (
                if index_in(revealed@, revealed@.len() as int, i) {
                    TileStatus::Flipped
                } else {
                    old(st).tiles@[i as int].status
                })
            &&& forall|i: int|
                0 <= i < old(st).tiles@.len() && old(st).tiles@[i].status != TileStatus::Hidden
                    ==> (#[trigger] final(st).tiles@[i]).value@ == old(st).tiles@[i].value@
            &&& values_at_hidden_of(old(st).tiles@, final(st).tiles@).to_multiset()
                == hidden_values(old(st).tiles@).to_multiset()
        }),
{
    if !(st.game_id == game_id) {
        return Vec::new();
    }

    let ghost orig = st.tiles@;
    if plan.reshuffle_hidden {
        st.reshuffle_hidden_tiles();
    }
    let ghost mid = st.tiles@;
    proof {
        lemma_hidden_len_statuses(orig, mid);
        lemma_vah_statuses(orig, mid);
    }

    // Collect the currently hidden indices, in increasing order.
    let mut hidden_idxs: Vec<usize> = Vec::new();
    let mut hidden_vals_len: usize = 0;
    let mut idx: usize = 0;
    let ghost mid_state = *st;
    while idx < st.tiles.len()
        invariant
            *st == mid_state,
            st.tiles@ == mid,
            idx <= mid.len(),
            hidden_idxs@.len() <= idx,
            forall|j: int| 0 <= j < hidden_idxs@.len() ==> (#[trigger] hidden_idxs@[j]) < idx,
            forall|j1: int, j2: int|
                0 <= j1 < j2 < hidden_idxs@.len() ==> hidden_idxs@[j1] < hidden_idxs@[j2],
            forall|j: int|
                0 <= j < hidden_idxs@.len() ==> (#[trigger] mid[hidden_idxs@[j] as int]).status
                    == TileStatus::Hidden,
            hidden_idxs@.len() == hidden_values(mid.take(idx as int)).len(),
        decreases mid.len() - idx,
    {
        proof {
            crate::board::lemma_hidden_values_take_step(mid, idx as int);
        }
        if st.tiles[idx].status == TileStatus::Hidden {
            hidden_idxs.push(idx);
            proof {
                assert(hidden_idxs@[hidden_idxs@.len() - 1] == idx);
            }
        }
        idx += 1;
    }
    proof {
        assert(mid.take(mid.len() as int) =~= mid);
        hidden_idxs@.lemma_multiset_has_no_duplicates();
    }

    // Reveal a random selection: shuffle the hidden indices and take the
    // requested number from the front.
    let ghost pre_shuffle = hidden_idxs@;
    shuffle_indices(&mut hidden_idxs);
    proof {
        vstd::seq_lib::lemma_multiset_commutative(pre_shuffle, pre_shuffle);
        broadcast use vstd::seq_lib::group_to_multiset_ensures;

        assert forall|j: int| 0 <= j < hidden_idxs@.len() implies (#[trigger] hidden_idxs@[j])
            < mid.len() && mid[hidden_idxs@[j] as int].status == TileStatus::Hidden by {
            let x = hidden_idxs@[j];
            assert(hidden_idxs@.contains(x));
            assert(hidden_idxs@.to_multiset().count(x) > 0);
            assert(pre_shuffle.to_multiset().count(x) > 0);
            assert(pre_shuffle.contains(x));
            let w = choose|w: int| 0 <= w < pre_shuffle.len() && pre_shuffle[w] == x;
            assert(pre_shuffle[w] < mid.len());
        }
        assert forall|x: usize| hidden_idxs@.to_multiset().contains(x) implies
            hidden_idxs@.to_multiset().count(x) == 1 by {
            assert(pre_shuffle.to_multiset().count(x) == hidden_idxs@.to_multiset().count(x));
        }
        hidden_idxs@.lemma_multiset_has_no_duplicates_conv();
    }

    let reveal_target: usize = if plan.reveal_all_hidden {
        hidden_idxs.len()
    } else if plan.reveal_count <= hidden_idxs.len() {
        plan.reveal_count
    } else {
        hidden_idxs.len()
    };
    let mut revealed: Vec<usize> = Vec::new();
    let mut k: usize = 0;
    while k < reveal_target
        invariant
            *st == mid_state,
            st.tiles@ == mid,
            k <= reveal_target <= hidden_idxs@.len(),
            revealed@ == hidden_idxs@.take(k as int),
        decreases reveal_target - k,
    {
        revealed.push(hidden_idxs[k]);
        proof {
            assert(revealed@ =~= hidden_idxs@.take(k + 1));
        }
        k += 1;
    }
    proof {
        assert(forall|j1: int, j2: int|
            0 <= j1 < j2 < revealed@.len() ==> revealed@[j1] == hidden_idxs@[j1] && revealed@[j2]
                == hidden_idxs@[j2]);
    }

    // Flip the selected tiles face up.
    let ghost before_reveal = st.tiles@;
    let count = revealed.len();
    let mut r: usize = 0;
    while r < count
        invariant
            r <= count,
            count == revealed@.len(),
            forall|j: int| 0 <= j < revealed@.len() ==> (#[trigger] revealed@[j]) < mid.len(),
            st.tiles@.len() == mid.len() == before_reveal.len(),
            forall|i: usize|
                i < mid.len() ==> (#[trigger] st.tiles@[i as int]).status == (
                if index_in(revealed@, r as int, i) {
                    TileStatus::Flipped
                } else {
                    mid[i as int].status
                }),
            forall|i: int|
                0 <= i < mid.len() ==> (#[trigger] st.tiles@[i]).value@ == mid[i].value@,
            *st == (AppState { tiles: st.tiles, ..mid_state }),
        decreases count - r,
    {
        let idx2 = revealed[r];
        let value = st.tiles[idx2].value.clone();
        st.tiles[idx2] = Tile { value, status: TileStatus::Flipped };
        proof {
            assert forall|i: usize|
                i < mid.len() implies (#[trigger] st.tiles@[i as int]).status == (
            if index_in(revealed@, r + 1, i) {
                TileStatus::Flipped
            } else {
                mid[i as int].status
            }) by {
                if i == idx2 {
                    assert((revealed@[r as int]) == idx2);
                    assert(index_in(revealed@, r + 1, i));
                } else {
                    if index_in(revealed@, r + 1, i) {
                        let w = choose|w: int|
                            0 <= w < r + 1 && (#[trigger] revealed@[w]) == i;
                        assert(w != r);
                        assert(index_in(revealed@, r as int, i));
                    } else {
                        assert(!index_in(revealed@, r as int, i)) by {
                            if index_in(revealed@, r as int, i) {
                                let w = choose|w: int|
                                    0 <= w < r && (#[trigger] revealed@[w]) == i;
                                assert(0 <= w < r + 1 && (revealed@[w]) == i);
                                assert(index_in(revealed@, r + 1, i));
                            }
                        }
                    }
                }
            }
        }
        r += 1;
    }

    st.flipped_indices = Vec::new();
    st.lock_input = true;

    proof {
        lemma_vah_values_only(orig, mid, st.tiles@);
        assert(values_at_hidden_of(orig, st.tiles@) == hidden_values(mid));
        assert forall|j: int|
            0 <= j < revealed@.len() implies (#[trigger] revealed@[j]) < orig.len()
                && orig[revealed@[j] as int].status == TileStatus::Hidden by {
            assert(mid[revealed@[j] as int].status == TileStatus::Hidden);
        }
    }
    revealed
}

/// Close out a mismatch whose tiles are hidden again: clear the flip group
/// and accept input again. A stale game id leaves everything unchanged.
pub fn finish_mismatch(st: &mut AppState, game_id: u64) -> (applied: bool)
    ensures
        old(st).game_id != game_id ==> (*final(st) == *old(st) && !applied),
        old(st).game_id == game_id ==> ({
            &&& applied
            &&& *final(st) == (AppState {
                flipped_indices: final(st).flipped_indices,
                lock_input: false,
                ..*old(st)
            })
            &&& final(st).flipped_indices@.len() == 0
        }),
{
    if !(st.game_id == game_id) {
        return false;
    }
    st.flipped_indices = Vec::new();
    st.lock_input = false;
    true
}

/// First step of moving the endless mode to its next round: lock input and
/// drop the flip group. A stale game id leaves everything unchanged.
pub fn begin_infinite_transition(st: &mut AppState, game_id: u64) -> (applied: bool)
    ensures
        old(st).game_id != game_id ==> (*final(st) == *old(st) && !applied),
        old(st).game_id == game_id ==> ({
            &&& applied
            &&& *final(st) == (AppState {
                flipped_indices: final(st).flipped_indices,
                lock_input: true,
                ..*old(st)
            })
            &&& final(st).flipped_indices@.len() == 0
        }),
{
    if !(st.game_id == game_id) {
        return false;
    }
    st.lock_input = true;
    st.flipped_indices = Vec::new();
    true
}

/// Turn the whole board face down, as the display step between endless
/// rounds. A stale game id leaves everything unchanged.
pub fn hide_all_tiles(st: &mut AppState, game_id: u64) -> (applied: bool)
    ensures
        old(st).game_id != game_id ==> (*final(st) == *old(st) && !applied),
        old(st).game_id == game_id ==> ({
            &&& applied
            &&& *final(st) == (AppState { tiles: final(st).tiles, ..*old(st) })
            &&& final(st).tiles@.len() == old(st).tiles@.len()
            &&& forall|i: int|
                0 <= i < old(st).tiles@.len() ==> (#[trigger] final(st).tiles@[i]).status
                    == TileStatus::Hidden && final(st).tiles@[i].value@ == old(
                    st,
                ).tiles@[i].value@
        }),
{
    if !(st.game_id == game_id) {
        return false;
    }
    let ghost orig = st.tiles@;
    let total = st.tiles.len();
    let mut i: usize = 0;
    while i < total
        invariant
            i <= total,
            st.tiles@.len() == orig.len() == total,
            forall|k: int|
                0 <= k < i ==> (#[trigger] st.tiles@[k]).status == TileStatus::Hidden
                    && st.tiles@[k].value@ == orig[k].value@,
            forall|k: int| i <= k < total ==> (#[trigger] st.tiles@[k]) == orig[k],
            *st == (AppState { tiles: st.tiles, ..*old(st) }),
        decreases total - i,
    {
        let value = st.tiles[i].value.clone();
        st.tiles[i] = Tile { value, status: TileStatus::Hidden };
        i += 1;
    }
    true
}

/// Last step of the transition: advance the round counter, applying tier
/// and level changes, and report the level-up and milestone of the new
/// round so the caller can announce them. A stale game id leaves everything
/// unchanged and reports nothing.
pub fn finalize_infinite_transition(st: &mut AppState, game_id: u64) -> (r: Option<
    (Option<LevelUpEvent>, Option<(Difficulty, u32)>),
>)
    ensures
        old(st).game_id != game_id ==> (*final(st) == *old(st) && r is None),
        old(st).game_id == game_id ==> ({
            let stepped = spec_advance_round(*old(st));
            &&& *final(st) == stepped.0
            &&& r == Some(
                (stepped.1, spec_infinite_milestone_value(final(st).infinite_round)),
            )
        }),
{
    if !(st.game_id == game_id) {
        return None;
    }
    let level_up = infinite::advance_round(st);
    let milestone = infinite::infinite_milestone_value(st.infinite_round);
    Some((level_up, milestone))
}

} // verus!

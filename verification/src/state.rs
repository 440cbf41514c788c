use vstd::prelude::*;

use crate::board::{
    fresh_board, generate_board, hidden_values, lemma_hidden_values_match, shuffle_values,
    value_views,
};
use crate::text::{spec_trim, str_to_chars, trim_chars};

verus! {

/// Visibility of one tile on the board.
#[derive(Clone, Copy, Debug, PartialEq, Eq, Structural)]
pub enum TileStatus {
    Hidden,
    Flipped,
    Matched,
}

/// One tile: a symbol identifier and its current visibility.
/// An empty `value` marks a filler tile, created already matched to pad a
/// board whose size is not divisible by the match-group size.
#[derive(Clone, Debug)]
pub struct Tile {
    pub value: String,
    pub status: TileStatus,
}

/// Two tiles carry the same observable content.
pub open spec fn tile_eqv(a: Tile, b: Tile) -> bool {
    a.status == b.status && a.value@ == b.value@
}

/// Two tile sequences carry the same observable content.
pub open spec fn tiles_eqv(a: Seq<Tile>, b: Seq<Tile>) -> bool {
    a.len() == b.len() && forall|i: int| 0 <= i < a.len() ==> tile_eqv(a[i], b[i])
}

/// The six game modes.
#[derive(Clone, Copy, Debug, PartialEq, Eq, Structural)]
pub enum Difficulty {
    Easy,
    Medium,
    Hard,
    Impossible,
    Tri,
    RecallMode,
}

impl Default for Difficulty {
    fn default() -> (r: Self)
        ensures
            r == Difficulty::Easy,
    {
        Difficulty::Easy
    }
}

impl Difficulty {
    /// Grid columns, rows and match-group size of a fixed-grid mode.
    pub open spec fn spec_config(self) -> (i32, i32, usize) {
        match self {
            Difficulty::Easy => (3, 4, 2),
            Difficulty::Medium => (4, 6, 2),
            Difficulty::Hard => (6, 7, 2),
            Difficulty::Impossible => (6, 8, 2),
            Difficulty::Tri => (6, 7, 3),
            Difficulty::RecallMode => (3, 4, 2),
        }
    }

    pub fn config(self) -> (r: (i32, i32, usize))
        ensures
            r == self.spec_config(),
    {
        match self {
            Difficulty::Easy => (3, 4, 2),
            Difficulty::Medium => (4, 6, 2),
            Difficulty::Hard => (6, 7, 2),
            Difficulty::Impossible => (6, 8, 2),
            Difficulty::Tri => (6, 7, 3),
            Difficulty::RecallMode => (3, 4, 2),
        }
    }

    pub open spec fn spec_name(self) -> Seq<char> {
        match self {
            Difficulty::Easy => "Easy"@,
            Difficulty::Medium => "Normal"@,
            Difficulty::Hard => "Hard"@,
            Difficulty::Impossible => "Expert"@,
            Difficulty::Tri => "Tri"@,
            Difficulty::RecallMode => "Infinite"@,
        }
    }

    pub fn name(self) -> (r: &'static str)
        ensures
            r@ == self.spec_name(),
    {
        match self {
            Difficulty::Easy => "Easy",
            Difficulty::Medium => "Normal",
            Difficulty::Hard => "Hard",
            Difficulty::Impossible => "Expert",
            Difficulty::Tri => "Tri",
            Difficulty::RecallMode => "Infinite",
        }
    }
}

/// Result grade of a completed round, worst to best.
#[derive(Clone, Copy, Debug, PartialEq, Eq, PartialOrd, Ord, Structural)]
pub enum Rank {
    C,
    B,
    A,
    S,
}

impl Default for Rank {
    fn default() -> (r: Self)
        ensures
            r == Rank::C,
    {
        Rank::C
    }
}

impl Rank {
    /// Numeric strength of the rank, used to order records.
    pub open spec fn spec_strength(self) -> u8 {
        match self {
            Rank::C => 0,
            Rank::B => 1,
            Rank::A => 2,
            Rank::S => 3,
        }
    }

    pub fn strength(self) -> (r: u8)
        ensures
            r == self.spec_strength(),
    {
        match self {
            Rank::C => 0,
            Rank::B => 1,
            Rank::A => 2,
            Rank::S => 3,
        }
    }

    pub open spec fn spec_as_str(self) -> Seq<char> {
        match self {
            Rank::S => "S"@,
            Rank::A => "A"@,
            Rank::B => "B"@,
            Rank::C => "C"@,
        }
    }

    pub fn as_str(self) -> (r: &'static str)
        ensures
            r@ == self.spec_as_str(),
    {
        match self {
            Rank::S => "S",
            Rank::A => "A",
            Rank::B => "B",
            Rank::C => "C",
        }
    }

    /// The rank a stored letter stands for, whitespace and case ignored.
    pub open spec fn spec_from_str(s: Seq<char>) -> Option<Rank> {
        let t = spec_trim(s);
        if t.len() != 1 {
            None
        } else if t[0] == 's' || t[0] == 'S' {
            Some(Rank::S)
        } else if t[0] == 'a' || t[0] == 'A' {
            Some(Rank::A)
        } else if t[0] == 'b' || t[0] == 'B' {
            Some(Rank::B)
        } else if t[0] == 'c' || t[0] == 'C' {
            Some(Rank::C)
        } else {
            None
        }
    }

    pub fn from_str(value: &str) -> (r: Option<Rank>)
        ensures
            r == Rank::spec_from_str(value@),
    {
        let chars = str_to_chars(value);
        let t = trim_chars(&chars);
        if t.len() != 1 {
            return None;
        }
        let c = t[0];
        if c == 's' || c == 'S' {
            Some(Rank::S)
        } else if c == 'a' || c == 'A' {
            Some(Rank::A)
        } else if c == 'b' || c == 'B' {
            Some(Rank::B)
        } else if c == 'c' || c == 'C' {
            Some(Rank::C)
        } else {
            None
        }
    }
}

/// One completed Classic or Tri round.
#[derive(Clone, Debug)]
pub struct ModeRecord {
    pub level: u8,
    pub time_secs: u32,
    pub precision_pct: u8,
    pub rank: Rank,
    pub date_label: String,
}

/// Two mode records carry the same observable content.
pub open spec fn mode_record_eqv(a: ModeRecord, b: ModeRecord) -> bool {
    &&& a.level == b.level
    &&& a.time_secs == b.time_secs
    &&& a.precision_pct == b.precision_pct
    &&& a.rank == b.rank
    &&& a.date_label@ == b.date_label@
}

/// One completed round of the endless mode.
#[derive(Clone, Debug)]
pub struct InfiniteRecord {
    pub round: u32,
    pub segment_level: u8,
    pub segment_survival: u32,
    pub time_secs: u32,
    pub date_label: String,
}

/// Two endless-mode records carry the same observable content.
pub open spec fn infinite_record_eqv(a: InfiniteRecord, b: InfiniteRecord) -> bool {
    &&& a.round == b.round
    &&& a.segment_level == b.segment_level
    &&& a.segment_survival == b.segment_survival
    &&& a.time_secs == b.time_secs
    &&& a.date_label@ == b.date_label@
}

/// Bounded round-result histories, one list per mode family.
#[derive(Clone, Debug)]
pub struct PlayerRecords {
    pub classic: Vec<ModeRecord>,
    pub tri: Vec<ModeRecord>,
    pub infinite: Vec<InfiniteRecord>,
}

impl Default for PlayerRecords {
    fn default() -> (r: Self)
        ensures
            r.classic@.len() == 0,
            r.tri@.len() == 0,
            r.infinite@.len() == 0,
    {
        PlayerRecords { classic: Vec::new(), tri: Vec::new(), infinite: Vec::new() }
    }
}

/// The whole game-relevant session state: the board, the current flip group,
/// mode selectors, penalty pressure, and run counters.
pub struct AppState {
    pub tiles: Vec<Tile>,
    pub flipped_indices: Vec<usize>,
    pub lock_input: bool,
    pub game_id: u64,
    pub grid_cols: i32,
    pub grid_rows: i32,
    pub match_size: usize,
    pub difficulty: Difficulty,
    pub tri_level: u8,
    pub recall_level: u8,
    pub infinite_round: u32,
    pub impossible_mismatch_count: u8,
    pub impossible_punish_stage: u8,
    pub impossible_last_first_index: Option<usize>,
    pub impossible_same_first_streak: u8,
    pub seconds_elapsed: u32,
    pub run_mismatches: u32,
    pub run_matches: u32,
    pub active_session_started: bool,
    pub victory_title_text: String,
    pub victory_message_text: String,
    pub victory_stats_text: String,
    pub records: PlayerRecords,
}

impl Default for AppState {
    fn default() -> (r: Self)
        ensures
            r.tiles@.len() == 0,
            r.flipped_indices@.len() == 0,
            !r.lock_input,
            r.game_id == 0,
            r.grid_cols == 0,
            r.grid_rows == 0,
            r.match_size == 2,
            r.difficulty == Difficulty::Easy,
            r.tri_level == 3,
            r.recall_level == 2,
            r.infinite_round == 1,
            r.pressure_cleared(),
            r.seconds_elapsed == 0,
            r.run_mismatches == 0,
            r.run_matches == 0,
            !r.active_session_started,
            r.victory_title_text@ == "Growing Strong!"@,
            r.victory_message_text@.len() == 0,
            r.victory_stats_text@.len() == 0,
            r.records.classic@.len() == 0,
            r.records.tri@.len() == 0,
            r.records.infinite@.len() == 0,
    {
        AppState {
            tiles: Vec::new(),
            flipped_indices: Vec::new(),
            lock_input: false,
            game_id: 0,
            grid_cols: 0,
            grid_rows: 0,
            match_size: 2,
            difficulty: Difficulty::Easy,
            tri_level: 3,
            recall_level: 2,
            infinite_round: 1,
            impossible_mismatch_count: 0,
            impossible_punish_stage: 0,
            impossible_last_first_index: None,
            impossible_same_first_streak: 0,
            seconds_elapsed: 0,
            run_mismatches: 0,
            run_matches: 0,
            active_session_started: false,
            victory_title_text: "Growing Strong!".to_owned(),
            victory_message_text: String::new(),
            victory_stats_text: String::new(),
            records: PlayerRecords { classic: Vec::new(), tri: Vec::new(), infinite: Vec::new() },
        }
    }
}

impl AppState {
    /// The game id after a fresh round starts: a wrapping increment. Every
    /// deferred step checks it, so bumping it strands all pending steps.
    pub open spec fn spec_next_game_id(id: u64) -> u64 {
        if id == u64::MAX {
            0
        } else {
            (id + 1) as u64
        }
    }

    /// No penalty pressure is currently accumulated.
    pub open spec fn pressure_cleared(self) -> bool {
        &&& self.impossible_mismatch_count == 0
        &&& self.impossible_punish_stage == 0
        &&& self.impossible_last_first_index is None
        &&& self.impossible_same_first_streak == 0
    }

    /// Basic well-formedness: selectors in range and the flip group within
    /// the board.
    pub open spec fn wf(self) -> bool {
        &&& 1 <= self.tri_level <= 4
        &&& 1 <= self.recall_level <= 4
        &&& 1 <= self.infinite_round
        &&& 1 <= self.match_size <= 3
        &&& 1 <= self.grid_cols <= 100
        &&& 1 <= self.grid_rows <= 100
        &&& self.flipped_indices@.len() <= self.match_size
        &&& (self.flipped_indices@.len() < self.match_size || self.lock_input)
        &&& forall|i: int|
            0 <= i < self.flipped_indices@.len() ==> (#[trigger] self.flipped_indices@[i])
                < self.tiles@.len()
    }

    /// Grid shape of a Tri board at the given (clamped) level.
    pub open spec fn spec_tri_config(level: u8) -> (i32, i32, usize) {
        if level <= 1 {
            (4, 6, 3)
        } else if level == 2 {
            (5, 6, 3)
        } else if level == 3 {
            (6, 7, 3)
        } else {
            (6, 8, 3)
        }
    }

    fn tri_config(level: u8) -> (r: (i32, i32, usize))
        ensures
            r == Self::spec_tri_config(level),
    {
        if level <= 1 {
            (4, 6, 3)
        } else if level == 2 {
            (5, 6, 3)
        } else if level == 3 {
            (6, 7, 3)
        } else {
            (6, 8, 3)
        }
    }

    /// Grid shape of an endless-mode board at the given (clamped) level.
    pub open spec fn spec_recall_config(level: u8) -> (i32, i32, usize) {
        if level <= 1 {
            (3, 4, 2)
        } else if level == 2 {
            (4, 6, 2)
        } else if level == 3 {
            (6, 7, 2)
        } else {
            (6, 8, 2)
        }
    }

    fn recall_config(level: u8) -> (r: (i32, i32, usize))
        ensures
            r == Self::spec_recall_config(level),
    {
        if level <= 1 {
            (3, 4, 2)
        } else if level == 2 {
            (4, 6, 2)
        } else if level == 3 {
            (6, 7, 2)
        } else {
            (6, 8, 2)
        }
    }

    /// The grid shape the state's current mode and levels call for.
    pub open spec fn spec_active_config(self) -> (i32, i32, usize) {
        match self.difficulty {
            Difficulty::Tri => Self::spec_tri_config(self.tri_level),
            Difficulty::RecallMode => Self::spec_recall_config(self.recall_level),
            _ => self.difficulty.spec_config(),
        }
    }

    /// A fresh session state for the given symbol pool, set up for Easy.
    pub fn new(pool: &Vec<String>) -> (r: Self)
        requires
            pool@.len() >= 1,
            forall|i: int| 0 <= i < pool@.len() ==> (#[trigger] pool@[i])@.len() > 0,
        ensures
            r.wf(),
            r.difficulty == Difficulty::Easy,
            fresh_board(r.tiles@, r.grid_cols as int, r.grid_rows as int, r.match_size as int),
    {
        let mut st = Self::default();
        st.set_difficulty(Difficulty::Easy, pool);
        st
    }

    /// Switch mode, clear penalty pressure, adopt the mode's grid shape and
    /// start a fresh round.
    pub fn set_difficulty(&mut self, difficulty: Difficulty, pool: &Vec<String>)
        requires
            1 <= old(self).tri_level <= 4,
            1 <= old(self).recall_level <= 4,
            1 <= old(self).infinite_round,
            pool@.len() >= 1,
            forall|i: int| 0 <= i < pool@.len() ==> (#[trigger] pool@[i])@.len() > 0,
        ensures
            final(self).wf(),
            final(self).difficulty == difficulty,
            final(self).tri_level == old(self).tri_level,
            final(self).recall_level == old(self).recall_level,
            final(self).infinite_round == (if difficulty == Difficulty::RecallMode {
                1u32
            } else {
                old(self).infinite_round
            }),
            (final(self).grid_cols, final(self).grid_rows, final(self).match_size) == final(self).spec_active_config(),
            final(self).game_id == Self::spec_next_game_id(old(self).game_id),
            final(self).pressure_cleared(),
            final(self).flipped_indices@.len() == 0,
            !final(self).lock_input,
            fresh_board(
                final(self).tiles@,
                final(self).grid_cols as int,
                final(self).grid_rows as int,
                final(self).match_size as int,
            ),
            final(self).run_mismatches == 0,
            final(self).run_matches == 0,
            final(self).seconds_elapsed == old(self).seconds_elapsed,
            final(self).active_session_started == old(self).active_session_started,
            final(self).records == old(self).records,
    {
        self.difficulty = difficulty;
        self.impossible_mismatch_count = 0;
        self.impossible_punish_stage = 0;
        self.impossible_last_first_index = None;
        self.impossible_same_first_streak = 0;
        if difficulty == Difficulty::RecallMode {
            self.infinite_round = 1;
        }
        let (cols, rows, match_size) = match difficulty {
            Difficulty::Tri => Self::tri_config(self.tri_level),
            Difficulty::RecallMode => Self::recall_config(self.recall_level),
            _ => difficulty.config(),
        };
        self.grid_cols = cols;
        self.grid_rows = rows;
        self.match_size = match_size;
        self.reset_game(pool);
    }

    /// Clamp and adopt a Tri level; restart the round when Tri is active.
    pub fn set_tri_level(&mut self, level: u8, pool: &Vec<String>)
        requires
            old(self).wf(),
            pool@.len() >= 1,
            forall|i: int| 0 <= i < pool@.len() ==> (#[trigger] pool@[i])@.len() > 0,
        ensures
            final(self).wf(),
            final(self).tri_level == (if level <= 1 {
                1u8
            } else if level >= 4 {
                4u8
            } else {
                level
            }),
            final(self).difficulty == old(self).difficulty,
            old(self).difficulty != Difficulty::Tri ==> *final(self) == (AppState {
                tri_level: final(self).tri_level,
                ..*old(self)
            }),
            old(self).difficulty == Difficulty::Tri ==> {
                &&& (final(self).grid_cols, final(self).grid_rows, final(self).match_size)
                    == AppState::spec_tri_config(final(self).tri_level)
                &&& fresh_board(
                    final(self).tiles@,
                    final(self).grid_cols as int,
                    final(self).grid_rows as int,
                    final(self).match_size as int,
                )
                &&& final(self).game_id == AppState::spec_next_game_id(old(self).game_id)
                &&& final(self).flipped_indices@.len() == 0
                &&& !final(self).lock_input
                &&& final(self).pressure_cleared()
                &&& final(self).run_mismatches == 0
                &&& final(self).run_matches == 0
                &&& final(self).recall_level == old(self).recall_level
                &&& final(self).infinite_round == old(self).infinite_round
                &&& final(self).seconds_elapsed == old(self).seconds_elapsed
                &&& final(self).active_session_started == old(self).active_session_started
                &&& final(self).records == old(self).records
            },
    {
        self.tri_level = if level <= 1 {
            1
        } else if level >= 4 {
            4
        } else {
            level
        };
        if self.difficulty == Difficulty::Tri {
            let (cols, rows, match_size) = Self::tri_config(self.tri_level);
            self.grid_cols = cols;
            self.grid_rows = rows;
            self.match_size = match_size;
            self.reset_game(pool);
        }
    }

    /// Clamp and adopt an endless-mode level; restart the round when that
    /// mode is active.
    pub fn set_recall_level(&mut self, level: u8, pool: &Vec<String>)
        requires
            old(self).wf(),
            pool@.len() >= 1,
            forall|i: int| 0 <= i < pool@.len() ==> (#[trigger] pool@[i])@.len() > 0,
        ensures
            final(self).wf(),
            final(self).recall_level == (if level <= 1 {
                1u8
            } else if level >= 4 {
                4u8
            } else {
                level
            }),
            final(self).difficulty == old(self).difficulty,
            old(self).difficulty != Difficulty::RecallMode ==> *final(self) == (AppState {
                recall_level: final(self).recall_level,
                ..*old(self)
            }),
            old(self).difficulty == Difficulty::RecallMode ==> {
                &&& (final(self).grid_cols, final(self).grid_rows, final(self).match_size)
                    == AppState::spec_recall_config(final(self).recall_level)
                &&& fresh_board(
                    final(self).tiles@,
                    final(self).grid_cols as int,
                    final(self).grid_rows as int,
                    final(self).match_size as int,
                )
                &&& final(self).game_id == AppState::spec_next_game_id(old(self).game_id)
                &&& final(self).flipped_indices@.len() == 0
                &&& !final(self).lock_input
                &&& final(self).pressure_cleared()
                &&& (old(self).infinite_round <= 1 ==> final(self).run_mismatches == 0 && final(self).run_matches == 0)
                &&& (old(self).infinite_round > 1 ==> final(self).run_mismatches == old(self).run_mismatches && final(self).run_matches == old(self).run_matches)
                &&& final(self).tri_level == old(self).tri_level
                &&& final(self).infinite_round == old(self).infinite_round
                &&& final(self).seconds_elapsed == old(self).seconds_elapsed
                &&& final(self).active_session_started == old(self).active_session_started
                &&& final(self).records == old(self).records
            },
    {
        self.recall_level = if level <= 1 {
            1
        } else if level >= 4 {
            4
        } else {
            level
        };
        if self.difficulty == Difficulty::RecallMode {
            let (cols, rows, match_size) = Self::recall_config(self.recall_level);
            self.grid_cols = cols;
            self.grid_rows = rows;
            self.match_size = match_size;
            self.reset_game(pool);
        }
    }

    /// Adopt an endless-mode level's grid shape without touching the board.
    pub fn apply_infinite_level_without_reset(&mut self, level: u8)
        ensures
            *final(self) == (AppState {
                recall_level: final(self).recall_level,
                grid_cols: final(self).grid_cols,
                grid_rows: final(self).grid_rows,
                match_size: final(self).match_size,
                ..*old(self)
            }),
            final(self).recall_level == (if level <= 1 {
                1u8
            } else if level >= 4 {
                4u8
            } else {
                level
            }),
            (final(self).grid_cols, final(self).grid_rows, final(self).match_size)
                == AppState::spec_recall_config(final(self).recall_level),
    {
        self.recall_level = if level <= 1 {
            1
        } else if level >= 4 {
            4
        } else {
            level
        };
        let (cols, rows, match_size) = Self::recall_config(self.recall_level);
        self.grid_cols = cols;
        self.grid_rows = rows;
        self.match_size = match_size;
    }

    /// Restart the endless-mode round counter.
    pub fn reset_infinite_round(&mut self)
        ensures
            *final(self) == (AppState { infinite_round: 1, ..*old(self) }),
    {
        self.infinite_round = 1;
    }

    /// Advance the endless-mode round counter, saturating at its maximum.
    pub fn advance_infinite_round(&mut self)
        ensures
            *final(self) == (AppState { infinite_round: final(self).infinite_round, ..*old(self) }),
            final(self).infinite_round == (if old(self).infinite_round == u32::MAX {
                u32::MAX
            } else {
                (old(self).infinite_round + 1) as u32
            }),
    {
        if self.infinite_round < u32::MAX {
            self.infinite_round = self.infinite_round + 1;
        }
    }

    /// Drop all accumulated penalty pressure.
    pub fn reset_impossible_pressure(&mut self)
        ensures
            *final(self) == (AppState {
                impossible_mismatch_count: 0,
                impossible_punish_stage: 0,
                impossible_last_first_index: None,
                impossible_same_first_streak: 0,
                ..*old(self)
            }),
            final(self).pressure_cleared(),
    {
        self.impossible_mismatch_count = 0;
        self.impossible_punish_stage = 0;
        self.impossible_last_first_index = None;
        self.impossible_same_first_streak = 0;
    }

    /// Permute the values of the currently hidden tiles at random; no tile's
    /// status changes, no visible tile's value changes, and the multiset of
    /// hidden values is preserved. Fewer than two hidden tiles: no change.
    pub fn reshuffle_hidden_tiles(&mut self)
        ensures
            *final(self) == (AppState { tiles: final(self).tiles, ..*old(self) }),
            final(self).tiles@.len() == old(self).tiles@.len(),
            forall|i: int|
                0 <= i < old(self).tiles@.len() ==> (#[trigger] final(self).tiles@[i]).status
                    == old(self).tiles@[i].status,
            forall|i: int|
                0 <= i < old(self).tiles@.len() && old(self).tiles@[i].status
                    != TileStatus::Hidden ==> (#[trigger] final(self).tiles@[i]).value@ == old(self).tiles@[i].value@,
            hidden_values(final(self).tiles@).to_multiset() == hidden_values(
                old(self).tiles@,
            ).to_multiset(),
    {
        let ghost orig = self.tiles@;
        let mut hidden_idxs: Vec<usize> = Vec::new();
        let mut hidden_vals: Vec<String> = Vec::new();
        let mut idx: usize = 0;
        while idx < self.tiles.len()
            invariant
                idx <= self.tiles@.len(),
                self.tiles@ == orig,
                hidden_idxs@.len() == hidden_vals@.len(),
                forall|j: int| 0 <= j < hidden_idxs@.len() ==> (#[trigger] hidden_idxs@[j]) < idx,
                forall|j1: int, j2: int|
                    0 <= j1 < j2 < hidden_idxs@.len() ==> hidden_idxs@[j1] < hidden_idxs@[j2],
                forall|j: int|
                    0 <= j < hidden_idxs@.len() ==> (#[trigger] orig[hidden_idxs@[j] as int]).status
                        == TileStatus::Hidden && orig[hidden_idxs@[j] as int].value@
                        == hidden_vals@[j]@,
                forall|i: int|
                    0 <= i < idx && (#[trigger] orig[i]).status == TileStatus::Hidden ==> exists|
                        j: int,
                    | 0 <= j < hidden_idxs@.len() && hidden_idxs@[j] == i,
            decreases self.tiles@.len() - idx,
        {
            let ghost pre_idxs = hidden_idxs@;
            if self.tiles[idx].status == TileStatus::Hidden {
                hidden_idxs.push(idx);
                hidden_vals.push(self.tiles[idx].value.clone());
                proof {
                    assert(hidden_idxs@[hidden_idxs@.len() - 1] == idx);
                    assert forall|i: int|
                        0 <= i <= idx && (#[trigger] orig[i]).status == TileStatus::Hidden
                        implies exists|j: int|
                        0 <= j < hidden_idxs@.len() && hidden_idxs@[j] == i by {
                        if i == idx {
                            assert(hidden_idxs@[hidden_idxs@.len() - 1] == i);
                        } else {
                            let j = choose|j: int| 0 <= j < pre_idxs.len() && pre_idxs[j] == i;
                            assert(hidden_idxs@[j] == i);
                        }
                    }
                }
            }
            idx += 1;
        }

        if hidden_idxs.len() < 2 {
            return;
        }

        proof {
            lemma_hidden_values_match(orig, hidden_idxs@, value_views(hidden_vals@));
        }
        let ghost old_views = value_views(hidden_vals@);
        shuffle_values(&mut hidden_vals);

        let count = hidden_idxs.len();
        let mut j: usize = 0;
        while j < count
            invariant
                j <= count,
                count == hidden_idxs@.len() == hidden_vals@.len(),
                self.tiles@.len() == orig.len(),
                forall|jj: int| 0 <= jj < count ==> (#[trigger] hidden_idxs@[jj]) < orig.len(),
                forall|j1: int, j2: int|
                    0 <= j1 < j2 < count ==> hidden_idxs@[j1] < hidden_idxs@[j2],
                forall|jj: int|
                    0 <= jj < count ==> (#[trigger] orig[hidden_idxs@[jj] as int]).status
                        == TileStatus::Hidden,
                forall|i: int|
                    0 <= i < orig.len() && (#[trigger] orig[i]).status == TileStatus::Hidden
                        ==> exists|jj: int| 0 <= jj < count && hidden_idxs@[jj] == i,
                forall|i: int|
                    0 <= i < orig.len() ==> (#[trigger] self.tiles@[i]).status == orig[i].status,
                forall|i: int|
                    0 <= i < orig.len() && orig[i].status != TileStatus::Hidden ==> (
                    #[trigger] self.tiles@[i]).value@ == orig[i].value@,
                forall|jj: int|
                    0 <= jj < j ==> (#[trigger] self.tiles@[hidden_idxs@[jj] as int]).value@
                        == hidden_vals@[jj]@,
                forall|jj: int|
                    j <= jj < count ==> (#[trigger] self.tiles@[hidden_idxs@[jj] as int]).value@
                        == orig[hidden_idxs@[jj] as int].value@,
                *self == (AppState { tiles: self.tiles, ..*old(self) }),
            decreases count - j,
        {
            let target = hidden_idxs[j];
            let new_value = hidden_vals[j].clone();
            let status = self.tiles[target].status;
            self.tiles[target] = Tile { value: new_value, status };
            proof {
                assert forall|jj: int|
                    j + 1 <= jj < count implies (#[trigger] self.tiles@[hidden_idxs@[jj] as int]).value@
                        == orig[hidden_idxs@[jj] as int].value@ by {
                    assert(hidden_idxs@[j as int] < hidden_idxs@[jj]);
                }
            }
            j += 1;
        }

        proof {
            lemma_hidden_values_match(self.tiles@, hidden_idxs@, value_views(hidden_vals@));
            assert(value_views(hidden_vals@).to_multiset() == old_views.to_multiset());
        }
    }

    /// Start a fresh round on the current grid: bump the game id, clear the
    /// flip group and all penalty pressure, reset the run counters unless an
    /// endless run is in progress, and deal a new shuffled board.
    pub fn reset_game(&mut self, pool: &Vec<String>)
        requires
            1 <= old(self).grid_cols <= 100,
            1 <= old(self).grid_rows <= 100,
            1 <= old(self).match_size <= 3,
            pool@.len() >= 1,
            forall|i: int| 0 <= i < pool@.len() ==> (#[trigger] pool@[i])@.len() > 0,
        ensures
            final(self).grid_cols == old(self).grid_cols,
            final(self).grid_rows == old(self).grid_rows,
            final(self).match_size == old(self).match_size,
            final(self).difficulty == old(self).difficulty,
            final(self).tri_level == old(self).tri_level,
            final(self).recall_level == old(self).recall_level,
            final(self).infinite_round == old(self).infinite_round,
            final(self).seconds_elapsed == old(self).seconds_elapsed,
            final(self).active_session_started == old(self).active_session_started,
            final(self).records == old(self).records,
            final(self).victory_title_text == old(self).victory_title_text,
            final(self).victory_message_text == old(self).victory_message_text,
            final(self).victory_stats_text == old(self).victory_stats_text,
            final(self).game_id == Self::spec_next_game_id(old(self).game_id),
            final(self).flipped_indices@.len() == 0,
            !final(self).lock_input,
            final(self).pressure_cleared(),
            (old(self).difficulty != Difficulty::RecallMode || old(self).infinite_round <= 1)
                ==> final(self).run_mismatches == 0 && final(self).run_matches == 0,
            !(old(self).difficulty != Difficulty::RecallMode || old(self).infinite_round <= 1)
                ==> final(self).run_mismatches == old(self).run_mismatches && final(self).run_matches == old(self).run_matches,
            fresh_board(
                final(self).tiles@,
                old(self).grid_cols as int,
                old(self).grid_rows as int,
                old(self).match_size as int,
            ),
    {
        if self.game_id == u64::MAX {
            self.game_id = 0;
        } else {
            self.game_id = self.game_id + 1;
        }
        self.flipped_indices = Vec::new();
        self.lock_input = false;
        self.reset_impossible_pressure();
        if !(self.difficulty == Difficulty::RecallMode) || self.infinite_round <= 1 {
            self.run_mismatches = 0;
            self.run_matches = 0;
        }
        self.tiles = generate_board(self.grid_cols, self.grid_rows, self.match_size, pool);
    }
}

} // verus!

//! Core engine of a tile-matching memory game: board generation, flip
//! resolution, mismatch-penalty escalation, endless-mode progression,
//! score records, and plain-text persistence of an in-progress run.
pub mod board;
pub mod classic;
pub mod classic_penalties;
pub mod infinite;
pub mod records;
pub mod session;
pub mod session_save;
pub mod state;
pub mod text;
pub mod tri_penalties;

//! A bit-packed Tetris engine used as the fitness landscape of a genetic
//! search over placement heuristics.
//!
//! Rows of the board are integers whose bit `i` is column `i`; row 0 is the
//! top. The engine exposes collision, placement and line clearing, the
//! integer features a linear heuristic is scored on, the enumeration of all
//! resting placements of a piece, two piece providers, and the integer parts
//! of a genetic optimizer (ranking, roulette choice, crossover).

pub mod shapes;
pub mod board;
pub mod features;
pub mod provider;
pub mod game;
pub mod genetics;

pub use shapes::{num_rotations, shape, Shape, NUM_KINDS};
pub use board::{Board, MAX_HEIGHT, MAX_WIDTH};
pub use features::{evaluate, Features};
pub use provider::{BagProvider, LcgProvider, Provider};
pub use game::{Candidate, Game, Placement, MIN_SIZE};
pub use genetics::{best_index, crossover, elite_count, rank_by_fitness, roulette_pick, selection_weights, NUM_WEIGHTS};

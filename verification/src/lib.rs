//! Solver for the fixed 4x5 sliding-block puzzle ("Huarong Dao"): a board of
//! one 2x2 general, 1x2 dominoes and 1x1 pawns with two empty cells is solved
//! by a breadth-first search for a shortest sequence of slides that brings the
//! general to the bottom-center goal cells.

mod blocks;
mod board;
mod codec;
mod error;
mod moves;
mod narrate;
mod search;

pub use blocks::Game;
pub use blocks::Scan;
pub use blocks::claim_of;
pub use blocks::count_general;
pub use blocks::covered_by;
pub use blocks::generated_ok;
pub use blocks::scan_claim_ok;
pub use blocks::scan_move;
pub use blocks::scan_of;
pub use blocks::scan_step;
pub use blocks::scan_upto;
pub use blocks::valid_board;
pub use board::Block;
pub use board::Board;
pub use board::Cell;
pub use board::count_cell;
pub use board::idx;
pub use board::seated;
pub use board::wf_board;
pub use codec::ParseSt;
pub use codec::is_blank;
pub use codec::parse_chars;
pub use codec::parse_state;
pub use codec::parse_step;
pub use codec::parse_upto;
pub use codec::token_cell;
pub use error::Error;
pub use moves::Dir;
pub use moves::apply_move;
pub use moves::lemma_move_effect;
pub use moves::lemma_move_keeps_two_empties;
pub use moves::lemma_move_preserves_occupied;
pub use moves::move_cell;
pub use moves::move_ok;
pub use moves::try_move;
pub use narrate::blocks;
pub use narrate::msg_of;
pub use narrate::narrated_ok;
pub use narrate::narrates;
pub use narrate::show_solve;
pub use narrate::step_messages;
pub use search::HRD;
pub use search::Node;
pub use search::is_goal;

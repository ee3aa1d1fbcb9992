//! A gravity-constrained four-in-a-row game engine: board operations, win and
//! draw detection, a positional heuristic, depth-bounded alpha-beta search and
//! the computer's move selection.

pub mod board;
pub mod detect;
pub mod heuristic;
pub mod search;
pub mod selector;

pub use board::{get_next_open_row, drop_piece, new_board, legal_columns, copy_board, MoveError, EMPTY, USER, COMPUTER, MAX_DIM};
pub use detect::{check_winner, is_full, is_draw};
pub use heuristic::{evaluate_window, score_position};
pub use search::{minimax, NO_COLUMN};
pub use selector::{select_computer_move, play_computer_column, Difficulty, HARD_DEPTH};

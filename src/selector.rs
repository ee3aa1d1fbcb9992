//! The computer's move: a random legal column when easy, the search's choice
//! when hard.

use rand::seq::SliceRandom;
use vstd::prelude::*;
use crate::board::{
    drop_piece, dropped, empty_count, grid, has_legal, is_legal, is_rect, legal_before, legal_columns,
    lemma_legal_before, lemma_legal_has_open_row, num_cols, num_rows, open_row, same_column, settled, well_sized,
    MoveError, COMPUTER,
};
use crate::search::{best_move, minimax, search_stops, NO_COLUMN};

verus! {

/// How the computer picks its moves.
#[derive(Debug, Clone, Copy, PartialEq, Eq, Structural)]
pub enum Difficulty {
    /// A legal column picked uniformly at random.
    Easy,
    /// The column of best value found by alpha-beta search `HARD_DEPTH`
    /// moves ahead.
    Hard,
}

/// How many moves ahead the search looks on `Difficulty::Hard`; deeper plays
/// better and costs more. Four and five moves ahead, the empty board leaves
/// the centre column tied with its neighbours; six moves ahead the centre is
/// strictly best.
pub const HARD_DEPTH: usize = 6;

/// Relies on rand's `SliceRandom::choose` over `thread_rng`: `None` for an
/// empty slice, else one of its elements.
#[verifier::external_body]
fn choose_column(columns: &Vec<usize>) -> (r: Option<usize>)
    ensures
        r is None <==> columns@.len() == 0,
        r matches Some(c) ==> columns@.contains(c),
{
    columns.choose(&mut rand::thread_rng()).copied()
}

/// Plays the computer's piece in `choice`: `NoLegalMove` when there is no
/// choice, `ColumnFull` when that column is full, else the column and the
/// row the piece came to rest in.
pub fn play_computer_column(board: &mut Vec<Vec<usize>>, choice: Option<usize>) -> (r: Result<
    (usize, usize),
    MoveError,
>)
    requires
        is_rect(grid(old(board))),
        choice matches Some(c) ==> c < num_cols(grid(old(board))),
    ensures
        choice is None ==> r == Err::<(usize, usize), MoveError>(MoveError::NoLegalMove)
            && grid(final(board)) == grid(old(board)),
        choice matches Some(c) ==> {
            &&& grid(final(board)) == dropped(grid(old(board)), c as int, COMPUTER)
            &&& r is Err <==> open_row(grid(old(board)), c as int) is None
            &&& r is Err ==> r == Err::<(usize, usize), MoveError>(MoveError::ColumnFull)
            &&& r matches Ok((c2, row)) ==> c2 == c && open_row(grid(old(board)), c as int) == Some(
                row as int,
            )
            &&& r is Ok ==> empty_count(grid(final(board)), c as int) + 1 == empty_count(
                grid(old(board)),
                c as int,
            )
            &&& forall|c2: int|
                0 <= c2 < num_cols(grid(old(board))) && c2 != c ==> same_column(
                    grid(final(board)),
                    grid(old(board)),
                    c2,
                )
        },
        is_rect(grid(final(board))),
        settled(grid(old(board))) ==> settled(grid(final(board))),
{
    match choice {
        None => Err(MoveError::NoLegalMove),
        Some(col) => match drop_piece(board, col, COMPUTER) {
            Ok(row) => Ok((col, row)),
            Err(e) => Err(e),
        },
    }
}

/// Picks and plays the computer's move. Easy plays a random legal column and
/// fails with `NoLegalMove` only when no column is legal. Hard plays the
/// column that `minimax` chooses from the full window `HARD_DEPTH` moves
/// ahead as the maximizing side, and fails with `NoLegalMove` when the
/// search makes no move. Returns the column and row played.
pub fn select_computer_move(board: &mut Vec<Vec<usize>>, difficulty: Difficulty) -> (r: Result<
    (usize, usize),
    MoveError,
>)
    requires
        well_sized(grid(old(board))),
    ensures
        r is Err ==> r == Err::<(usize, usize), MoveError>(MoveError::NoLegalMove) && grid(
            final(board),
        ) == grid(old(board)),
        r matches Ok((c, row)) ==> is_legal(grid(old(board)), c as int) && open_row(
            grid(old(board)),
            c as int,
        ) == Some(row as int) && grid(final(board)) == dropped(
            grid(old(board)),
            c as int,
            COMPUTER,
        ),
        r matches Ok((c, row)) ==> empty_count(grid(final(board)), c as int) + 1 == empty_count(
            grid(old(board)),
            c as int,
        ) && forall|c2: int|
            0 <= c2 < num_cols(grid(old(board))) && c2 != c ==> same_column(
                grid(final(board)),
                grid(old(board)),
                c2,
            ),
        settled(grid(old(board))) ==> settled(grid(final(board))),
        difficulty == Difficulty::Easy ==> (r is Err <==> !has_legal(grid(old(board)))),
        difficulty == Difficulty::Hard ==> (r is Err <==> search_stops(
            grid(old(board)),
            HARD_DEPTH as nat,
        )),
        difficulty == Difficulty::Hard && r is Ok ==> r->Ok_0.0 == best_move(
            grid(old(board)),
            HARD_DEPTH as nat,
            true,
        ),
{
    let ghost b = grid(board);
    match difficulty {
        Difficulty::Easy => {
            let available_cols = legal_columns(board);
            let columns = board[0].len();
            proof {
                assert(board@[0]@ == b[0]);
                assert(columns == num_cols(b));
                lemma_legal_before(b, num_cols(b));
            }
            let choice = choose_column(&available_cols);
            proof {
                if let Some(c) = choice {
                    let i = choose|i: int| 0 <= i < available_cols@.len() && available_cols@[i] == c;
                    assert(is_legal(b, available_cols@[i] as int));
                    lemma_legal_has_open_row(b, c as int);
                } else {
                    if has_legal(b) {
                        let c = choose|c: int| is_legal(b, c);
                        assert(0 <= c < num_cols(b));
                    }
                }
            }
            play_computer_column(board, choice)
        },
        Difficulty::Hard => {
            let (best_col, _) = minimax(board, HARD_DEPTH, isize::MIN, isize::MAX, true);
            if best_col == NO_COLUMN {
                return Err(MoveError::NoLegalMove);
            }
            proof {
                lemma_legal_has_open_row(b, best_col as int);
            }
            play_computer_column(board, Some(best_col))
        },
    }
}

} // verus!

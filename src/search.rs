//! Depth-bounded minimax search with alpha-beta pruning, always scored from
//! the computer's side.

use vstd::prelude::*;
use crate::board::{
    copy_board, drop_piece, dropped, grid, has_legal, is_legal, is_rect, lemma_dropped_shape,
    num_cols, num_rows, well_sized, COMPUTER, EMPTY, USER,
};
use crate::detect::{check_winner, winner_of};
use crate::heuristic::{lemma_score_bound, score_of, score_position, SCORE_BOUND};

verus! {

/// The column reported when the search makes no move.
pub const NO_COLUMN: usize = usize::MAX;

/// The player who moves at a maximizing or minimizing level.
pub open spec fn mover(maximizing: bool) -> usize {
    if maximizing {
        COMPUTER
    } else {
        USER
    }
}

/// The search evaluates the board as it stands, without looking further.
pub open spec fn search_stops(b: Seq<Seq<usize>>, depth: nat) -> bool {
    depth == 0 || winner_of(b) is Some || !has_legal(b)
}

/// The minimax value of the board at `depth`, without pruning: at a leaf, a
/// won board or a full board, the heuristic value for the computer;
/// otherwise the best value among the legal moves, highest when maximizing
/// and lowest when minimizing.
pub open spec fn minimax_value(b: Seq<Seq<usize>>, depth: nat, maximizing: bool) -> int
    decreases depth, 0int,
{
    if search_stops(b, depth) {
        score_of(b, COMPUTER)
    } else {
        best_scan(b, (depth - 1) as nat, maximizing, num_cols(b)).0
    }
}

/// The best value and column among the legal columns before `k`, each
/// valued at `depth` after the mover's piece is dropped in; a later column
/// replaces an earlier one only when strictly better.
pub open spec fn best_scan(b: Seq<Seq<usize>>, depth: nat, maximizing: bool, k: int) -> (int, int)
    decreases depth, k + 1,
{
    if k <= 0 {
        (if maximizing { isize::MIN as int } else { isize::MAX as int }, NO_COLUMN as int)
    } else {
        let prev = best_scan(b, depth, maximizing, k - 1);
        if is_legal(b, k - 1) {
            let v = minimax_value(dropped(b, k - 1, mover(maximizing)), depth, !maximizing);
            if (maximizing && v > prev.0) || (!maximizing && v < prev.0) {
                (v, k - 1)
            } else {
                prev
            }
        } else {
            prev
        }
    }
}

/// The column that minimax chooses: the first legal column of best value,
/// or `NO_COLUMN` when the search stops at the board.
pub open spec fn best_move(b: Seq<Seq<usize>>, depth: nat, maximizing: bool) -> int {
    if search_stops(b, depth) {
        NO_COLUMN as int
    } else {
        best_scan(b, (depth - 1) as nat, maximizing, num_cols(b)).1
    }
}

/// Every minimax value lies within the heuristic's bound.
pub proof fn lemma_value_bound(b: Seq<Seq<usize>>, depth: nat, maximizing: bool)
    requires
        well_sized(b),
    ensures
        -SCORE_BOUND <= minimax_value(b, depth, maximizing) <= SCORE_BOUND,
    decreases depth, 0int,
{
    if search_stops(b, depth) {
        lemma_score_bound(b, COMPUTER);
    } else {
        let c = choose|c: int| is_legal(b, c);
        lemma_scan(b, (depth - 1) as nat, maximizing, num_cols(b));
        assert(is_legal(b, c) && c < num_cols(b));
    }
}

/// What the scan over the columns before `k` holds: the sentinel when none
/// of them is legal, else a legal column and its value.
pub proof fn lemma_scan(b: Seq<Seq<usize>>, depth: nat, maximizing: bool, k: int)
    requires
        well_sized(b),
        0 <= k <= num_cols(b),
    ensures
        (forall|c: int| 0 <= c < k ==> !is_legal(b, c)) ==> best_scan(b, depth, maximizing, k)
            == (if maximizing { isize::MIN as int } else { isize::MAX as int }, NO_COLUMN as int),
        (exists|c: int| 0 <= c < k && is_legal(b, c)) ==> {
            let s = best_scan(b, depth, maximizing, k);
            &&& -SCORE_BOUND <= s.0 <= SCORE_BOUND
            &&& 0 <= s.1 < k
            &&& is_legal(b, s.1)
        },
    decreases depth, k + 1,
{
    if k > 0 {
        lemma_scan(b, depth, maximizing, k - 1);
        if is_legal(b, k - 1) {
            lemma_dropped_shape(b, k - 1, mover(maximizing));
            lemma_value_bound(dropped(b, k - 1, mover(maximizing)), depth, !maximizing);
        }
        if exists|c: int| 0 <= c < k && is_legal(b, c) {
            if !is_legal(b, k - 1) {
                let c = choose|c: int| 0 <= c < k && is_legal(b, c);
                assert(0 <= c < k - 1);
            }
        }
    }
}

/// The scan's value only grows when maximizing, and only shrinks when
/// minimizing, as more columns are taken in.
proof fn lemma_scan_monotone(b: Seq<Seq<usize>>, depth: nat, maximizing: bool, j: int, k: int)
    requires
        j <= k,
    ensures
        maximizing ==> best_scan(b, depth, maximizing, j).0 <= best_scan(b, depth, maximizing, k).0,
        !maximizing ==> best_scan(b, depth, maximizing, j).0 >= best_scan(
            b,
            depth,
            maximizing,
            k,
        ).0,
    decreases k - j,
{
    if j < k {
        lemma_scan_monotone(b, depth, maximizing, j, k - 1);
    }
}

/// Alpha-beta search from the board to `depth` moves ahead; the computer
/// moves at maximizing levels and the user at minimizing ones, and every
/// position is valued for the computer. Returns the chosen column (or
/// `NO_COLUMN` when the search stops at the board) and its value. Within the
/// window `(alpha, beta)` the value is the exact minimax value; a value at or
/// below `alpha` bounds it from above and one at or above `beta` from below.
/// With the full window, both the column and the value are those of minimax
/// without pruning.
pub fn minimax(
    board: &Vec<Vec<usize>>,
    depth: usize,
    alpha: isize,
    beta: isize,
    is_maximizing: bool,
) -> (r: (usize, isize))
    requires
        well_sized(grid(board)),
    ensures
        -SCORE_BOUND <= r.1 <= SCORE_BOUND,
        r.0 == NO_COLUMN <==> search_stops(grid(board), depth as nat),
        search_stops(grid(board), depth as nat) ==> r.1 == score_of(grid(board), COMPUTER),
        r.0 != NO_COLUMN ==> is_legal(grid(board), r.0 as int),
        alpha < beta && r.1 <= alpha ==> minimax_value(grid(board), depth as nat, is_maximizing)
            <= r.1,
        alpha < beta && r.1 >= beta ==> minimax_value(grid(board), depth as nat, is_maximizing)
            >= r.1,
        alpha < r.1 < beta ==> r.1 == minimax_value(grid(board), depth as nat, is_maximizing),
        alpha == isize::MIN && beta == isize::MAX ==> r.0 == best_move(
            grid(board),
            depth as nat,
            is_maximizing,
        ) && r.1 == minimax_value(grid(board), depth as nat, is_maximizing),
    decreases depth,
{
    let ghost b = grid(board);
    let ghost a0 = alpha;
    let ghost b0 = beta;
    let ghost full = alpha == isize::MIN && beta == isize::MAX;
    if depth == 0 || check_winner(board).is_some() {
        proof {
            lemma_score_bound(b, COMPUTER);
        }
        return (NO_COLUMN, score_position(board, COMPUTER));
    }
    let ghost dc = (depth - 1) as nat;
    let columns = board[0].len();
    assert(board@[0]@ == b[0]);
    let mut lower = alpha;
    let mut upper = beta;
    let mut column: usize = NO_COLUMN;
    let mut value: isize;
    let mut col: usize = 0;
    if is_maximizing {
        value = isize::MIN;
        while col < columns
            invariant
                b == grid(board),
                well_sized(b),
                columns == num_cols(b),
                board@[0]@ == b[0],
                depth > 0,
                dc == depth - 1,
                is_maximizing,
                a0 == alpha && b0 == beta,
                full == (a0 == isize::MIN && b0 == isize::MAX),
                col <= columns,
                upper == b0,
                lower == if value > a0 { value } else { a0 },
                lower < upper || a0 >= b0,
                winner_of(b) is None,
                (forall|c: int| 0 <= c < col ==> !is_legal(b, c)) ==> value == isize::MIN && column
                    == NO_COLUMN,
                (exists|c: int| 0 <= c < col && is_legal(b, c)) ==> -SCORE_BOUND <= value
                    <= SCORE_BOUND && column < col && is_legal(b, column as int),
                a0 < b0 && value > a0 ==> value == best_scan(b, dc, true, col as int).0,
                a0 < b0 && value <= a0 ==> best_scan(b, dc, true, col as int).0 <= value,
                full ==> value == best_scan(b, dc, true, col as int).0 && column == best_scan(
                    b,
                    dc,
                    true,
                    col as int,
                ).1,
            decreases columns - col,
        {
            proof {
                lemma_scan(b, dc, true, col as int);
            }
            if board[0][col] == EMPTY {
                let mut temp_board = copy_board(board);
                proof {
                    lemma_dropped_shape(b, col as int, COMPUTER);
                }
                let _ = drop_piece(&mut temp_board, col, COMPUTER);
                let new_score = minimax(&temp_board, depth - 1, lower, upper, false).1;
                if new_score > value {
                    value = new_score;
                    column = col;
                }
                if value > lower {
                    lower = value;
                }
                proof {
                    assert(is_legal(b, col as int));
                    lemma_scan(b, dc, true, col as int + 1);
                }
                if lower >= upper {
                    proof {
                        lemma_scan_monotone(b, dc, true, col as int + 1, columns as int);
                        assert(is_legal(b, column as int));
                        assert(!search_stops(b, depth as nat));
                        assert(minimax_value(b, depth as nat, true) == best_scan(
                            b,
                            dc,
                            true,
                            columns as int,
                        ).0);
                    }
                    return (column, value);
                }
            }
            col = col + 1;
        }
    } else {
        value = isize::MAX;
        while col < columns
            invariant
                b == grid(board),
                well_sized(b),
                columns == num_cols(b),
                board@[0]@ == b[0],
                depth > 0,
                dc == depth - 1,
                !is_maximizing,
                a0 == alpha && b0 == beta,
                full == (a0 == isize::MIN && b0 == isize::MAX),
                col <= columns,
                lower == a0,
                upper == if value < b0 { value } else { b0 },
                lower < upper || a0 >= b0,
                winner_of(b) is None,
                (forall|c: int| 0 <= c < col ==> !is_legal(b, c)) ==> value == isize::MAX && column
                    == NO_COLUMN,
                (exists|c: int| 0 <= c < col && is_legal(b, c)) ==> -SCORE_BOUND <= value
                    <= SCORE_BOUND && column < col && is_legal(b, column as int),
                a0 < b0 && value < b0 ==> value == best_scan(b, dc, false, col as int).0,
                a0 < b0 && value >= b0 ==> best_scan(b, dc, false, col as int).0 >= value,
                full ==> value == best_scan(b, dc, false, col as int).0 && column == best_scan(
                    b,
                    dc,
                    false,
                    col as int,
                ).1,
            decreases columns - col,
        {
            proof {
                lemma_scan(b, dc, false, col as int);
            }
            if board[0][col] == EMPTY {
                let mut temp_board = copy_board(board);
                proof {
                    lemma_dropped_shape(b, col as int, USER);
                }
                let _ = drop_piece(&mut temp_board, col, USER);
                let new_score = minimax(&temp_board, depth - 1, lower, upper, true).1;
                if new_score < value {
                    value = new_score;
                    column = col;
                }
                if value < upper {
                    upper = value;
                }
                proof {
                    assert(is_legal(b, col as int));
                    lemma_scan(b, dc, false, col as int + 1);
                }
                if lower >= upper {
                    proof {
                        lemma_scan_monotone(b, dc, false, col as int + 1, columns as int);
                        assert(is_legal(b, column as int));
                        assert(!search_stops(b, depth as nat));
                        assert(minimax_value(b, depth as nat, false) == best_scan(
                            b,
                            dc,
                            false,
                            columns as int,
                        ).0);
                    }
                    return (column, value);
                }
            }
            col = col + 1;
        }
    }
    if column == NO_COLUMN {
        proof {
            lemma_score_bound(b, COMPUTER);
            if has_legal(b) {
                let c = choose|c: int| is_legal(b, c);
                assert(0 <= c < col && is_legal(b, c));
            }
            assert(search_stops(b, depth as nat));
        }
        return (NO_COLUMN, score_position(board, COMPUTER));
    }
    proof {
        assert(is_legal(b, column as int));
        assert(!search_stops(b, depth as nat));
        assert(minimax_value(b, depth as nat, is_maximizing) == best_scan(
            b,
            dc,
            is_maximizing,
            columns as int,
        ).0);
    }
    (column, value)
}

} // verus!

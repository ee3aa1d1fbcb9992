//! The positional heuristic: a centre-column bonus plus a score for every
//! window of four cells in a line.

use vstd::prelude::*;
use crate::board::{grid, in_bounds, is_rect, num_cols, num_rows, well_sized, EMPTY, USER, COMPUTER, MAX_DIM};
use crate::detect::{dir_dc, dir_dr, winner_of};

verus! {

/// Points for each of `piece`'s pieces in the centre column.
pub const CENTER_WEIGHT: isize = 10;

/// Points for a window that `piece` fills.
pub const FOUR_POINTS: isize = 10000;

/// Points for a window with three of `piece`'s pieces and one empty cell.
pub const THREE_POINTS: isize = 500;

/// Points for a window with two of `piece`'s pieces and two empty cells.
pub const TWO_POINTS: isize = 50;

/// The opponent of `piece`.
pub open spec fn opponent(piece: usize) -> usize {
    if piece == USER {
        COMPUTER
    } else {
        USER
    }
}

/// How many of the first `n` cells of `w` hold `v`.
pub open spec fn count_in(w: Seq<usize>, v: usize, n: int) -> int
    decreases n,
{
    if n <= 0 {
        0
    } else {
        count_in(w, v, n - 1) + if w[n - 1] == v { 1int } else { 0int }
    }
}

/// The score of a window for `piece`, from how many cells hold `piece`, are
/// empty, or hold the opponent; a window that mixes both players is worth
/// nothing.
pub open spec fn window_score(w: Seq<usize>, piece: usize) -> int {
    let own = count_in(w, piece, w.len() as int);
    let empty = count_in(w, EMPTY, w.len() as int);
    let opp = count_in(w, opponent(piece), w.len() as int);
    if own == 4 && empty == 0 && opp == 0 {
        FOUR_POINTS as int
    } else if own == 0 && empty == 0 && opp == 4 {
        -FOUR_POINTS
    } else if own == 3 && empty == 1 && opp == 0 {
        THREE_POINTS as int
    } else if own == 0 && empty == 1 && opp == 3 {
        -THREE_POINTS
    } else if own == 2 && empty == 2 && opp == 0 {
        TWO_POINTS as int
    } else if own == 0 && empty == 2 && opp == 2 {
        -TWO_POINTS
    } else {
        0
    }
}

/// A window of four cells from `(r, c)` in direction `d` lies on the board.
pub open spec fn window_fits(b: Seq<Seq<usize>>, r: int, c: int, d: int) -> bool {
    0 <= d < 4 && in_bounds(b, r, c) && in_bounds(b, r + 3 * dir_dr(d), c + 3 * dir_dc(d))
}

/// The four cells from `(r, c)` in direction `d`.
pub open spec fn window_at(b: Seq<Seq<usize>>, r: int, c: int, d: int) -> Seq<usize> {
    let dr = dir_dr(d);
    let dc = dir_dc(d);
    seq![b[r][c], b[r + dr][c + dc], b[r + 2 * dr][c + 2 * dc], b[r + 3 * dr][c + 3 * dc]]
}

/// The score of the window from `(r, c)` in direction `d`, or 0 if it does
/// not fit.
pub open spec fn window_points(b: Seq<Seq<usize>>, r: int, c: int, d: int, piece: usize) -> int {
    if window_fits(b, r, c, d) {
        window_score(window_at(b, r, c, d), piece)
    } else {
        0
    }
}

/// The scores of the windows that start at `(r, c)`.
pub open spec fn cell_points(b: Seq<Seq<usize>>, r: int, c: int, piece: usize) -> int {
    window_points(b, r, c, 0, piece) + window_points(b, r, c, 1, piece) + window_points(
        b,
        r,
        c,
        2,
        piece,
    ) + window_points(b, r, c, 3, piece)
}

/// The scores of the windows that start in row `r` before column `n`.
pub open spec fn row_points(b: Seq<Seq<usize>>, r: int, n: int, piece: usize) -> int
    decreases n,
{
    if n <= 0 {
        0
    } else {
        row_points(b, r, n - 1, piece) + cell_points(b, r, n - 1, piece)
    }
}

/// The scores of the windows that start in the rows before `n`.
pub open spec fn grid_points(b: Seq<Seq<usize>>, n: int, piece: usize) -> int
    decreases n,
{
    if n <= 0 {
        0
    } else {
        grid_points(b, n - 1, piece) + row_points(b, n - 1, num_cols(b), piece)
    }
}

/// How many of the rows before `n` hold `piece` in the centre column.
pub open spec fn center_count(b: Seq<Seq<usize>>, n: int, piece: usize) -> int
    decreases n,
{
    if n <= 0 {
        0
    } else {
        center_count(b, n - 1, piece) + if b[n - 1][num_cols(b) / 2] == piece {
            1int
        } else {
            0int
        }
    }
}

/// The heuristic value of the board for `piece`: the centre-column bonus
/// plus the score of every window of four cells on the board.
pub open spec fn score_of(b: Seq<Seq<usize>>, piece: usize) -> int {
    CENTER_WEIGHT * center_count(b, num_rows(b), piece) + grid_points(b, num_rows(b), piece)
}

/// A bound on the magnitude of every score on a well-sized board.
pub const SCORE_BOUND: isize = 1_700_000_000;

proof fn lemma_count_in_bound(w: Seq<usize>, v: usize, n: int)
    ensures
        0 <= count_in(w, v, n) <= if n < 0 { 0 } else { n },
    decreases n,
{
    if n > 0 {
        lemma_count_in_bound(w, v, n - 1);
    }
}

proof fn lemma_cell_points_bound(b: Seq<Seq<usize>>, r: int, c: int, piece: usize)
    ensures
        -40000 <= cell_points(b, r, c, piece) <= 40000,
{
}

proof fn lemma_row_points_bound(b: Seq<Seq<usize>>, r: int, n: int, piece: usize)
    requires
        0 <= n,
    ensures
        -40000 * n <= row_points(b, r, n, piece) <= 40000 * n,
    decreases n,
{
    if n > 0 {
        lemma_row_points_bound(b, r, n - 1, piece);
        lemma_cell_points_bound(b, r, n - 1, piece);
    }
}

proof fn lemma_grid_points_bound(b: Seq<Seq<usize>>, n: int, piece: usize)
    requires
        0 <= n,
        0 <= num_cols(b),
    ensures
        -40000 * (num_cols(b) * n) <= grid_points(b, n, piece) <= 40000 * (num_cols(b) * n),
    decreases n,
{
    if n > 0 {
        let cols = num_cols(b);
        lemma_grid_points_bound(b, n - 1, piece);
        lemma_row_points_bound(b, n - 1, cols, piece);
        assert(cols * (n - 1) + cols == cols * n) by (nonlinear_arith);
    }
}

proof fn lemma_center_count_bound(b: Seq<Seq<usize>>, n: int, piece: usize)
    requires
        0 <= n,
    ensures
        0 <= center_count(b, n, piece) <= n,
    decreases n,
{
    if n > 0 {
        lemma_center_count_bound(b, n - 1, piece);
    }
}

/// Every score on a well-sized board lies within `SCORE_BOUND`.
pub proof fn lemma_score_bound(b: Seq<Seq<usize>>, piece: usize)
    requires
        well_sized(b),
    ensures
        -SCORE_BOUND <= score_of(b, piece) <= SCORE_BOUND,
{
    let rows = num_rows(b);
    let cols = num_cols(b);
    lemma_grid_points_bound(b, rows, piece);
    lemma_center_count_bound(b, rows, piece);
    assert(cols * rows <= 200 * 200) by (nonlinear_arith)
        requires
            0 <= cols <= 200,
            0 <= rows <= 200,
    ;
}

/// The winner and the score are functions of the board alone: since
/// `check_winner` and `score_position` return `winner_of` and `score_of` of
/// the board they read, and neither changes it, asking twice about a board
/// that has not changed gives the same answers.
pub proof fn lemma_evaluation_repeatable(b1: Seq<Seq<usize>>, b2: Seq<Seq<usize>>, piece: usize)
    requires
        b1 == b2,
    ensures
        winner_of(b1) == winner_of(b2),
        score_of(b1, piece) == score_of(b2, piece),
{
}

/// The score of `window` for `piece`.
pub fn evaluate_window(window: &[usize], piece: usize) -> (r: isize)
    ensures
        r == window_score(window@, piece),
{
    let opp_piece = if piece == USER {
        COMPUTER
    } else {
        USER
    };
    let mut count_piece: usize = 0;
    let mut count_empty: usize = 0;
    let mut count_opp_piece: usize = 0;
    let mut i: usize = 0;
    while i < window.len()
        invariant
            i <= window@.len(),
            opp_piece == opponent(piece),
            count_piece == count_in(window@, piece, i as int),
            count_empty == count_in(window@, EMPTY, i as int),
            count_opp_piece == count_in(window@, opp_piece, i as int),
        decreases window@.len() - i,
    {
        proof {
            lemma_count_in_bound(window@, piece, i as int);
            lemma_count_in_bound(window@, EMPTY, i as int);
            lemma_count_in_bound(window@, opp_piece, i as int);
        }
        let p = window[i];
        if p == piece {
            count_piece = count_piece + 1;
        }
        if p == EMPTY {
            count_empty = count_empty + 1;
        }
        if p == opp_piece {
            count_opp_piece = count_opp_piece + 1;
        }
        i = i + 1;
    }
    if count_piece == 4 && count_empty == 0 && count_opp_piece == 0 {
        FOUR_POINTS
    } else if count_piece == 0 && count_empty == 0 && count_opp_piece == 4 {
        -FOUR_POINTS
    } else if count_piece == 3 && count_empty == 1 && count_opp_piece == 0 {
        THREE_POINTS
    } else if count_piece == 0 && count_empty == 1 && count_opp_piece == 3 {
        -THREE_POINTS
    } else if count_piece == 2 && count_empty == 2 && count_opp_piece == 0 {
        TWO_POINTS
    } else if count_piece == 0 && count_empty == 2 && count_opp_piece == 2 {
        -TWO_POINTS
    } else {
        0
    }
}

/// The cell `board[y][x]`.
fn cell(board: &Vec<Vec<usize>>, y: usize, x: usize) -> (r: usize)
    requires
        is_rect(grid(board)),
        in_bounds(grid(board), y as int, x as int),
    ensures
        r == grid(board)[y as int][x as int],
{
    assert(board@[y as int]@ == grid(board)[y as int]);
    board[y][x]
}

/// The four cells from `(y, x)` in direction `d`, if they lie on the board.
fn window_from(board: &Vec<Vec<usize>>, y: usize, x: usize, d: usize) -> (r: Option<Vec<usize>>)
    requires
        is_rect(grid(board)),
        in_bounds(grid(board), y as int, x as int),
        d < 4,
    ensures
        r is Some <==> window_fits(grid(board), y as int, x as int, d as int),
        r matches Some(w) ==> w@ == window_at(grid(board), y as int, x as int, d as int),
{
    let ghost b = grid(board);
    let rows = board.len();
    let cols = board[0].len();
    let w = if d == 0 {
        if cols - x <= 3 {
            return None;
        }
        vec![cell(board, y, x), cell(board, y, x + 1), cell(board, y, x + 2), cell(board, y, x + 3)]
    } else if d == 1 {
        if rows - y <= 3 {
            return None;
        }
        vec![cell(board, y, x), cell(board, y + 1, x), cell(board, y + 2, x), cell(board, y + 3, x)]
    } else if d == 2 {
        if rows - y <= 3 || cols - x <= 3 {
            return None;
        }
        vec![
            cell(board, y, x),
            cell(board, y + 1, x + 1),
            cell(board, y + 2, x + 2),
            cell(board, y + 3, x + 3),
        ]
    } else {
        if rows - y <= 3 || x < 3 {
            return None;
        }
        vec![
            cell(board, y, x),
            cell(board, y + 1, x - 1),
            cell(board, y + 2, x - 2),
            cell(board, y + 3, x - 3),
        ]
    };
    assert(w@ =~= window_at(b, y as int, x as int, d as int));
    Some(w)
}

/// The heuristic value of the board for `piece`: 10 points for each of its
/// pieces in the centre column, plus, for every window of four cells in a
/// row, column or diagonal, 10000, 500 or 50 points for four, three or two
/// of its pieces beside only empty cells, and as many points off for the
/// opponent's.
pub fn score_position(board: &Vec<Vec<usize>>, piece: usize) -> (r: isize)
    requires
        well_sized(grid(board)),
    ensures
        r == score_of(grid(board), piece),
{
    let ghost b = grid(board);
    let rows = board.len();
    let columns = board[0].len();
    let center_col = columns / 2;
    let mut center: isize = 0;
    let mut y: usize = 0;
    while y < rows
        invariant
            b == grid(board),
            well_sized(b),
            rows == num_rows(b),
            columns == num_cols(b),
            center_col == columns / 2,
            y <= rows,
            center == center_count(b, y as int, piece),
        decreases rows - y,
    {
        proof {
            lemma_center_count_bound(b, y as int, piece);
        }
        if cell(board, y, center_col) == piece {
            center = center + 1;
        }
        y = y + 1;
    }
    proof {
        lemma_center_count_bound(b, rows as int, piece);
    }
    let mut score: isize = center * CENTER_WEIGHT;
    let ghost base = score as int;
    y = 0;
    while y < rows
        invariant
            b == grid(board),
            well_sized(b),
            rows == num_rows(b),
            columns == num_cols(b),
            y <= rows,
            base == CENTER_WEIGHT * center_count(b, num_rows(b), piece),
            0 <= base <= CENTER_WEIGHT * MAX_DIM,
            score == base + grid_points(b, y as int, piece),
        decreases rows - y,
    {
        let mut x: usize = 0;
        while x < columns
            invariant
                b == grid(board),
                well_sized(b),
                rows == num_rows(b),
                columns == num_cols(b),
                y < rows,
                x <= columns,
                0 <= base <= CENTER_WEIGHT * MAX_DIM,
                score == base + grid_points(b, y as int, piece) + row_points(
                    b,
                    y as int,
                    x as int,
                    piece,
                ),
            decreases columns - x,
        {
            let mut d: usize = 0;
            while d < 4
                invariant
                    b == grid(board),
                    well_sized(b),
                    rows == num_rows(b),
                    columns == num_cols(b),
                    y < rows,
                    x < columns,
                    d <= 4,
                    0 <= base <= CENTER_WEIGHT * MAX_DIM,
                    score == base + grid_points(b, y as int, piece) + row_points(
                        b,
                        y as int,
                        x as int,
                        piece,
                    ) + if d == 0 {
                        0
                    } else if d == 1 {
                        window_points(b, y as int, x as int, 0, piece)
                    } else if d == 2 {
                        window_points(b, y as int, x as int, 0, piece) + window_points(
                            b,
                            y as int,
                            x as int,
                            1,
                            piece,
                        )
                    } else if d == 3 {
                        window_points(b, y as int, x as int, 0, piece) + window_points(
                            b,
                            y as int,
                            x as int,
                            1,
                            piece,
                        ) + window_points(b, y as int, x as int, 2, piece)
                    } else {
                        cell_points(b, y as int, x as int, piece)
                    },
                decreases 4 - d,
            {
                proof {
                    lemma_grid_points_bound(b, y as int, piece);
                    lemma_row_points_bound(b, y as int, x as int, piece);
                    let cols = num_cols(b);
                    lemma_cell_points_bound(b, y as int, x as int, piece);
                    assert(cols * y + x + 1 <= 200 * 200) by (nonlinear_arith)
                        requires
                            0 <= x < cols <= 200,
                            0 <= y < 200,
                    ;
                }
                match window_from(board, y, x, d) {
                    Some(w) => {
                        score = score + evaluate_window(w.as_slice(), piece);
                    },
                    None => {},
                }
                d = d + 1;
            }
            x = x + 1;
        }
        y = y + 1;
    }
    score
}

} // verus!

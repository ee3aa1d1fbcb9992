//! Win and draw detection.

use vstd::prelude::*;
use crate::board::{grid, in_bounds, is_rect, num_cols, num_rows, COMPUTER, EMPTY, USER};

verus! {

/// Row step of line direction `d`: right, down, down-right, down-left.
pub open spec fn dir_dr(d: int) -> int {
    if d == 0 {
        0
    } else {
        1
    }
}

/// Column step of line direction `d`: right, down, down-right, down-left.
pub open spec fn dir_dc(d: int) -> int {
    if d == 0 || d == 2 {
        1
    } else if d == 1 {
        0
    } else {
        -1
    }
}

/// Four cells of one owner start at `(r, c)` and run in direction `d`.
pub open spec fn line_at(b: Seq<Seq<usize>>, r: int, c: int, d: int) -> bool {
    let dr = dir_dr(d);
    let dc = dir_dc(d);
    &&& 0 <= d < 4
    &&& in_bounds(b, r, c)
    &&& in_bounds(b, r + 3 * dr, c + 3 * dc)
    &&& b[r][c] != EMPTY
    &&& b[r + dr][c + dc] == b[r][c]
    &&& b[r + 2 * dr][c + 2 * dc] == b[r][c]
    &&& b[r + 3 * dr][c + 3 * dc] == b[r][c]
}

/// The owner of a line that starts at `(r, c)`, if any.
pub open spec fn win_at_cell(b: Seq<Seq<usize>>, r: int, c: int) -> Option<usize> {
    if line_at(b, r, c, 0) || line_at(b, r, c, 1) || line_at(b, r, c, 2) || line_at(b, r, c, 3) {
        Some(b[r][c])
    } else {
        None
    }
}

/// The owner of the first line that starts in row `r` at column `c` or later.
pub open spec fn win_in_row(b: Seq<Seq<usize>>, r: int, c: int) -> Option<usize>
    decreases num_cols(b) - c,
{
    if c < 0 || c >= num_cols(b) {
        None
    } else if win_at_cell(b, r, c) is Some {
        win_at_cell(b, r, c)
    } else {
        win_in_row(b, r, c + 1)
    }
}

/// The owner of the first line, in row-major order, that starts in row `r`
/// or below.
pub open spec fn win_in_rows(b: Seq<Seq<usize>>, r: int) -> Option<usize>
    decreases num_rows(b) - r,
{
    if r < 0 || r >= num_rows(b) {
        None
    } else if win_in_row(b, r, 0) is Some {
        win_in_row(b, r, 0)
    } else {
        win_in_rows(b, r + 1)
    }
}

/// The winner: the owner of the first four-in-a-row found scanning cells in
/// row-major order and, at each cell, the four directions in turn.
pub open spec fn winner_of(b: Seq<Seq<usize>>) -> Option<usize> {
    win_in_rows(b, 0)
}

/// Some four-in-a-row lies on the board.
pub open spec fn has_line(b: Seq<Seq<usize>>) -> bool {
    exists|r: int, c: int, d: int| line_at(b, r, c, d)
}

/// The top row has no empty cell.
pub open spec fn top_full(b: Seq<Seq<usize>>) -> bool {
    num_rows(b) > 0 && forall|c: int| 0 <= c < num_cols(b) ==> #[trigger] b[0][c] != EMPTY
}

proof fn lemma_win_in_row(b: Seq<Seq<usize>>, r: int, c: int)
    requires
        0 <= c,
    ensures
        win_in_row(b, r, c) matches Some(p) ==> exists|c2: int, d: int|
            c <= c2 && #[trigger] line_at(b, r, c2, d) && b[r][c2] == p,
        forall|c2: int, d: int| c <= c2 && #[trigger] line_at(b, r, c2, d) ==> win_in_row(
            b,
            r,
            c,
        ) is Some,
    decreases num_cols(b) - c,
{
    if c < num_cols(b) {
        lemma_win_in_row(b, r, c + 1);
        if win_at_cell(b, r, c) is Some {
            if line_at(b, r, c, 0) {
                assert(line_at(b, r, c, 0));
            } else if line_at(b, r, c, 1) {
                assert(line_at(b, r, c, 1));
            } else if line_at(b, r, c, 2) {
                assert(line_at(b, r, c, 2));
            } else {
                assert(line_at(b, r, c, 3));
            }
        }
        assert forall|c2: int, d: int| c <= c2 && #[trigger] line_at(b, r, c2, d) implies win_in_row(
            b,
            r,
            c,
        ) is Some by {
            if c2 == c {
                assert(0 <= d < 4);
            }
        }
    }
}

proof fn lemma_win_in_rows(b: Seq<Seq<usize>>, r: int)
    requires
        0 <= r,
    ensures
        win_in_rows(b, r) matches Some(p) ==> exists|r2: int, c2: int, d: int|
            r <= r2 && #[trigger] line_at(b, r2, c2, d) && b[r2][c2] == p,
        forall|r2: int, c2: int, d: int| r <= r2 && #[trigger] line_at(b, r2, c2, d) ==> win_in_rows(
            b,
            r,
        ) is Some,
    decreases num_rows(b) - r,
{
    if r < num_rows(b) {
        lemma_win_in_rows(b, r + 1);
        lemma_win_in_row(b, r, 0);
        assert forall|r2: int, c2: int, d: int| r <= r2 && #[trigger] line_at(b, r2, c2, d) implies win_in_rows(
            b,
            r,
        ) is Some by {
            if r2 == r {
                assert(line_at(b, r, c2, d));
                assert(0 <= c2);
            }
        }
    }
}

/// The board has a winner exactly when it holds a four-in-a-row, and the
/// winner owns one of them.
pub proof fn lemma_winner_has_line(b: Seq<Seq<usize>>)
    ensures
        winner_of(b) is Some <==> has_line(b),
        winner_of(b) matches Some(p) ==> exists|r: int, c: int, d: int|
            #[trigger] line_at(b, r, c, d) && b[r][c] == p,
{
    lemma_win_in_rows(b, 0);
    if has_line(b) {
        let (r, c, d) = choose|r: int, c: int, d: int| line_at(b, r, c, d);
        assert(line_at(b, r, c, d));
    }
}

/// The other player's label for a cell; an empty cell stays empty.
pub open spec fn swap_owner(v: usize) -> usize {
    if v == USER {
        COMPUTER
    } else if v == COMPUTER {
        USER
    } else {
        v
    }
}

/// The board turned half a turn, with the two players' pieces exchanged.
pub open spec fn rotated_swapped(b: Seq<Seq<usize>>) -> Seq<Seq<usize>> {
    Seq::new(
        b.len(),
        |r: int|
            Seq::new(
                num_cols(b) as nat,
                |c: int| swap_owner(b[num_rows(b) - 1 - r][num_cols(b) - 1 - c]),
            ),
    )
}

/// Every four-in-a-row on the board belongs to the same player.
pub open spec fn one_owner(b: Seq<Seq<usize>>) -> bool {
    forall|r1: int, c1: int, d1: int, r2: int, c2: int, d2: int|
        #[trigger] line_at(b, r1, c1, d1) && #[trigger] line_at(b, r2, c2, d2) ==> b[r1][c1]
            == b[r2][c2]
}

proof fn lemma_rotated_shape(b: Seq<Seq<usize>>)
    requires
        is_rect(b),
    ensures
        is_rect(rotated_swapped(b)),
        num_rows(rotated_swapped(b)) == num_rows(b),
        num_cols(rotated_swapped(b)) == num_cols(b),
        rotated_swapped(rotated_swapped(b)) == b,
{
    let rb = rotated_swapped(b);
    let rrb = rotated_swapped(rb);
    assert forall|r: int| 0 <= r < b.len() implies #[trigger] rrb[r] == b[r] by {
        assert(b[r].len() == num_cols(b));
        assert(rrb[r] =~= b[r]);
    }
    assert(rrb =~= b);
}

/// A four-in-a-row maps to one of the other player on the turned board.
proof fn lemma_rotated_line(b: Seq<Seq<usize>>, r: int, c: int, d: int)
    requires
        is_rect(b),
        line_at(b, r, c, d),
    ensures
        line_at(
            rotated_swapped(b),
            num_rows(b) - 1 - (r + 3 * dir_dr(d)),
            num_cols(b) - 1 - (c + 3 * dir_dc(d)),
            d,
        ),
        rotated_swapped(b)[num_rows(b) - 1 - (r + 3 * dir_dr(d))][num_cols(b) - 1 - (c + 3
            * dir_dc(d))] == swap_owner(b[r][c]),
{
    lemma_rotated_shape(b);
}

/// Turning the board half a turn and exchanging the players' pieces
/// exchanges the winner, on any board where all four-in-a-rows belong to
/// one player.
pub proof fn lemma_winner_rotation(b: Seq<Seq<usize>>)
    requires
        is_rect(b),
        one_owner(b),
    ensures
        winner_of(rotated_swapped(b)) == (match winner_of(b) {
            Some(p) => Some(swap_owner(p)),
            None => None::<usize>,
        }),
{
    let rb = rotated_swapped(b);
    lemma_rotated_shape(b);
    lemma_winner_has_line(b);
    lemma_winner_has_line(rb);
    if has_line(rb) {
        let (r, c, d) = choose|r: int, c: int, d: int| line_at(rb, r, c, d);
        lemma_rotated_line(rb, r, c, d);
    }
    if has_line(b) {
        let (r, c, d) = choose|r: int, c: int, d: int| line_at(b, r, c, d);
        lemma_rotated_line(b, r, c, d);
    }
    if let Some(p) = winner_of(b) {
        let (r, c, d) = choose|r: int, c: int, d: int| line_at(b, r, c, d) && b[r][c] == p;
        lemma_rotated_line(b, r, c, d);
        let q = winner_of(rb)->Some_0;
        let (r2, c2, d2) = choose|r2: int, c2: int, d2: int| line_at(rb, r2, c2, d2) && rb[r2][c2] == q;
        lemma_rotated_line(rb, r2, c2, d2);
        let r3 = num_rows(rb) - 1 - (r2 + 3 * dir_dr(d2));
        let c3 = num_cols(rb) - 1 - (c2 + 3 * dir_dc(d2));
        assert(line_at(b, r3, c3, d2));
        assert(b[r3][c3] == swap_owner(q));
        assert(line_at(b, r, c, d));
        assert(swap_owner(q) == p);
    }
}

/// Whether `board[y][x]` is owned by `v`.
fn owned_by(board: &Vec<Vec<usize>>, y: usize, x: usize, v: usize) -> (r: bool)
    requires
        is_rect(grid(board)),
        in_bounds(grid(board), y as int, x as int),
    ensures
        r == (grid(board)[y as int][x as int] == v),
{
    assert(board@[y as int]@ == grid(board)[y as int]);
    board[y][x] == v
}

/// Whether four cells of one owner start at `(y, x)` in direction `d`.
fn line_from(board: &Vec<Vec<usize>>, y: usize, x: usize, d: usize) -> (r: bool)
    requires
        is_rect(grid(board)),
        in_bounds(grid(board), y as int, x as int),
        d < 4,
    ensures
        r == line_at(grid(board), y as int, x as int, d as int),
{
    let ghost b = grid(board);
    let rows = board.len();
    let cols = board[0].len();
    assert(board@[y as int]@ == b[y as int]);
    let v = board[y][x];
    if v == EMPTY {
        return false;
    }
    if d == 0 {
        cols - x > 3 && owned_by(board, y, x + 1, v) && owned_by(board, y, x + 2, v) && owned_by(
            board,
            y,
            x + 3,
            v,
        )
    } else if d == 1 {
        rows - y > 3 && owned_by(board, y + 1, x, v) && owned_by(board, y + 2, x, v) && owned_by(
            board,
            y + 3,
            x,
            v,
        )
    } else if d == 2 {
        rows - y > 3 && cols - x > 3 && owned_by(board, y + 1, x + 1, v) && owned_by(
            board,
            y + 2,
            x + 2,
            v,
        ) && owned_by(board, y + 3, x + 3, v)
    } else {
        rows - y > 3 && x >= 3 && owned_by(board, y + 1, x - 1, v) && owned_by(
            board,
            y + 2,
            x - 2,
            v,
        ) && owned_by(board, y + 3, x - 3, v)
    }
}

/// The owner of the first four-in-a-row on the board, scanning cells in
/// row-major order and the directions right, down, down-right, down-left at
/// each; `None` when there is none.
pub fn check_winner(board: &Vec<Vec<usize>>) -> (r: Option<usize>)
    requires
        is_rect(grid(board)),
    ensures
        r == winner_of(grid(board)),
{
    let ghost b = grid(board);
    let rows = board.len();
    let columns = if rows > 0 {
        board[0].len()
    } else {
        0
    };
    let mut y: usize = 0;
    while y < rows
        invariant
            b == grid(board),
            is_rect(b),
            rows == num_rows(b),
            columns == num_cols(b),
            y <= rows,
            winner_of(b) == win_in_rows(b, y as int),
        decreases rows - y,
    {
        let mut x: usize = 0;
        while x < columns
            invariant
                b == grid(board),
                is_rect(b),
                rows == num_rows(b),
                columns == num_cols(b),
                y < rows,
                x <= columns,
                winner_of(b) == win_in_rows(b, y as int),
                win_in_row(b, y as int, 0) == win_in_row(b, y as int, x as int),
            decreases columns - x,
        {
            assert(board@[y as int]@ == b[y as int]);
            let current = board[y][x];
            if current != EMPTY {
                let mut d: usize = 0;
                while d < 4
                    invariant
                        b == grid(board),
                        is_rect(b),
                        in_bounds(b, y as int, x as int),
                        current == b[y as int][x as int],
                        current != EMPTY,
                        winner_of(b) == win_in_rows(b, y as int),
                        win_in_row(b, y as int, 0) == win_in_row(b, y as int, x as int),
                        d <= 4,
                        forall|d2: int| 0 <= d2 < d ==> !line_at(b, y as int, x as int, d2),
                    decreases 4 - d,
                {
                    if line_from(board, y, x, d) {
                        assert(win_at_cell(b, y as int, x as int) == Some(current));
                        assert(win_in_row(b, y as int, x as int) == Some(current));
                        return Some(current);
                    }
                    d = d + 1;
                }
            }
            assert(win_at_cell(b, y as int, x as int) is None);
            assert(win_in_row(b, y as int, x as int) == win_in_row(b, y as int, x as int + 1));
            x = x + 1;
        }
        assert(win_in_row(b, y as int, columns as int) is None);
        y = y + 1;
    }
    None
}

/// The top row has no empty cell, so no column takes another piece.
pub fn is_full(board: &Vec<Vec<usize>>) -> (r: bool)
    requires
        is_rect(grid(board)),
        num_rows(grid(board)) > 0,
    ensures
        r == top_full(grid(board)),
{
    let ghost b = grid(board);
    let columns = board[0].len();
    assert(board@[0]@ == b[0]);
    let mut x: usize = 0;
    while x < columns
        invariant
            b == grid(board),
            board@[0]@ == b[0],
            columns == num_cols(b),
            num_rows(b) > 0,
            x <= columns,
            forall|c: int| 0 <= c < x ==> #[trigger] b[0][c] != EMPTY,
        decreases columns - x,
    {
        if board[0][x] == EMPTY {
            return false;
        }
        x = x + 1;
    }
    true
}

/// The game ended in a draw: the board is full and nobody has four in a row.
pub fn is_draw(board: &Vec<Vec<usize>>) -> (r: bool)
    requires
        is_rect(grid(board)),
        num_rows(grid(board)) > 0,
    ensures
        r == (top_full(grid(board)) && winner_of(grid(board)) is None),
{
    is_full(board) && check_winner(board).is_none()
}

} // verus!

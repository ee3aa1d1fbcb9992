//! The board: a rectangular grid of cells, row 0 on top, filled by gravity.

use vstd::prelude::*;

verus! {

/// A cell that holds no piece.
pub const EMPTY: usize = 0;

/// A cell that holds a piece of the human player.
pub const USER: usize = 1;

/// A cell that holds a piece of the computer player.
pub const COMPUTER: usize = 2;

/// The largest number of rows or columns a board may have, so that every
/// score fits in an `isize` of 32 bits.
pub const MAX_DIM: usize = 200;

/// What can go wrong when a piece is played.
#[derive(Debug, Clone, Copy, PartialEq, Eq, Structural)]
pub enum MoveError {
    /// The chosen column has no empty cell left.
    ColumnFull,
    /// No column has an empty cell left.
    NoLegalMove,
}

/// The board as a grid of cells, indexed by row then column.
pub open spec fn grid(board: &Vec<Vec<usize>>) -> Seq<Seq<usize>> {
    Seq::new(board@.len(), |r: int| board@[r]@)
}

pub open spec fn num_rows(b: Seq<Seq<usize>>) -> int {
    b.len() as int
}

pub open spec fn num_cols(b: Seq<Seq<usize>>) -> int {
    if b.len() > 0 {
        b[0].len() as int
    } else {
        0
    }
}

/// Every row has as many cells as the first one.
pub open spec fn is_rect(b: Seq<Seq<usize>>) -> bool {
    forall|r: int| 0 <= r < b.len() ==> #[trigger] b[r].len() == num_cols(b)
}

/// A rectangular board of at least one row and one column, within `MAX_DIM`.
pub open spec fn well_sized(b: Seq<Seq<usize>>) -> bool {
    &&& is_rect(b)
    &&& 1 <= num_rows(b) <= MAX_DIM
    &&& 1 <= num_cols(b) <= MAX_DIM
}

pub open spec fn in_bounds(b: Seq<Seq<usize>>, r: int, c: int) -> bool {
    0 <= r < num_rows(b) && 0 <= c < num_cols(b)
}

/// The lowest empty cell of column `c` among the rows `0..n`, if any.
pub open spec fn open_row_below(b: Seq<Seq<usize>>, c: int, n: int) -> Option<int>
    decreases n,
{
    if n <= 0 {
        None
    } else if b[n - 1][c] == EMPTY {
        Some(n - 1)
    } else {
        open_row_below(b, c, n - 1)
    }
}

/// The row a piece dropped into column `c` comes to rest in, if any.
pub open spec fn open_row(b: Seq<Seq<usize>>, c: int) -> Option<int> {
    open_row_below(b, c, num_rows(b))
}

/// The board after `player` drops a piece into column `c`; unchanged when the
/// column is full.
pub open spec fn dropped(b: Seq<Seq<usize>>, c: int, player: usize) -> Seq<Seq<usize>> {
    match open_row(b, c) {
        Some(r) => b.update(r, b[r].update(c, player)),
        None => b,
    }
}

/// Gravity: no empty cell lies below an occupied one in the same column.
pub open spec fn settled(b: Seq<Seq<usize>>) -> bool {
    forall|r: int, c: int|
        0 <= r && r + 1 < num_rows(b) && 0 <= c < num_cols(b) && #[trigger] b[r][c] != EMPTY
            ==> b[r + 1][c] != EMPTY
}

/// The number of empty cells of column `c` among the rows `0..n`.
pub open spec fn empty_count_below(b: Seq<Seq<usize>>, c: int, n: int) -> nat
    decreases n,
{
    if n <= 0 {
        0
    } else {
        empty_count_below(b, c, n - 1) + if b[n - 1][c] == EMPTY { 1nat } else { 0nat }
    }
}

/// The number of empty cells of column `c`.
pub open spec fn empty_count(b: Seq<Seq<usize>>, c: int) -> nat {
    empty_count_below(b, c, num_rows(b))
}

/// Column `c` holds the same cells in both boards.
pub open spec fn same_column(b1: Seq<Seq<usize>>, b2: Seq<Seq<usize>>, c: int) -> bool {
    &&& num_rows(b1) == num_rows(b2)
    &&& forall|r: int| 0 <= r < num_rows(b1) ==> #[trigger] b1[r][c] == b2[r][c]
}

pub proof fn lemma_open_row_below(b: Seq<Seq<usize>>, c: int, n: int)
    requires
        0 <= n <= num_rows(b),
    ensures
        match open_row_below(b, c, n) {
            Some(r) => 0 <= r < n && b[r][c] == EMPTY && forall|r2: int|
                r < r2 < n ==> #[trigger] b[r2][c] != EMPTY,
            None => forall|r2: int| 0 <= r2 < n ==> #[trigger] b[r2][c] != EMPTY,
        },
    decreases n,
{
    if n > 0 {
        lemma_open_row_below(b, c, n - 1);
    }
}

/// Writing `v` over an empty cell of column `c` removes exactly one empty
/// cell from that column.
proof fn lemma_empty_count_fill(b: Seq<Seq<usize>>, b2: Seq<Seq<usize>>, c: int, r: int, n: int)
    requires
        0 <= n <= num_rows(b),
        num_rows(b2) == num_rows(b),
        0 <= r < num_rows(b),
        b[r][c] == EMPTY,
        b2[r][c] != EMPTY,
        forall|r2: int| 0 <= r2 < num_rows(b) && r2 != r ==> #[trigger] b2[r2][c] == b[r2][c],
    ensures
        empty_count_below(b2, c, n) + (if r < n { 1int } else { 0int })
            == empty_count_below(b, c, n),
    decreases n,
{
    if n > 0 {
        lemma_empty_count_fill(b, b2, c, r, n - 1);
    }
}

/// The lowest empty row of column `col`, scanning from the bottom row up.
pub fn get_next_open_row(board: &Vec<Vec<usize>>, col: usize) -> (r: Option<usize>)
    requires
        is_rect(grid(board)),
        col < num_cols(grid(board)),
    ensures
        r is Some <==> open_row(grid(board), col as int) is Some,
        r matches Some(row) ==> open_row(grid(board), col as int) == Some(row as int),
{
    let ghost b = grid(board);
    let rows = board.len();
    let mut row: usize = rows;
    while row > 0
        invariant
            b == grid(board),
            is_rect(b),
            col < num_cols(b),
            rows == num_rows(b),
            row <= rows,
            open_row(b, col as int) == open_row_below(b, col as int, row as int),
        decreases row,
    {
        assert(board[row - 1]@ == b[row - 1]);
        if board[row - 1][col] == EMPTY {
            return Some(row - 1);
        }
        row = row - 1;
    }
    None
}

/// A piece may be played in column `c`: its top cell is empty.
pub open spec fn is_legal(b: Seq<Seq<usize>>, c: int) -> bool {
    0 <= c < num_cols(b) && num_rows(b) > 0 && b[0][c] == EMPTY
}

/// Some column takes another piece.
pub open spec fn has_legal(b: Seq<Seq<usize>>) -> bool {
    exists|c: int| is_legal(b, c)
}

/// Dropping a piece keeps the board's shape.
pub proof fn lemma_dropped_shape(b: Seq<Seq<usize>>, c: int, player: usize)
    requires
        is_rect(b),
        0 <= c < num_cols(b),
    ensures
        is_rect(dropped(b, c, player)),
        num_rows(dropped(b, c, player)) == num_rows(b),
        num_cols(dropped(b, c, player)) == num_cols(b),
        well_sized(b) ==> well_sized(dropped(b, c, player)),
{
    lemma_open_row_below(b, c, num_rows(b));
    let b2 = dropped(b, c, player);
    assert forall|r: int| 0 <= r < b2.len() implies #[trigger] b2[r].len() == num_cols(b2) by {
        assert(b[r].len() == num_cols(b));
    }
}

/// A legal column always takes a piece.
pub proof fn lemma_legal_has_open_row(b: Seq<Seq<usize>>, c: int)
    requires
        is_legal(b, c),
    ensures
        open_row(b, c) is Some,
{
    lemma_open_row_below(b, c, num_rows(b));
}

/// Dropping a piece keeps the board settled.
pub proof fn lemma_dropped_settled(b: Seq<Seq<usize>>, c: int, player: usize)
    requires
        is_rect(b),
        0 <= c < num_cols(b),
        player != EMPTY,
        settled(b),
    ensures
        settled(dropped(b, c, player)),
{
    lemma_open_row_below(b, c, num_rows(b));
    lemma_dropped_shape(b, c, player);
}

/// The board after each `(column, player)` of `moves` is dropped in turn.
pub open spec fn after_drops(b: Seq<Seq<usize>>, moves: Seq<(int, usize)>) -> Seq<Seq<usize>>
    decreases moves.len(),
{
    if moves.len() == 0 {
        b
    } else {
        let (c, player) = moves.last();
        dropped(after_drops(b, moves.drop_last()), c, player)
    }
}

/// Gravity holds after any sequence of drops into a settled board: in every
/// column the occupied cells form one run that rests on the bottom row.
pub proof fn lemma_drops_keep_settled(b: Seq<Seq<usize>>, moves: Seq<(int, usize)>)
    requires
        is_rect(b),
        settled(b),
        forall|i: int|
            0 <= i < moves.len() ==> 0 <= (#[trigger] moves[i]).0 < num_cols(b) && moves[i].1
                != EMPTY,
    ensures
        settled(after_drops(b, moves)),
        is_rect(after_drops(b, moves)),
        num_rows(after_drops(b, moves)) == num_rows(b),
        num_cols(after_drops(b, moves)) == num_cols(b),
    decreases moves.len(),
{
    if moves.len() > 0 {
        let rest = moves.drop_last();
        assert forall|i: int| 0 <= i < rest.len() implies 0 <= (#[trigger] rest[i]).0 < num_cols(b)
            && rest[i].1 != EMPTY by {
            assert(rest[i] == moves[i]);
        }
        lemma_drops_keep_settled(b, rest);
        let (c, player) = moves.last();
        assert(moves.last() == moves[moves.len() - 1]);
        lemma_dropped_settled(after_drops(b, rest), c, player);
        lemma_dropped_shape(after_drops(b, rest), c, player);
    }
}

/// A board of `rows` rows and `cols` columns, every cell empty.
pub open spec fn empty_grid(rows: int, cols: int) -> Seq<Seq<usize>> {
    Seq::new(rows as nat, |r: int| Seq::new(cols as nat, |c: int| EMPTY))
}

/// A new empty board of `rows` rows and `columns` columns; `None` when either
/// is under 4, so that four in a row cannot fit, or over `MAX_DIM`.
pub fn new_board(rows: usize, columns: usize) -> (r: Option<Vec<Vec<usize>>>)
    ensures
        r is None <==> (rows < 4 || columns < 4 || rows > MAX_DIM || columns > MAX_DIM),
        r matches Some(board) ==> grid(&board) == empty_grid(rows as int, columns as int)
            && well_sized(grid(&board)) && settled(grid(&board)),
{
    if rows < 4 || columns < 4 || rows > MAX_DIM || columns > MAX_DIM {
        return None;
    }
    let mut board: Vec<Vec<usize>> = Vec::new();
    let mut y: usize = 0;
    while y < rows
        invariant
            y <= rows,
            board@.len() == y,
            forall|r: int| 0 <= r < y ==> #[trigger] board@[r]@ == Seq::new(
                columns as nat,
                |c: int| EMPTY,
            ),
        decreases rows - y,
    {
        let mut line: Vec<usize> = Vec::new();
        let mut x: usize = 0;
        while x < columns
            invariant
                x <= columns,
                line@ == Seq::new(x as nat, |c: int| EMPTY),
            decreases columns - x,
        {
            line.push(EMPTY);
            x = x + 1;
            assert(line@ =~= Seq::new(x as nat, |c: int| EMPTY));
        }
        board.push(line);
        y = y + 1;
    }
    assert(grid(&board) =~= empty_grid(rows as int, columns as int));
    Some(board)
}

/// The legal columns before `k`, in ascending order.
pub open spec fn legal_before(b: Seq<Seq<usize>>, k: int) -> Seq<usize>
    decreases k,
{
    if k <= 0 {
        Seq::empty()
    } else if is_legal(b, k - 1) {
        legal_before(b, k - 1).push((k - 1) as usize)
    } else {
        legal_before(b, k - 1)
    }
}

/// The list of legal columns before `k` holds exactly those columns.
pub proof fn lemma_legal_before(b: Seq<Seq<usize>>, k: int)
    requires
        0 <= k <= num_cols(b),
        k <= usize::MAX,
    ensures
        forall|i: int|
            0 <= i < legal_before(b, k).len() ==> is_legal(b, #[trigger] legal_before(b, k)[i] as int)
                && legal_before(b, k)[i] < k,
        legal_before(b, k).len() == 0 <==> forall|c: int| 0 <= c < k ==> !is_legal(b, c),
    decreases k,
{
    if k > 0 {
        lemma_legal_before(b, k - 1);
        let prev = legal_before(b, k - 1);
        let cur = legal_before(b, k);
        assert forall|i: int| 0 <= i < cur.len() implies is_legal(b, #[trigger] cur[i] as int)
            && cur[i] < k by {
            if i < prev.len() {
                assert(cur[i] == prev[i]);
            }
        }
    }
}

/// The legal columns, in ascending order.
pub fn legal_columns(board: &Vec<Vec<usize>>) -> (r: Vec<usize>)
    requires
        is_rect(grid(board)),
        num_rows(grid(board)) > 0,
    ensures
        r@ == legal_before(grid(board), num_cols(grid(board))),
{
    let ghost b = grid(board);
    let columns = board[0].len();
    assert(board@[0]@ == b[0]);
    let mut out: Vec<usize> = Vec::new();
    let mut x: usize = 0;
    while x < columns
        invariant
            b == grid(board),
            board@[0]@ == b[0],
            columns == num_cols(b),
            num_rows(b) > 0,
            x <= columns,
            out@ == legal_before(b, x as int),
        decreases columns - x,
    {
        if board[0][x] == EMPTY {
            out.push(x);
        }
        x = x + 1;
    }
    out
}

/// A copy of the board.
pub fn copy_board(board: &Vec<Vec<usize>>) -> (r: Vec<Vec<usize>>)
    ensures
        grid(&r) == grid(board),
{
    let mut out: Vec<Vec<usize>> = Vec::new();
    let mut y: usize = 0;
    while y < board.len()
        invariant
            y <= board@.len(),
            out@.len() == y,
            forall|r: int| 0 <= r < y ==> #[trigger] out@[r]@ == board@[r]@,
        decreases board@.len() - y,
    {
        let mut line: Vec<usize> = Vec::new();
        let mut x: usize = 0;
        while x < board[y].len()
            invariant
                y < board@.len(),
                x <= board@[y as int]@.len(),
                line@ == board@[y as int]@.subrange(0, x as int),
            decreases board@[y as int]@.len() - x,
        {
            line.push(board[y][x]);
            x = x + 1;
            assert(line@ =~= board@[y as int]@.subrange(0, x as int));
        }
        assert(line@ =~= board@[y as int]@);
        out.push(line);
        y = y + 1;
    }
    assert(grid(&out) =~= grid(board));
    out
}

/// Drops `player`'s piece into column `col`: it comes to rest in the lowest
/// empty cell of that column, whose row is returned.
pub fn drop_piece(board: &mut Vec<Vec<usize>>, col: usize, player: usize) -> (r: Result<
    usize,
    MoveError,
>)
    requires
        is_rect(grid(old(board))),
        col < num_cols(grid(old(board))),
        player != EMPTY,
    ensures
        grid(final(board)) == dropped(grid(old(board)), col as int, player),
        r is Err <==> open_row(grid(old(board)), col as int) is None,
        r is Err ==> r == Err::<usize, MoveError>(MoveError::ColumnFull),
        r matches Ok(row) ==> open_row(grid(old(board)), col as int) == Some(row as int),
        open_row(grid(old(board)), col as int) is Some ==> empty_count(grid(final(board)), col as int)
            + 1 == empty_count(grid(old(board)), col as int),
        forall|c: int|
            0 <= c < num_cols(grid(old(board))) && c != col ==> same_column(
                grid(final(board)),
                grid(old(board)),
                c,
            ),
        settled(grid(old(board))) ==> settled(grid(final(board))),
        is_rect(grid(final(board))),
        num_rows(grid(final(board))) == num_rows(grid(old(board))),
        num_cols(grid(final(board))) == num_cols(grid(old(board))),
{
    let ghost b = grid(board);
    match get_next_open_row(board, col) {
        Some(row) => {
            proof {
                lemma_open_row_below(b, col as int, num_rows(b));
                assert(open_row(b, col as int) == Some(row as int));
            }
            assert(board@[row as int]@ == b[row as int]);
            board[row][col] = player;
            proof {
                let b2 = grid(board);
                assert(b2[row as int] =~= b[row as int].update(col as int, player));
                assert(b2.len() == b.len());
                assert forall|r: int| 0 <= r < b.len() && r != row implies b2[r] == b[r] by {}
                assert(b2 =~= dropped(b, col as int, player));
                lemma_empty_count_fill(b, b2, col as int, row as int, num_rows(b));
                assert forall|c: int| 0 <= c < num_cols(b) && c != col implies same_column(
                    b2,
                    b,
                    c,
                ) by {}
            }
            Ok(row)
        },
        None => Err(MoveError::ColumnFull),
    }
}

} // verus!

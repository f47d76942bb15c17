//! The board as a mathematical object: a sequence of columns, each a
//! sequence of cells counted from the bottom, with the rules of placement
//! and of victory stated over it.

use vstd::prelude::*;
use crate::error::Error;
use crate::token::State;

verus! {

/// Number of rows: how many tokens a column can hold.
pub const AREA_ROWS: usize = 6;

/// Number of columns.
pub const AREA_COLS: usize = 7;

/// Number of equal tokens that must be aligned to win.
pub const VICTORY_NUMBER: usize = 4;

/// `g[c][r]` is the cell of column `c` at row `r`, row 0 being the bottom.
pub type Grid = Seq<Seq<State>>;

/// `(c, r)` addresses a cell of the board.
pub open spec fn in_grid(c: int, r: int) -> bool {
    0 <= c < AREA_COLS && 0 <= r < AREA_ROWS
}

/// The grid has `AREA_COLS` columns of `AREA_ROWS` cells.
pub open spec fn well_shaped(g: Grid) -> bool {
    &&& g.len() == AREA_COLS
    &&& forall|c: int| 0 <= c < AREA_COLS ==> (#[trigger] g[c]).len() == AREA_ROWS
}

/// The grid without any token.
pub open spec fn empty_grid() -> Grid {
    Seq::new(AREA_COLS as nat, |c: int| Seq::new(AREA_ROWS as nat, |r: int| State::NoToken))
}

/// Above a free cell of the column every cell is free: tokens rest on the
/// bottom or on another token.
pub open spec fn settled_column(col: Seq<State>) -> bool {
    forall|low: int, high: int|
        0 <= low <= high < col.len() && col[low] == State::NoToken ==> col[high] == State::NoToken
}

/// The grid has the right shape and every column is settled.
pub open spec fn settled(g: Grid) -> bool {
    &&& well_shaped(g)
    &&& forall|c: int| 0 <= c < AREA_COLS ==> settled_column(#[trigger] g[c])
}

/// The lowest free row of the column at or above `from`; the column's
/// length when there is none.
pub open spec fn lowest_free_from(col: Seq<State>, from: nat) -> nat
    decreases col.len() - from,
{
    if from >= col.len() {
        col.len()
    } else if col[from as int] == State::NoToken {
        from
    } else {
        lowest_free_from(col, from + 1)
    }
}

/// The row where a token dropped into the column comes to rest; the
/// column's length when the column has no free cell.
pub open spec fn lowest_free(col: Seq<State>) -> nat {
    lowest_free_from(col, 0)
}

/// The top cell of column `c` is taken.
pub open spec fn column_full(g: Grid, c: int) -> bool {
    g[c][AREA_ROWS - 1] != State::NoToken
}

/// No column has a free top cell.
pub open spec fn board_full(g: Grid) -> bool {
    forall|c: int| 0 <= c < AREA_COLS ==> #[trigger] column_full(g, c)
}

/// Every bottom cell is free.
pub open spec fn bottom_free(g: Grid) -> bool {
    forall|c: int| 0 <= c < AREA_COLS ==> (#[trigger] g[c])[0] == State::NoToken
}

/// `columns` lists, in ascending order, exactly the columns of the grid
/// whose top cell is free.
pub open spec fn lists_open_columns(columns: Seq<usize>, g: Grid) -> bool {
    &&& forall|j: int, k: int| 0 <= j < k < columns.len() ==> columns[j] < columns[k]
    &&& forall|k: int|
        0 <= k < columns.len() ==> columns[k] < AREA_COLS && !column_full(g, #[trigger] columns[k] as int)
    &&& forall|c: int|
        0 <= c < AREA_COLS && !#[trigger] column_full(g, c) ==> exists|k: int|
            0 <= k < columns.len() && columns[k] == c
}

/// The grid with `token` in the lowest free cell of column `c`.
pub open spec fn drop_token(g: Grid, token: State, c: int) -> Grid {
    g.update(c, g[c].update(lowest_free(g[c]) as int, token))
}

/// Why placing `token` in column `c` is refused, if it is: an empty marker
/// is no token, whatever the column; then the column must exist; then it
/// must have room.
pub open spec fn placement_error(g: Grid, token: State, c: int) -> Option<Error> {
    if token == State::NoToken {
        Some(Error::NotAToken)
    } else if !(0 <= c < AREA_COLS) {
        Some(Error::InvalidColumn)
    } else if column_full(g, c) {
        Some(Error::FilledColumn)
    } else {
        None
    }
}

/// The grid after an attempt to place `token` in column `c`: a refused
/// placement changes nothing.
pub open spec fn after_placement(g: Grid, token: State, c: int) -> Grid {
    if placement_error(g, token, c) is None {
        drop_token(g, token, c)
    } else {
        g
    }
}

/// What placing `token` in column `c` answers: the refusal, or whether the
/// token now lies on a line that holds a winning run of its colour.
pub open spec fn placement(g: Grid, token: State, c: int) -> Result<bool, Error> {
    match placement_error(g, token, c) {
        Some(e) => Err(e),
        None => Ok(wins_at(drop_token(g, token, c), c, lowest_free(g[c]) as int)),
    }
}

/// `VICTORY_NUMBER` consecutive cells of the line, from `start` on, hold `token`.
pub open spec fn run_at(line: Seq<State>, token: State, start: int) -> bool {
    &&& 0 <= start
    &&& start + VICTORY_NUMBER <= line.len()
    &&& forall|k: int| start <= k < start + VICTORY_NUMBER ==> line[k] == token
}

/// Somewhere on the line `VICTORY_NUMBER` consecutive cells hold `token`.
pub open spec fn has_run(line: Seq<State>, token: State) -> bool {
    exists|start: int| run_at(line, token, start)
}

/// The smaller of two integers.
pub open spec fn least(a: int, b: int) -> int {
    if a <= b {
        a
    } else {
        b
    }
}

/// Column `c`, from the bottom up.
pub open spec fn column_line(g: Grid, c: int) -> Seq<State> {
    g[c]
}

/// Row `r`, from the left.
pub open spec fn row_line(g: Grid, r: int) -> Seq<State> {
    Seq::new(AREA_COLS as nat, |c: int| g[c][r])
}

/// The diagonal through `(c, r)` that climbs to the right, from the edge
/// where it enters the board to the edge where it leaves it.
pub open spec fn rising_line(g: Grid, c: int, r: int) -> Seq<State> {
    let back = least(c, r);
    let ahead = least(AREA_COLS - 1 - c, AREA_ROWS - 1 - r);
    Seq::new((back + ahead + 1) as nat, |i: int| g[c - back + i][r - back + i])
}

/// The diagonal through `(c, r)` that descends to the right, from the edge
/// where it enters the board to the edge where it leaves it.
pub open spec fn falling_line(g: Grid, c: int, r: int) -> Seq<State> {
    let back = least(c, AREA_ROWS - 1 - r);
    let ahead = least(AREA_COLS - 1 - c, r);
    Seq::new((back + ahead + 1) as nat, |i: int| g[c - back + i][r + back - i])
}

/// One of the four lines through `(c, r)` holds a run of the colour found
/// at `(c, r)`.
pub open spec fn wins_at(g: Grid, c: int, r: int) -> bool {
    let token = g[c][r];
    ||| has_run(column_line(g, c), token)
    ||| has_run(row_line(g, r), token)
    ||| has_run(rising_line(g, c, r), token)
    ||| has_run(falling_line(g, c, r), token)
}

/// The four ways in which tokens can be aligned, each named by how a line
/// runs from its first cell.
pub enum Direction {
    /// Along a row, to the right.
    Across,
    /// Along a column, upwards.
    Up,
    /// Diagonally, to the right and upwards.
    Rising,
    /// Diagonally, to the right and downwards.
    Falling,
}

/// The cell `k` steps from `(c, r)` in direction `d`, as column and row.
pub open spec fn cell_along(c: int, r: int, d: Direction, k: int) -> (int, int) {
    match d {
        Direction::Across => (c + k, r),
        Direction::Up => (c, r + k),
        Direction::Rising => (c + k, r + k),
        Direction::Falling => (c + k, r - k),
    }
}

/// The `VICTORY_NUMBER` cells that start at `(c, r)` and follow direction
/// `d` all lie on the board and all hold `token`.
pub open spec fn aligned(g: Grid, token: State, c: int, r: int, d: Direction) -> bool {
    forall|k: int|
        0 <= k < VICTORY_NUMBER ==> {
            let cell = #[trigger] cell_along(c, r, d, k);
            in_grid(cell.0, cell.1) && g[cell.0][cell.1] == token
        }
}

/// `(c, r)` is one of the `VICTORY_NUMBER` cells that start at `(c0, r0)`
/// and follow direction `d`.
pub open spec fn passes_through(c0: int, r0: int, d: Direction, c: int, r: int) -> bool {
    exists|k: int| 0 <= k < VICTORY_NUMBER && #[trigger] cell_along(c0, r0, d, k) == (c, r)
}

/// Somewhere on the grid `VICTORY_NUMBER` tokens of one colour are aligned.
pub open spec fn has_four(g: Grid) -> bool {
    exists|c: int, r: int, d: Direction|
        in_grid(c, r) && g[c][r] != State::NoToken && #[trigger] aligned(g, g[c][r], c, r, d)
}

/// What `lowest_free_from` finds: every cell from `from` up to the result
/// is taken, and the result, if it is a row of the column, is free.
pub proof fn lemma_lowest_free_from(col: Seq<State>, from: nat)
    requires
        from <= col.len(),
    ensures
        from <= lowest_free_from(col, from) <= col.len(),
        forall|r: int| from <= r < lowest_free_from(col, from) ==> col[r] != State::NoToken,
        lowest_free_from(col, from) < col.len() ==> col[lowest_free_from(col, from) as int]
            == State::NoToken,
    decreases col.len() - from,
{
    if from < col.len() && col[from as int] != State::NoToken {
        lemma_lowest_free_from(col, from + 1);
    }
}

/// In a settled column the top cell is taken exactly when no cell is free.
pub proof fn lemma_full_column(col: Seq<State>)
    requires
        settled_column(col),
        col.len() > 0,
    ensures
        col[col.len() - 1] != State::NoToken <==> lowest_free(col) == col.len(),
{
    lemma_lowest_free_from(col, 0);
}

/// Dropping a token into a column with room keeps the grid settled: the
/// token lands on a row of the board, and nothing else changes.
pub proof fn lemma_drop_settles(g: Grid, token: State, c: int)
    requires
        settled(g),
        token != State::NoToken,
        0 <= c < AREA_COLS,
        !column_full(g, c),
    ensures
        lowest_free(g[c]) < AREA_ROWS,
        settled(drop_token(g, token, c)),
        lowest_free(drop_token(g, token, c)[c]) == lowest_free(g[c]) + 1,
        forall|d: int, r: int|
            in_grid(d, r) && !(d == c && r == lowest_free(g[c])) ==> drop_token(g, token, c)[d][r]
                == g[d][r],
        drop_token(g, token, c)[c][lowest_free(g[c]) as int] == token,
{
    let col = g[c];
    let row = lowest_free(col) as int;
    lemma_lowest_free_from(col, 0);
    lemma_full_column(col);
    let after = drop_token(g, token, c);
    let stacked = after[c];
    assert(stacked == col.update(row, token));
    assert(settled_column(stacked)) by {
        assert forall|low: int, high: int|
            0 <= low <= high < stacked.len() && stacked[low] == State::NoToken implies stacked[high]
            == State::NoToken by {
            assert(low > row);
            assert(col[row] == State::NoToken);
            assert(col[high] == State::NoToken);
        }
    }
    assert forall|d: int| 0 <= d < AREA_COLS implies settled_column(#[trigger] after[d]) by {
        if d != c {
            assert(after[d] == g[d]);
        }
    }
    lemma_lowest_free_from(stacked, 0);
    let landed = lowest_free(stacked) as int;
    assert(landed == row + 1) by {
        if landed <= row {
            assert(stacked[landed] == State::NoToken);
        } else if landed > row + 1 {
            assert(stacked[row + 1] != State::NoToken);
            assert(col[row + 1] == State::NoToken);
        }
    }
}

} // verus!

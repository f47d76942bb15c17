//! How a match unfolds: what one move leads to, and what a whole series of
//! moves by two alternating players amounts to.

use vstd::prelude::*;
use crate::error::Error;
use crate::grid::{
    after_placement, board_full, column_full, drop_token, has_four, lemma_drop_settles,
    lemma_lowest_free_from, lowest_free, placement, placement_error, settled, well_shaped, Grid,
    AREA_COLS, AREA_ROWS,
};
use crate::laws::{after_placements, lemma_placements_settle, lemma_win_leaves_four};
use crate::token::State;

verus! {

/// What a move leads to.
#[derive(Clone, Copy, Debug, PartialEq, Eq, Structural)]
pub enum Turn {
    /// The move wins the match for the player who made it.
    Win,
    /// The move wins nothing and takes the last free cell.
    Draw,
    /// The match goes on with the other player.
    Continue,
}

/// What placing `token` in column `c` leads to: a refusal ends the match
/// with its error, a winning token with a win, a token that fills the
/// board with a draw; after any other the match goes on.
pub open spec fn turn_result(g: Grid, token: State, c: int) -> Result<Turn, Error> {
    match placement(g, token, c) {
        Err(e) => Err(e),
        Ok(won) => if won {
            Ok(Turn::Win)
        } else if board_full(after_placement(g, token, c)) {
            Ok(Turn::Draw)
        } else {
            Ok(Turn::Continue)
        },
    }
}

/// The colour played in turn `k`, the first turn being turn 0: yellow
/// opens, and the colours alternate.
pub open spec fn token_of_turn(k: int) -> State {
    if k % 2 == 0 {
        State::YellowToken
    } else {
        State::RedToken
    }
}

/// Whether turn `k` is for the first player to make: the first player
/// opens, and the players alternate.
pub open spec fn first_moves(k: int) -> bool {
    k % 2 == 0
}

/// The columns chosen turn after turn, each with the colour of its turn.
pub open spec fn turns(columns: Seq<usize>) -> Seq<(State, int)> {
    Seq::new(columns.len(), |k: int| (token_of_turn(k), columns[k] as int))
}

/// The grid on which turn `k` is played.
pub open spec fn grid_before(g: Grid, columns: Seq<usize>, k: int) -> Grid {
    after_placements(g, turns(columns).take(k))
}

/// What turn `k` leads to.
pub open spec fn turn_at(g: Grid, columns: Seq<usize>, k: int) -> Result<Turn, Error> {
    turn_result(grid_before(g, columns, k), token_of_turn(k), columns[k] as int)
}

/// `columns` is a whole match played from grid `g`: there is at least one
/// turn, every turn but the last lets the match go on, and the last ends
/// it.
pub open spec fn is_match(g: Grid, columns: Seq<usize>) -> bool {
    &&& columns.len() > 0
    &&& forall|k: int|
        0 <= k < columns.len() - 1 ==> #[trigger] turn_at(g, columns, k) == Ok::<Turn, Error>(
            Turn::Continue,
        )
    &&& turn_at(g, columns, columns.len() - 1) != Ok::<Turn, Error>(Turn::Continue)
}

/// How the match `columns` ends: what its last turn leads to.
pub open spec fn match_end(g: Grid, columns: Seq<usize>) -> Result<Turn, Error> {
    turn_at(g, columns, columns.len() - 1)
}

/// The grid that the match `columns` leaves.
pub open spec fn grid_at_end(g: Grid, columns: Seq<usize>) -> Grid {
    after_placements(g, turns(columns))
}

/// The number of free cells in the first `n` columns of a settled grid.
pub open spec fn free_cells_upto(g: Grid, n: nat) -> int
    decreases n,
{
    if n == 0 {
        0
    } else {
        free_cells_upto(g, (n - 1) as nat) + AREA_ROWS - lowest_free(g[n - 1])
    }
}

/// The number of free cells of a settled grid.
pub open spec fn free_cells(g: Grid) -> int {
    free_cells_upto(g, AREA_COLS as nat)
}

/// The number of free cells is never negative.
pub proof fn lemma_free_cells_bounds(g: Grid, n: nat)
    requires
        well_shaped(g),
        n <= AREA_COLS,
    ensures
        0 <= free_cells_upto(g, n) <= n * AREA_ROWS,
    decreases n,
{
    if n > 0 {
        lemma_free_cells_bounds(g, (n - 1) as nat);
        lemma_lowest_free_from(g[n - 1], 0);
    }
}

/// A token dropped into column `c` takes one free cell of the columns up
/// to `n` if `c` is among them, and none if it is not.
pub proof fn lemma_drop_takes_cell(g: Grid, token: State, c: int, n: nat)
    requires
        settled(g),
        token != State::NoToken,
        0 <= c < AREA_COLS,
        !column_full(g, c),
        n <= AREA_COLS,
    ensures
        free_cells_upto(drop_token(g, token, c), n) == free_cells_upto(g, n) - if c < n {
            1int
        } else {
            0int
        },
    decreases n,
{
    if n > 0 {
        lemma_drop_takes_cell(g, token, c, (n - 1) as nat);
        lemma_drop_settles(g, token, c);
        if c != n - 1 {
            assert(drop_token(g, token, c)[n - 1] == g[n - 1]);
        }
    }
}

/// Every accepted token leaves one free cell less.
pub proof fn lemma_accepted_token_takes_cell(g: Grid, token: State, c: int)
    requires
        settled(g),
        placement_error(g, token, c) is None,
    ensures
        free_cells(after_placement(g, token, c)) == free_cells(g) - 1,
        free_cells(after_placement(g, token, c)) >= 0,
{
    lemma_drop_takes_cell(g, token, c, AREA_COLS as nat);
    lemma_drop_settles(g, token, c);
    lemma_free_cells_bounds(after_placement(g, token, c), AREA_COLS as nat);
}

/// The grid on which a turn is played is the grid that the turn before it
/// left.
pub proof fn lemma_grid_before_next(g: Grid, columns: Seq<usize>, k: int)
    requires
        0 <= k < columns.len(),
    ensures
        grid_before(g, columns, k + 1) == after_placement(
            grid_before(g, columns, k),
            token_of_turn(k),
            columns[k] as int,
        ),
        k + 1 == columns.len() ==> grid_at_end(g, columns) == grid_before(g, columns, k + 1),
{
    let all = turns(columns);
    assert(all.take(k + 1).drop_last() =~= all.take(k));
    assert(all.take(k + 1).last() == all[k]);
    assert(all.take(columns.len() as int) =~= all);
}

/// One more turn changes nothing of the turns before it.
pub proof fn lemma_turns_push(g: Grid, columns: Seq<usize>, column: usize, k: int)
    requires
        0 <= k <= columns.len(),
    ensures
        grid_before(g, columns.push(column), k) == grid_before(g, columns, k),
        k < columns.len() ==> turn_at(g, columns.push(column), k) == turn_at(g, columns, k),
{
    assert(turns(columns.push(column)).take(k) =~= turns(columns).take(k));
}

/// Throughout a match played from a settled grid, every turn finds the
/// grid settled.
pub proof fn lemma_match_grids_settled(g: Grid, columns: Seq<usize>, k: int)
    requires
        settled(g),
        0 <= k <= columns.len(),
    ensures
        settled(grid_before(g, columns, k)),
{
    lemma_placements_settle(g, turns(columns).take(k));
}

/// A match that leaves the board full, with no alignment on it, is a draw:
/// played from a settled grid that still had a free cell, it ends neither
/// with a win nor with an error.
pub proof fn lemma_full_board_without_alignment_is_draw(g: Grid, columns: Seq<usize>)
    requires
        settled(g),
        !board_full(g),
        is_match(g, columns),
        board_full(grid_at_end(g, columns)),
        !has_four(grid_at_end(g, columns)),
    ensures
        match_end(g, columns) == Ok::<Turn, Error>(Turn::Draw),
{
    let last = columns.len() - 1;
    let before = grid_before(g, columns, last);
    let token = token_of_turn(last);
    let c = columns[last] as int;
    let end = grid_at_end(g, columns);
    lemma_grid_before_next(g, columns, last);
    lemma_match_grids_settled(g, columns, last);
    assert(end == after_placement(before, token, c));
    if placement_error(before, token, c) is Some {
        assert(end == before);
        if last == 0 {
            assert(turns(columns).take(0) =~= Seq::<(State, int)>::empty());
            assert(before == g);
        } else {
            lemma_grid_before_next(g, columns, last - 1);
            assert(turn_at(g, columns, last - 1) == Ok::<Turn, Error>(Turn::Continue));
        }
        assert(false);
    } else {
        lemma_drop_settles(before, token, c);
        if placement(before, token, c) == Ok::<bool, Error>(true) {
            lemma_win_leaves_four(end, c, lowest_free(before[c]) as int);
        }
    }
}

} // verus!

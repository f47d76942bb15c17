//! What holds of the rules, whatever the moves: proved over the grid.

use vstd::prelude::*;
use crate::error::Error;
use crate::grid::{
    after_placement, aligned, bottom_free, cell_along, column_line, drop_token, empty_grid,
    falling_line, has_four, has_run, in_grid, least, lemma_drop_settles, lemma_full_column,
    lemma_lowest_free_from, lowest_free, passes_through, placement, placement_error, rising_line,
    row_line, run_at, settled, well_shaped, wins_at, Direction, Grid, AREA_COLS, AREA_ROWS,
    VICTORY_NUMBER,
};
use crate::token::State;

verus! {

/// The grid after a series of attempts to place a token, each a token and
/// the column it is meant for, in order.
pub open spec fn after_placements(g: Grid, moves: Seq<(State, int)>) -> Grid
    decreases moves.len(),
{
    if moves.len() == 0 {
        g
    } else {
        after_placement(after_placements(g, moves.drop_last()), moves.last().0, moves.last().1)
    }
}

/// An attempt to place a token, accepted or refused, keeps a settled grid
/// settled.
pub proof fn lemma_placement_settles(g: Grid, token: State, c: int)
    requires
        settled(g),
    ensures
        settled(after_placement(g, token, c)),
{
    if placement_error(g, token, c) is None {
        lemma_drop_settles(g, token, c);
    }
}

/// Whatever is played on a settled grid, and in whatever order, no column
/// ever has a token above a free cell.
pub proof fn lemma_placements_settle(g: Grid, moves: Seq<(State, int)>)
    requires
        settled(g),
    ensures
        settled(after_placements(g, moves)),
    decreases moves.len(),
{
    if moves.len() > 0 {
        lemma_placements_settle(g, moves.drop_last());
        lemma_placement_settles(
            after_placements(g, moves.drop_last()),
            moves.last().0,
            moves.last().1,
        );
    }
}

/// The empty grid is settled, and every bottom cell of it is free.
pub proof fn lemma_empty_grid()
    ensures
        settled(empty_grid()),
        bottom_free(empty_grid()),
        forall|c: int| 0 <= c < AREA_COLS ==> lowest_free(#[trigger] empty_grid()[c]) == 0,
{
    assert forall|c: int| 0 <= c < AREA_COLS implies lowest_free(#[trigger] empty_grid()[c])
        == 0 by {
        lemma_lowest_free_from(empty_grid()[c], 0);
    }
}

/// The grid after `tokens` were dropped into column `c`, the first of them
/// first.
pub open spec fn stacked(g: Grid, c: int, tokens: Seq<State>) -> Grid {
    after_placements(g, Seq::new(tokens.len(), |k: int| (tokens[k], c)))
}

/// Tokens dropped into one column pile up: as long as the column has room
/// for them all, each is accepted and raises the lowest free row by one.
pub proof fn lemma_stacking(g: Grid, c: int, tokens: Seq<State>)
    requires
        settled(g),
        0 <= c < AREA_COLS,
        forall|k: int| 0 <= k < tokens.len() ==> tokens[k] != State::NoToken,
        lowest_free(g[c]) + tokens.len() <= AREA_ROWS,
    ensures
        settled(stacked(g, c, tokens)),
        lowest_free(stacked(g, c, tokens)[c]) == lowest_free(g[c]) + tokens.len(),
        forall|k: int|
            0 <= k < tokens.len() ==> placement_error(
                #[trigger] stacked(g, c, tokens.take(k)),
                tokens[k],
                c,
            ) is None,
    decreases tokens.len(),
{
    let moves = Seq::new(tokens.len(), |k: int| (tokens[k], c));
    if tokens.len() > 0 {
        let fewer = tokens.drop_last();
        lemma_stacking(g, c, fewer);
        assert(moves.drop_last() =~= Seq::new(fewer.len(), |k: int| (fewer[k], c)));
        let before = stacked(g, c, fewer);
        assert(after_placements(g, moves) == after_placement(before, tokens.last(), c));
        lemma_full_column(before[c]);
        lemma_drop_settles(before, tokens.last(), c);
        assert forall|k: int| 0 <= k < tokens.len() implies placement_error(
            #[trigger] stacked(g, c, tokens.take(k)),
            tokens[k],
            c,
        ) is None by {
            if k < fewer.len() {
                assert(tokens.take(k) =~= fewer.take(k));
            } else {
                assert(tokens.take(k) =~= fewer);
            }
        }
    }
}

/// A column that holds `AREA_ROWS` tokens takes no more: any further token
/// is refused as `FilledColumn`, and the grid stays as it is.
pub proof fn lemma_full_column_refuses(g: Grid, token: State, c: int)
    requires
        settled(g),
        0 <= c < AREA_COLS,
        lowest_free(g[c]) == AREA_ROWS,
        token != State::NoToken,
    ensures
        placement(g, token, c) == Err::<bool, Error>(Error::FilledColumn),
        after_placement(g, token, c) == g,
{
    lemma_full_column(g[c]);
}

/// The empty marker is never placed, whatever the column and whatever it
/// holds.
pub proof fn lemma_empty_marker_refused(g: Grid, c: int)
    ensures
        placement(g, State::NoToken, c) == Err::<bool, Error>(Error::NotAToken),
        after_placement(g, State::NoToken, c) == g,
{
}

/// A token meant for a column that the board does not have is refused as
/// `InvalidColumn`.
pub proof fn lemma_unknown_column_refused(g: Grid, token: State, c: int)
    requires
        token != State::NoToken,
        c >= AREA_COLS,
    ensures
        placement(g, token, c) == Err::<bool, Error>(Error::InvalidColumn),
        after_placement(g, token, c) == g,
{
}

/// A settled grid whose bottom cells are all free holds no token at all.
pub proof fn lemma_bottom_free_is_empty(g: Grid)
    requires
        settled(g),
        bottom_free(g),
    ensures
        g == empty_grid(),
{
    assert forall|c: int, r: int| in_grid(c, r) implies g[c][r] == State::NoToken by {
        assert(g[c][0] == State::NoToken);
    }
    assert(g =~~= empty_grid());
}

/// Once a token has been accepted, anywhere, the bottom row is no longer
/// free.
pub proof fn lemma_accepted_token_shows(g: Grid, token: State, c: int)
    requires
        settled(g),
        placement_error(g, token, c) is None,
    ensures
        !bottom_free(after_placement(g, token, c)),
{
    lemma_drop_settles(g, token, c);
    lemma_lowest_free_from(g[c], 0);
    let after = after_placement(g, token, c);
    let row = lowest_free(g[c]) as int;
    if row == 0 {
        assert(after[c][0] == token);
    } else {
        assert(g[c][0] != State::NoToken);
        assert(after[c][0] == g[c][0]);
    }
}

/// Where the line through `(c, r)` in direction `d` starts on the board,
/// and which of its cells `(c, r)` is.
pub open spec fn line_origin(c: int, r: int, d: Direction) -> (int, int, int) {
    match d {
        Direction::Across => (0, r, c),
        Direction::Up => (c, 0, r),
        Direction::Rising => (c - least(c, r), r - least(c, r), least(c, r)),
        Direction::Falling => (
            c - least(c, AREA_ROWS - 1 - r),
            r + least(c, AREA_ROWS - 1 - r),
            least(c, AREA_ROWS - 1 - r),
        ),
    }
}

/// The line through `(c, r)` in direction `d`, from edge to edge.
pub open spec fn line_through(g: Grid, c: int, r: int, d: Direction) -> Seq<State> {
    match d {
        Direction::Across => row_line(g, r),
        Direction::Up => column_line(g, c),
        Direction::Rising => rising_line(g, c, r),
        Direction::Falling => falling_line(g, c, r),
    }
}

/// Cell `i` of the line through `(c, r)` in direction `d` is the cell `i`
/// steps from the line's origin, and it lies on the board.
pub proof fn lemma_line_cells(g: Grid, c: int, r: int, d: Direction)
    requires
        well_shaped(g),
        in_grid(c, r),
    ensures
        0 <= line_origin(c, r, d).2 < line_through(g, c, r, d).len(),
        cell_along(line_origin(c, r, d).0, line_origin(c, r, d).1, d, line_origin(c, r, d).2) == (
            c,
            r,
        ),
        forall|i: int|
            0 <= i < line_through(g, c, r, d).len() ==> {
                let cell = #[trigger] cell_along(
                    line_origin(c, r, d).0,
                    line_origin(c, r, d).1,
                    d,
                    i,
                );
                in_grid(cell.0, cell.1) && line_through(g, c, r, d)[i] == g[cell.0][cell.1]
            },
{
}

/// A run on the line through `(c, r)` is an alignment on the grid.
pub proof fn lemma_run_is_aligned(g: Grid, token: State, c: int, r: int, d: Direction, start: int)
    requires
        well_shaped(g),
        in_grid(c, r),
        run_at(line_through(g, c, r, d), token, start),
    ensures
        aligned(
            g,
            token,
            cell_along(line_origin(c, r, d).0, line_origin(c, r, d).1, d, start).0,
            cell_along(line_origin(c, r, d).0, line_origin(c, r, d).1, d, start).1,
            d,
        ),
{
    lemma_line_cells(g, c, r, d);
    let origin = line_origin(c, r, d);
    let line = line_through(g, c, r, d);
    let first = cell_along(origin.0, origin.1, d, start);
    assert forall|k: int| 0 <= k < VICTORY_NUMBER implies {
        let cell = #[trigger] cell_along(first.0, first.1, d, k);
        in_grid(cell.0, cell.1) && g[cell.0][cell.1] == token
    } by {
        assert(cell_along(first.0, first.1, d, k) == cell_along(origin.0, origin.1, d, start + k));
        assert(line[start + k] == token);
    }
}

/// An alignment through `(c, r)` is a run on one of the four lines through
/// `(c, r)`.
pub proof fn lemma_aligned_is_run(g: Grid, token: State, c0: int, r0: int, d: Direction, c: int, r: int)
    requires
        well_shaped(g),
        in_grid(c, r),
        aligned(g, token, c0, r0, d),
        passes_through(c0, r0, d, c, r),
    ensures
        has_run(line_through(g, c, r, d), token),
{
    lemma_line_cells(g, c, r, d);
    let origin = line_origin(c, r, d);
    let line = line_through(g, c, r, d);
    let j = choose|k: int| 0 <= k < VICTORY_NUMBER && #[trigger] cell_along(c0, r0, d, k) == (c, r);
    let start = origin.2 - j;
    let first = cell_along(c0, r0, d, 0);
    let last = cell_along(c0, r0, d, VICTORY_NUMBER - 1);
    assert(in_grid(first.0, first.1));
    assert(in_grid(last.0, last.1));
    assert(0 <= start);
    assert(start + VICTORY_NUMBER <= line.len());
    assert forall|k: int| start <= k < start + VICTORY_NUMBER implies line[k] == token by {
        let cell = cell_along(origin.0, origin.1, d, k);
        assert(cell == cell_along(c0, r0, d, k - start));
    }
    assert(run_at(line, token, start));
}

/// The token that completes an alignment wins: where `VICTORY_NUMBER`
/// tokens of the colour found at `(c, r)` are aligned in a row, a column or
/// a diagonal, and `(c, r)` is one of them, the four lines through `(c, r)`
/// hold a run.
pub proof fn lemma_completed_alignment_wins(g: Grid, c0: int, r0: int, d: Direction, c: int, r: int)
    requires
        well_shaped(g),
        in_grid(c, r),
        aligned(g, g[c][r], c0, r0, d),
        passes_through(c0, r0, d, c, r),
    ensures
        wins_at(g, c, r),
{
    lemma_aligned_is_run(g, g[c][r], c0, r0, d, c, r);
}

/// A win is never declared without an alignment: where the lines through
/// `(c, r)` hold a run, `VICTORY_NUMBER` tokens of the colour found at
/// `(c, r)` are aligned on one of those lines.
pub proof fn lemma_win_shows_alignment(g: Grid, c: int, r: int) -> (found: (int, int, Direction))
    requires
        well_shaped(g),
        in_grid(c, r),
        wins_at(g, c, r),
    ensures
        in_grid(found.0, found.1),
        aligned(g, g[c][r], found.0, found.1, found.2),
        exists|i: int|
            0 <= i && #[trigger] cell_along(
                line_origin(c, r, found.2).0,
                line_origin(c, r, found.2).1,
                found.2,
                i,
            ) == (found.0, found.1),
{
    let token = g[c][r];
    let d = if has_run(line_through(g, c, r, Direction::Up), token) {
        Direction::Up
    } else if has_run(line_through(g, c, r, Direction::Across), token) {
        Direction::Across
    } else if has_run(line_through(g, c, r, Direction::Rising), token) {
        Direction::Rising
    } else {
        Direction::Falling
    };
    let line = line_through(g, c, r, d);
    assert(has_run(line, token));
    let start = choose|start: int| run_at(line, token, start);
    lemma_run_is_aligned(g, token, c, r, d, start);
    lemma_line_cells(g, c, r, d);
    let origin = line_origin(c, r, d);
    let first = cell_along(origin.0, origin.1, d, start);
    assert(in_grid(first.0, first.1));
    (first.0, first.1, d)
}

/// A win leaves an alignment on the grid.
pub proof fn lemma_win_leaves_four(g: Grid, c: int, r: int)
    requires
        well_shaped(g),
        in_grid(c, r),
        g[c][r] != State::NoToken,
        wins_at(g, c, r),
    ensures
        has_four(g),
{
    let found = lemma_win_shows_alignment(g, c, r);
    let first = cell_along(found.0, found.1, found.2, 0);
    assert(g[first.0][first.1] == g[c][r]);
    assert(aligned(g, g[found.0][found.1], found.0, found.1, found.2));
}

/// On a grid without any alignment, a placement wins exactly when the
/// token placed completes one: it answers `true` if the new token is one of
/// `VICTORY_NUMBER` aligned tokens of its colour, and `false` if it is not.
pub proof fn lemma_win_iff_alignment_completed(g: Grid, token: State, c: int)
    requires
        settled(g),
        !has_four(g),
        placement_error(g, token, c) is None,
    ensures
        placement(g, token, c) == Ok::<bool, Error>(true) <==> exists|
            c0: int,
            r0: int,
            d: Direction,
        |
            #[trigger] aligned(drop_token(g, token, c), token, c0, r0, d) && passes_through(
                c0,
                r0,
                d,
                c,
                lowest_free(g[c]) as int,
            ),
{
    lemma_drop_settles(g, token, c);
    let after = drop_token(g, token, c);
    let row = lowest_free(g[c]) as int;
    if placement(g, token, c) == Ok::<bool, Error>(true) {
        let found = lemma_win_shows_alignment(after, c, row);
        let (c0, r0, d) = found;
        if !passes_through(c0, r0, d, c, row) {
            assert forall|k: int| 0 <= k < VICTORY_NUMBER implies {
                let cell = #[trigger] cell_along(c0, r0, d, k);
                in_grid(cell.0, cell.1) && g[cell.0][cell.1] == token
            } by {
                let cell = cell_along(c0, r0, d, k);
                assert(cell != (c, row));
                assert(after[cell.0][cell.1] == token);
            }
            let first = cell_along(c0, r0, d, 0);
            assert(g[first.0][first.1] == token);
            assert(aligned(g, g[c0][r0], c0, r0, d));
            assert(false);
        }
        assert(aligned(after, token, c0, r0, d) && passes_through(c0, r0, d, c, row));
    }
    if exists|c0: int, r0: int, d: Direction|
        #[trigger] aligned(after, token, c0, r0, d) && passes_through(c0, r0, d, c, row) {
        let (c0, r0, d) = choose|c0: int, r0: int, d: Direction|
            #[trigger] aligned(after, token, c0, r0, d) && passes_through(c0, r0, d, c, row);
        lemma_completed_alignment_wins(after, c0, r0, d, c, row);
    }
}

} // verus!

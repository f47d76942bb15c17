//! The board: a grid of cells that tokens are dropped into.

use vstd::prelude::*;
use crate::error::Error;
use crate::grid::{
    after_placement, bottom_free, column_full, column_line, drop_token, empty_grid, falling_line,
    has_run, in_grid, lemma_drop_settles, lemma_full_column, lists_open_columns, lowest_free,
    lowest_free_from, placement, rising_line, row_line, run_at, settled, wins_at, Grid,
    AREA_COLS, AREA_ROWS, VICTORY_NUMBER,
};
use crate::token::State;

verus! {

/// The playing area.
///
/// Cells are addressed by column and row, row 0 being the bottom. The only
/// way to change a cell is to drop a token into a column.
pub struct Area {
    cells: [[State; AREA_ROWS]; AREA_COLS],
}

impl Area {
    /// The grid that the area holds.
    pub closed spec fn view(&self) -> Grid {
        Seq::new(AREA_COLS as nat, |c: int| self.cells[c]@)
    }

    /// Every token rests on the bottom or on another token.
    pub open spec fn wf(&self) -> bool {
        settled(self@)
    }

    /// An area without any token.
    pub fn new() -> (area: Area)
        ensures
            area@ == empty_grid(),
            area.wf(),
    {
        let area = Area { cells: [[State::NoToken; AREA_ROWS]; AREA_COLS] };
        assert(area@ =~~= empty_grid());
        area
    }

    /// The state of the cell at `(column, row)`, row 0 being the bottom.
    pub fn get(&self, column: usize, row: usize) -> (state: State)
        requires
            in_grid(column as int, row as int),
        ensures
            state == self@[column as int][row as int],
    {
        self.cells[column][row]
    }

    /// The columns that can still take a token, in ascending order: those
    /// whose top cell is free.
    pub fn get_available_columns(&self) -> (columns: Vec<usize>)
        ensures
            lists_open_columns(columns@, self@),
    {
        let mut columns: Vec<usize> = Vec::with_capacity(AREA_COLS);
        for i in 0..AREA_COLS
            invariant
                forall|k: int| 0 <= k < columns.len() ==> columns[k] < i && !column_full(self@, columns[k] as int),
                forall|j: int, k: int| 0 <= j < k < columns.len() ==> columns[j] < columns[k],
                forall|c: int| 0 <= c < i && !column_full(self@, c) ==> exists|k: int| 0 <= k < columns.len() && columns[k] == c,
        {
            if self.cells[i][AREA_ROWS - 1] == State::NoToken {
                let ghost before = columns@;
                columns.push(i);
                assert forall|c: int| 0 <= c < i + 1 && !column_full(self@, c) implies exists|k: int|
                    0 <= k < columns.len() && columns[k] == c by {
                    if c < i {
                        let k = choose|k: int| 0 <= k < before.len() && before[k] == c;
                        assert(columns[k] == c);
                    } else {
                        assert(columns[columns.len() - 1] == c);
                    }
                }
            }
        }
        columns
    }

    /// Whether `column` has no room left: its top cell is taken. A column
    /// index that is not below `AREA_COLS` is refused as `InvalidColumn`.
    pub fn is_filled_column(&self, column: usize) -> (res: Result<bool, Error>)
        ensures
            column >= AREA_COLS ==> res == Err::<bool, Error>(Error::InvalidColumn),
            column < AREA_COLS ==> res == Ok::<bool, Error>(column_full(self@, column as int)),
    {
        if column >= AREA_COLS {
            return Err(Error::InvalidColumn);
        }
        Ok(self.cells[column][AREA_ROWS - 1] != State::NoToken)
    }

    /// Drops `token` into `column` and tells whether that wins.
    ///
    /// The token comes to rest in the lowest free cell of the column. The
    /// answer is `true` when one of the four lines through that cell (its
    /// column, its row, its two diagonals) holds `VICTORY_NUMBER` consecutive
    /// cells of the token's colour.
    ///
    /// Refused, leaving the area as it was: the empty marker as a token
    /// (`NotAToken`, whatever the column), a column index that is not below
    /// `AREA_COLS` (`InvalidColumn`), a column whose top cell is taken
    /// (`FilledColumn`).
    pub fn set_token(&mut self, token: State, column: usize) -> (res: Result<bool, Error>)
        requires
            old(self).wf(),
        ensures
            final(self).wf(),
            final(self)@ == after_placement(old(self)@, token, column as int),
            res == placement(old(self)@, token, column as int),
    {
        if token == State::NoToken {
            return Err(Error::NotAToken);
        }
        if column >= AREA_COLS {
            return Err(Error::InvalidColumn);
        }
        proof {
            lemma_full_column(self@[column as int]);
        }
        match self.find_available_row(column) {
            Some(row) => {
                proof {
                    lemma_drop_settles(self@, token, column as int);
                }
                self.cells[column][row] = token;
                assert(self@ =~~= drop_token(old(self)@, token, column as int));
                Ok(self.check_victory_from(column, row))
            },
            None => Err(Error::FilledColumn),
        }
    }

    /// Whether the area holds no token: every bottom cell is free.
    pub fn is_empty(&self) -> (empty: bool)
        ensures
            empty == bottom_free(self@),
    {
        for col in 0..AREA_COLS
            invariant
                forall|c: int| 0 <= c < col ==> (#[trigger] self@[c])[0] == State::NoToken,
        {
            if self.cells[col][0] != State::NoToken {
                assert(self@[col as int][0] != State::NoToken);
                return false;
            }
        }
        true
    }

    /// Whether the token at `(col, row)` lies on a line that holds a run of
    /// its colour: the column and the row are scanned whole, each diagonal
    /// from edge to edge.
    fn check_victory_from(&self, col: usize, row: usize) -> (won: bool)
        requires
            in_grid(col as int, row as int),
        ensures
            won == wins_at(self@, col as int, row as int),
    {
        let token = self.cells[col][row];
        let a = self.check_linear(token, col, true);
        let b = self.check_linear(token, row, false);
        let c = self.check_diagonal(token, col, row, true);
        let d = self.check_diagonal(token, col, row, false);
        a || b || c || d
    }

    /// The lowest free row of `column`, if it has one.
    fn find_available_row(&self, column: usize) -> (found: Option<usize>)
        requires
            column < AREA_COLS,
        ensures
            match found {
                Some(row) => row < AREA_ROWS && row == lowest_free(self@[column as int]),
                None => lowest_free(self@[column as int]) == AREA_ROWS,
            },
    {
        let ghost cells = self@[column as int];
        for i in 0..AREA_ROWS
            invariant
                column < AREA_COLS,
                cells == self@[column as int],
                lowest_free(cells) == lowest_free_from(cells, i as nat),
        {
            if self.cells[column][i] == State::NoToken {
                return Some(i);
            }
        }
        None
    }

    /// Whether a whole column (`col` set, `pos` its index) or a whole row
    /// (`col` unset, `pos` its index) holds a run of `token`.
    fn check_linear(&self, token: State, pos: usize, col: bool) -> (won: bool)
        requires
            col ==> pos < AREA_COLS,
            !col ==> pos < AREA_ROWS,
        ensures
            won == has_run(
                if col {
                    column_line(self@, pos as int)
                } else {
                    row_line(self@, pos as int)
                },
                token,
            ),
    {
        let max = if col { AREA_ROWS } else { AREA_COLS };
        let ghost line = if col {
            column_line(self@, pos as int)
        } else {
            row_line(self@, pos as int)
        };
        let mut count: usize = 0;
        for i in 0..max
            invariant
                col ==> pos < AREA_COLS && max == AREA_ROWS,
                !col ==> pos < AREA_ROWS && max == AREA_COLS,
                line == if col {
                    column_line(self@, pos as int)
                } else {
                    row_line(self@, pos as int)
                },
                line.len() == max,
                counted(line, token, i as int, count as int),
        {
            let cell = if col {
                self.cells[pos][i]
            } else {
                self.cells[i][pos]
            };
            assert(cell == line[i as int]);
            proof {
                lemma_count_step(line, token, i as int, count as int);
            }
            if token == cell {
                count += 1;
            } else {
                count = 0;
            }
            if count >= VICTORY_NUMBER {
                return true;
            }
        }
        proof {
            lemma_count_end(line, token, count as int);
        }
        false
    }

    /// Whether one of the two diagonals through `(col, row)` holds a run of
    /// `token`: the one that climbs to the right if `rising`, else the one
    /// that descends to the right.
    ///
    /// The diagonal is scanned from the edge where it enters the board. One
    /// that is shorter than a run is not scanned at all.
    fn check_diagonal(&self, token: State, col: usize, row: usize, rising: bool) -> (won: bool)
        requires
            in_grid(col as int, row as int),
        ensures
            won == has_run(
                if rising {
                    rising_line(self@, col as int, row as int)
                } else {
                    falling_line(self@, col as int, row as int)
                },
                token,
            ),
    {
        let back = if rising {
            if col <= row { col } else { row }
        } else {
            if col <= AREA_ROWS - 1 - row { col } else { AREA_ROWS - 1 - row }
        };
        let ahead = if rising {
            if AREA_COLS - 1 - col <= AREA_ROWS - 1 - row { AREA_COLS - 1 - col } else { AREA_ROWS - 1 - row }
        } else {
            if AREA_COLS - 1 - col <= row { AREA_COLS - 1 - col } else { row }
        };
        let origin_col = col - back;
        let origin_row = if rising { row - back } else { row + back };
        let length = back + ahead + 1;
        let ghost line = if rising {
            rising_line(self@, col as int, row as int)
        } else {
            falling_line(self@, col as int, row as int)
        };
        if length < VICTORY_NUMBER {
            return false;
        }
        let mut count: usize = 0;
        for i in 0..length
            invariant
                line == if rising {
                    rising_line(self@, col as int, row as int)
                } else {
                    falling_line(self@, col as int, row as int)
                },
                line.len() == length,
                origin_col + length <= AREA_COLS,
                rising ==> origin_row + length <= AREA_ROWS,
                !rising ==> length <= origin_row + 1 && origin_row < AREA_ROWS,
                forall|k: int| 0 <= k < length ==> line[k] == self@[origin_col + k][if rising { origin_row + k } else { origin_row - k }],
                counted(line, token, i as int, count as int),
        {
            let cell = if rising {
                self.cells[origin_col + i][origin_row + i]
            } else {
                self.cells[origin_col + i][origin_row - i]
            };
            assert(cell == line[i as int]);
            proof {
                lemma_count_step(line, token, i as int, count as int);
            }
            if token == cell {
                count += 1;
            } else {
                count = 0;
            }
            if count >= VICTORY_NUMBER {
                return true;
            }
        }
        proof {
            lemma_count_end(line, token, count as int);
        }
        false
    }
}

/// The state of a scan that counts consecutive cells holding `token`: of
/// the first `seen` cells of the line the last `count` hold `token`, the one
/// before them does not, and no run lies within the cells seen.
spec fn counted(line: Seq<State>, token: State, seen: int, count: int) -> bool {
    &&& 0 <= count <= seen <= line.len()
    &&& count < VICTORY_NUMBER
    &&& forall|k: int| seen - count <= k < seen ==> line[k] == token
    &&& count < seen ==> line[seen - count - 1] != token
    &&& forall|start: int| start + VICTORY_NUMBER <= seen ==> !run_at(line, token, start)
}

/// One step of the scan: the count grows on a cell that holds `token` and
/// falls to zero on any other; a count that reaches `VICTORY_NUMBER` has
/// found a run.
proof fn lemma_count_step(line: Seq<State>, token: State, seen: int, count: int)
    requires
        counted(line, token, seen, count),
        seen < line.len(),
    ensures
        line[seen] == token && count + 1 >= VICTORY_NUMBER ==> has_run(line, token),
        line[seen] == token && count + 1 < VICTORY_NUMBER ==> counted(line, token, seen + 1, count + 1),
        line[seen] != token ==> counted(line, token, seen + 1, 0),
{
    if line[seen] == token {
        if count + 1 >= VICTORY_NUMBER {
            assert(run_at(line, token, seen + 1 - VICTORY_NUMBER));
        } else {
            assert forall|start: int| start + VICTORY_NUMBER <= seen + 1 implies !run_at(
                line,
                token,
                start,
            ) by {
                if start + VICTORY_NUMBER == seen + 1 && 0 <= start {
                    assert(line[seen - count - 1] != token);
                }
            }
        }
    } else {
        assert forall|start: int| start + VICTORY_NUMBER <= seen + 1 implies !run_at(
            line,
            token,
            start,
        ) by {
            if start + VICTORY_NUMBER == seen + 1 && 0 <= start {
                assert(line[seen] != token);
            }
        }
    }
}

/// A scan that reaches the end of the line without a full count shows that
/// the line holds no run.
proof fn lemma_count_end(line: Seq<State>, token: State, count: int)
    requires
        counted(line, token, line.len() as int, count),
    ensures
        !has_run(line, token),
{
}

impl Clone for Area {
    fn clone(&self) -> (copy: Area)
        ensures
            copy@ == self@,
    {
        Area { cells: self.cells }
    }
}

impl Default for Area {
    fn default() -> (area: Area)
        ensures
            area@ == empty_grid(),
            area.wf(),
    {
        Area::new()
    }
}

} // verus!

//! A player that drops its token into a column picked at random among
//! those that have room.

use vstd::prelude::*;
use vstd::string::StringExecFns;
use crate::area::Area;
use crate::engine::Interface;
use crate::grid::{board_full, column_full, Grid, AREA_COLS};
use crate::token::State;

verus! {

/// A number drawn by `getrandom::getrandom`: the bytes that it writes into
/// a buffer as wide as a `usize`, read as a `usize`; `None` where
/// `getrandom` reports a failure. Nothing is claimed of the number, nor of
/// when one is had.
#[verifier::external_body]
fn random_number() -> (drawn: Option<usize>) {
    let mut bytes = 0usize.to_ne_bytes();
    match getrandom::getrandom(&mut bytes) {
        Ok(()) => Some(usize::from_ne_bytes(bytes)),
        Err(_) => None,
    }
}

/// The column that `number` designates among `columns`: the one at
/// position `number` modulo the number of columns on offer.
pub fn pick_column(columns: &Vec<usize>, number: usize) -> (column: usize)
    requires
        columns.len() > 0,
    ensures
        column == columns[(number % columns.len()) as int],
{
    columns[number % columns.len()]
}

/// A player that plays at random.
pub struct RandomBot {
    name: String,
}

impl RandomBot {
    /// The name that the player was given.
    pub closed spec fn name_text(&self) -> Seq<char> {
        self.name@
    }

    /// A random player called `name`.
    pub fn new(name: &str) -> (bot: RandomBot)
        ensures
            bot.name_text() == name@,
    {
        RandomBot { name: String::from_str(name) }
    }
}

impl Interface for RandomBot {
    /// The player answers with a column that has room, where there is one,
    /// and with column 0 where there is none; it stays as it is.
    open spec fn allows(&self, grid: Grid, token: State, column: usize, after: &Self) -> bool {
        &&& !board_full(grid) ==> column < AREA_COLS && !column_full(grid, column as int)
        &&& board_full(grid) ==> column == 0
        &&& *after == *self
    }

    /// Picks one of the columns that have room, by a number drawn at
    /// random; the first of them if no number can be drawn. On a board without
    /// room there is nothing to pick from: the answer is then column 0, which
    /// the board refuses.
    fn play(&mut self, area: &Area, token: State) -> (column: usize) {
        let available = area.get_available_columns();
        if available.len() == 0 {
            return 0;
        }
        assert(!column_full(area@, available[0] as int));
        let number = match random_number() {
            Some(number) => number,
            None => 0,
        };
        pick_column(&available, number)
    }

    /// The name that the player was given.
    open spec fn announced(&self) -> Option<Seq<char>> {
        Some(self.name_text())
    }

    /// The name that the player was given.
    fn name(&self) -> (name: String) {
        self.name.clone()
    }
}

} // verus!

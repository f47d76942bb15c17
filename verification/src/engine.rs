//! The match controller: two players, one board, and turns that alternate
//! until a player wins, the board is full, or a move is refused.

use vstd::prelude::*;
use crate::area::Area;
use crate::error::Error;
use crate::grid::{after_placement, column_full, empty_grid, Grid, AREA_COLS, AREA_ROWS};
use crate::referee::{
    first_moves, free_cells, grid_at_end, grid_before, is_match, lemma_accepted_token_takes_cell,
    lemma_free_cells_bounds, lemma_grid_before_next, lemma_turns_push, match_end, token_of_turn,
    turn_at, turn_result, turns, Turn,
};
use crate::token::State;

verus! {

/// What the controller needs of a player.
pub trait Interface {
    /// What the player lets itself do: whether, asked on `grid` for a move
    /// with `token`, it may answer `column` and be left as `after`. A player
    /// that commits to nothing allows everything.
    open spec fn allows(&self, grid: Grid, token: State, column: usize, after: &Self) -> bool {
        true
    }

    /// The name that the player commits to, if it commits to one.
    open spec fn announced(&self) -> Option<Seq<char>> {
        None
    }

    /// Asks the player for a move: the column to drop `token` into, given
    /// the board as it stands. The controller takes the answer as it comes and
    /// lets the board judge it.
    fn play(&mut self, area: &Area, token: State) -> (column: usize)
        requires
            area.wf(),
            token != State::NoToken,
        ensures
            old(self).allows(area@, token, column, final(self)),
    ;

    /// The name under which the player is announced.
    fn name(&self) -> (name: String)
        ensures
            self.announced() matches Some(text) ==> name@ == text,
    ;
}

/// Who is asked in turn `turn`, the first turn being turn 0, and for
/// which colour: whether it is the first player, and the token to play.
pub fn query_of_turn(turn: usize) -> (query: (bool, State))
    ensures
        query.0 == first_moves(turn as int),
        query.1 == token_of_turn(turn as int),
{
    if turn % 2 == 0 {
        (true, State::YellowToken)
    } else {
        (false, State::RedToken)
    }
}

/// How a finished match is reported: a win by a name, a draw by `None`, a
/// refused move by its error.
pub open spec fn reports(res: Result<Option<String>, Error>, end: Result<Turn, Error>) -> bool {
    match end {
        Ok(Turn::Win) => res is Ok && res->Ok_0 is Some,
        Ok(Turn::Draw) => res == Ok::<Option<String>, Error>(None),
        Ok(Turn::Continue) => false,
        Err(e) => res == Err::<Option<String>, Error>(e),
    }
}

/// Turn `k` was put to the player whose turn it is, and to no other:
/// `ones[k]` and `twos[k]` being the two players as turn `k` finds them, the
/// player to move was asked on the grid of that turn for the colour of that
/// turn, answered `columns[k]`, and the other player was left alone.
pub open spec fn turn_asked<P: Interface>(
    g: Grid,
    columns: Seq<usize>,
    ones: Seq<P>,
    twos: Seq<P>,
    k: int,
) -> bool {
    if first_moves(k) {
        &&& ones[k].allows(grid_before(g, columns, k), token_of_turn(k), columns[k], &ones[k + 1])
        &&& twos[k + 1] == twos[k]
    } else {
        &&& twos[k].allows(grid_before(g, columns, k), token_of_turn(k), columns[k], &twos[k + 1])
        &&& ones[k + 1] == ones[k]
    }
}

/// Every turn of `columns` was put to the player whose turn it was:
/// `ones` and `twos` follow the two players from before the first turn to
/// after the last.
pub open spec fn all_asked<P: Interface>(
    g: Grid,
    columns: Seq<usize>,
    ones: Seq<P>,
    twos: Seq<P>,
) -> bool {
    &&& ones.len() == columns.len() + 1
    &&& twos.len() == columns.len() + 1
    &&& forall|k: int| 0 <= k < columns.len() ==> #[trigger] turn_asked(g, columns, ones, twos, k)
}

/// The name that a win is reported by is the one that the winner commits
/// to, where it commits to one.
pub open spec fn names_winner<P: Interface>(res: Result<Option<String>, Error>, winner: P) -> bool {
    winner.announced() matches Some(text) ==> res is Ok && res->Ok_0 is Some
        && res->Ok_0->Some_0@ == text
}

/// A match between two players on one board.
pub struct Engine<P: Interface> {
    area: Area,
    player_one_interface: P,
    player_two_interface: P,
}

impl<P: Interface> Engine<P> {
    /// The board of the match.
    pub closed spec fn disposition(&self) -> Area {
        self.area
    }

    /// The player who opens, with yellow.
    pub closed spec fn player_one(&self) -> P {
        self.player_one_interface
    }

    /// The player who answers, with red.
    pub closed spec fn player_two(&self) -> P {
        self.player_two_interface
    }

    /// The grid of the board.
    pub open spec fn grid(&self) -> Grid {
        self.disposition()@
    }

    /// The board of the match is settled.
    pub open spec fn wf(&self) -> bool {
        self.disposition().wf()
    }

    /// A match between `player_one_interface`, who opens, and
    /// `player_two_interface`, on an empty board.
    pub fn new(player_one_interface: P, player_two_interface: P) -> (engine: Self)
        ensures
            engine.wf(),
            engine.grid() == empty_grid(),
            engine.player_one() == player_one_interface,
            engine.player_two() == player_two_interface,
    {
        Engine { area: Area::new(), player_one_interface, player_two_interface }
    }

    /// Seats `interface` as player 1 or player 2. Any other `player_id` is
    /// refused as `InvalidPlayerId`, and both seats stay as they were. The
    /// board is not touched.
    pub fn set_player(&mut self, player_id: usize, interface: P) -> (res: Result<(), Error>)
        ensures
            final(self).disposition() == old(self).disposition(),
            player_id == 1 ==> {
                &&& res is Ok
                &&& final(self).player_one() == interface
                &&& final(self).player_two() == old(self).player_two()
            },
            player_id == 2 ==> {
                &&& res is Ok
                &&& final(self).player_one() == old(self).player_one()
                &&& final(self).player_two() == interface
            },
            player_id != 1 && player_id != 2 ==> {
                &&& res == Err::<(), Error>(Error::InvalidPlayerId(player_id))
                &&& final(self).player_one() == old(self).player_one()
                &&& final(self).player_two() == old(self).player_two()
            },
    {
        if player_id != 1 && player_id != 2 {
            return Err(Error::InvalidPlayerId(player_id));
        }
        if player_id == 1 {
            self.player_one_interface = interface;
        } else {
            self.player_two_interface = interface;
        }
        Ok(())
    }

    /// The board as it stands.
    pub fn get_disposition(&self) -> (area: &Area)
        ensures
            *area == self.disposition(),
    {
        &self.area
    }

    /// Clears the board. The players keep their seats.
    pub fn reset(&mut self)
        ensures
            final(self).wf(),
            final(self).grid() == empty_grid(),
            final(self).player_one() == old(self).player_one(),
            final(self).player_two() == old(self).player_two(),
    {
        self.area = Area::new();
    }

    /// Plays `token` in `column` for the player whose turn it is, and tells
    /// what that leads to: a win if the token completes a run, a draw if it
    /// wins nothing and leaves no column with room, the next turn otherwise.
    /// A refused move leaves the board as it was and is reported with the
    /// board's error.
    pub fn apply_move(&mut self, token: State, column: usize) -> (res: Result<Turn, Error>)
        requires
            old(self).wf(),
        ensures
            final(self).wf(),
            final(self).grid() == after_placement(old(self).grid(), token, column as int),
            res == turn_result(old(self).grid(), token, column as int),
            final(self).player_one() == old(self).player_one(),
            final(self).player_two() == old(self).player_two(),
    {
        match self.area.set_token(token, column) {
            Err(e) => Err(e),
            Ok(won) => {
                if won {
                    Ok(Turn::Win)
                } else {
                    let open = self.area.get_available_columns();
                    if open.len() == 0 {
                        Ok(Turn::Draw)
                    } else {
                        assert(!column_full(self.area@, open[0] as int));
                        Ok(Turn::Continue)
                    }
                }
            },
        }
    }

    /// What a call of `play` amounts to, `self` being the match before the
    /// call and `after` the match after it: the turns `columns` form a whole
    /// match on the board as it stood; every turn was put to the player whose
    /// turn it was, `ones` and `twos` following the two players through the
    /// turns; the board is left as the match leaves it; and `res` reports how
    /// the match ends, a win by the name of the player who made the last move.
    pub open spec fn ran(
        self,
        after: Self,
        columns: Seq<usize>,
        ones: Seq<P>,
        twos: Seq<P>,
        res: Result<Option<String>, Error>,
    ) -> bool {
        &&& is_match(self.grid(), columns)
        &&& all_asked(self.grid(), columns, ones, twos)
        &&& ones[0] == self.player_one()
        &&& twos[0] == self.player_two()
        &&& ones[columns.len() as int] == after.player_one()
        &&& twos[columns.len() as int] == after.player_two()
        &&& after.grid() == grid_at_end(self.grid(), columns)
        &&& reports(res, match_end(self.grid(), columns))
        &&& match_end(self.grid(), columns) == Ok::<Turn, Error>(Turn::Win) ==> names_winner(
            res,
            if first_moves(columns.len() - 1) {
                after.player_one()
            } else {
                after.player_two()
            },
        )
    }

    /// Plays a match to its end on the board as it stands.
    ///
    /// Player 1 opens with yellow, player 2 answers with red, and so on in
    /// turn, as `query_of_turn` says. The player whose turn it is is asked for
    /// a column, given the board and the colour to play; the move is applied
    /// with that colour, as `apply_move` says; the match ends with the first
    /// move that does not lead to the next turn. The answer is the name of the
    /// player who made the winning move, `None` for a draw, or the error of the
    /// move that the board refused.
    ///
    /// Which columns are played is for the players to say. Whatever they say,
    /// the call amounts to a match in the sense of `ran`.
    pub fn play(&mut self) -> (res: Result<Option<String>, Error>)
        requires
            old(self).wf(),
        ensures
            final(self).wf(),
            exists|columns: Seq<usize>, ones: Seq<P>, twos: Seq<P>|
                #[trigger] old(self).ran(*final(self), columns, ones, twos, res),
    {
        let ghost start = self.grid();
        let ghost mut columns: Seq<usize> = Seq::empty();
        let ghost mut ones: Seq<P> = seq![self.player_one()];
        let ghost mut twos: Seq<P> = seq![self.player_two()];
        let mut turn: usize = 0;
        proof {
            assert(turns(columns).take(0) =~= Seq::<(State, int)>::empty());
            lemma_free_cells_bounds(start, AREA_COLS as nat);
        }
        loop
            invariant
                self.wf(),
                start == old(self).grid(),
                turn == columns.len(),
                turn + free_cells(self.grid()) <= AREA_COLS * AREA_ROWS,
                self.grid() == grid_before(start, columns, columns.len() as int),
                forall|k: int|
                    0 <= k < columns.len() ==> #[trigger] turn_at(start, columns, k) == Ok::<
                        Turn,
                        Error,
                    >(Turn::Continue),
                all_asked(start, columns, ones, twos),
                ones[0] == old(self).player_one(),
                twos[0] == old(self).player_two(),
                ones[columns.len() as int] == self.player_one(),
                twos[columns.len() as int] == self.player_two(),
                free_cells(self.grid()) >= 0,
            decreases free_cells(self.grid()),
        {
            let (first, token) = query_of_turn(turn);
            let column = if first {
                self.player_one_interface.play(&self.area, token)
            } else {
                self.player_two_interface.play(&self.area, token)
            };
            let ghost before = self.grid();
            let ghost played = columns;
            let ghost seen_ones = ones;
            let ghost seen_twos = twos;
            let outcome = self.apply_move(token, column);
            proof {
                columns = played.push(column);
                ones = seen_ones.push(self.player_one());
                twos = seen_twos.push(self.player_two());
                let last = played.len() as int;
                lemma_turns_push(start, played, column, last);
                lemma_grid_before_next(start, columns, last);
                assert forall|k: int| 0 <= k < last implies #[trigger] turn_at(start, columns, k)
                    == Ok::<Turn, Error>(Turn::Continue) by {
                    lemma_turns_push(start, played, column, k);
                }
                assert forall|k: int| 0 <= k < columns.len() implies #[trigger] turn_asked(
                    start,
                    columns,
                    ones,
                    twos,
                    k,
                ) by {
                    lemma_turns_push(start, played, column, k);
                    if k < last {
                        assert(turn_asked(start, played, seen_ones, seen_twos, k));
                    }
                }
                assert(outcome == turn_at(start, columns, last));
                if outcome is Ok {
                    lemma_accepted_token_takes_cell(before, token, column as int);
                }
                if outcome != Ok::<Turn, Error>(Turn::Continue) {
                    assert(is_match(start, columns));
                    assert(self.grid() == grid_at_end(start, columns));
                    assert(match_end(start, columns) == outcome);
                }
            }
            match outcome {
                Err(e) => {
                    let res = Err(e);
                    assert(old(self).ran(*self, columns, ones, twos, res));
                    return res;
                },
                Ok(Turn::Win) => {
                    let winner = if first {
                        self.player_one_interface.name()
                    } else {
                        self.player_two_interface.name()
                    };
                    let res = Ok(Some(winner));
                    assert(old(self).ran(*self, columns, ones, twos, res));
                    return res;
                },
                Ok(Turn::Draw) => {
                    let res = Ok(None);
                    assert(old(self).ran(*self, columns, ones, twos, res));
                    return res;
                },
                Ok(Turn::Continue) => {},
            }
            turn = turn + 1;
        }
    }
}

} // verus!

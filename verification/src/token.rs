//! Cell states.

use vstd::prelude::*;

verus! {

/// What a cell of the board holds.
#[derive(Clone, Copy, Debug, PartialEq, Eq, Structural)]
pub enum State {
    /// No token: the cell is free.
    NoToken,
    /// A red token.
    RedToken,
    /// A yellow token.
    YellowToken,
}

impl Default for State {
    fn default() -> (s: State)
        ensures
            s == State::NoToken,
    {
        State::NoToken
    }
}

} // verus!

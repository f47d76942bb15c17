//! What the board and the match controller refuse.

use vstd::prelude::*;
use vstd::string::StringExecFns;
use crate::text::{decimal, decimal_text};

verus! {

/// Why an operation was refused.
#[derive(Clone, Copy, Debug, PartialEq, Eq, Structural)]
pub enum Error {
    /// The column index is not below the number of columns.
    InvalidColumn,
    /// The state given as a token is the empty marker.
    NotAToken,
    /// The column has no free cell left.
    FilledColumn,
    /// The player slot is neither 1 nor 2; the refused slot is carried along.
    InvalidPlayerId(usize),
}

/// The message that goes with an error. The one for a refused player slot
/// names the slot, in decimal.
pub open spec fn message_text(error: Error) -> Seq<char> {
    match error {
        Error::FilledColumn => "La colonne choisie est déjà pleine"@,
        Error::InvalidColumn => "La colonne choisie est invalide"@,
        Error::NotAToken => "L’élément fourni n’est pas un jeton"@,
        Error::InvalidPlayerId(id) => "Le joueur "@ + decimal(id as nat)
            + " n’existe pas. Seul 1 et 2 sont acceptés"@,
    }
}

impl Error {
    /// The message that goes with the error.
    pub fn message(&self) -> (text: String)
        ensures
            text@ == message_text(*self),
    {
        match self {
            Error::FilledColumn => String::from_str("La colonne choisie est déjà pleine"),
            Error::InvalidColumn => String::from_str("La colonne choisie est invalide"),
            Error::NotAToken => String::from_str("L’élément fourni n’est pas un jeton"),
            Error::InvalidPlayerId(id) => {
                let mut text = String::from_str("Le joueur ");
                let number = decimal_text(*id);
                text.append(number.as_str());
                text.append(" n’existe pas. Seul 1 et 2 sont acceptés");
                text
            },
        }
    }
}

} // verus!

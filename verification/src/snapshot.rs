//! The board as text, for display: the column numbers, a rule, the rows from
//! the top down, and a rule.

use vstd::prelude::*;
use vstd::string::StringExecFns;
use crate::area::Area;
use crate::grid::{Grid, AREA_COLS, AREA_ROWS};
use crate::text::{center, centered, decimal, decimal_text};
use crate::token::State;

verus! {

/// Width of the field that shows a cell or a column number.
pub const CELL_WIDTH: usize = 4;

/// How a cell is shown: a disc of the token's colour between two spaces,
/// or blanks.
pub open spec fn cell_text(state: State) -> Seq<char> {
    match state {
        State::NoToken => seq![' ', ' ', ' ', ' '],
        State::RedToken => seq![' ', '🔴', ' '],
        State::YellowToken => seq![' ', '🟡', ' '],
    }
}

/// The rule drawn above and below the rows: one dash for every bar and
/// every character of a field.
pub open spec fn rule_text() -> Seq<char> {
    Seq::new(((CELL_WIDTH + 1) * AREA_COLS + 1) as nat, |i: int| '-')
}

/// The numbers of the first `n` columns, each centred in its field behind
/// a bar.
pub open spec fn header_text(n: nat) -> Seq<char>
    decreases n,
{
    if n == 0 {
        Seq::empty()
    } else {
        header_text((n - 1) as nat) + seq!['|'] + centered(
            decimal((n - 1) as nat),
            CELL_WIDTH as nat,
        )
    }
}

/// The first `n` cells of row `r`, each behind a bar.
pub open spec fn row_text(g: Grid, r: int, n: nat) -> Seq<char>
    decreases n,
{
    if n == 0 {
        Seq::empty()
    } else {
        row_text(g, r, (n - 1) as nat) + seq!['|'] + cell_text(g[n - 1][r])
    }
}

/// The `n` topmost rows, the top row first, each closed by a bar and ended
/// by a line feed.
pub open spec fn rows_text(g: Grid, n: nat) -> Seq<char>
    decreases n,
{
    if n == 0 {
        Seq::empty()
    } else {
        rows_text(g, (n - 1) as nat) + row_text(g, AREA_ROWS - n, AREA_COLS as nat) + seq![
            '|',
            '\n',
        ]
    }
}

/// The whole snapshot: the line of column numbers, a rule, the rows from
/// the top down, and a rule that no line feed follows.
pub open spec fn snapshot(g: Grid) -> Seq<char> {
    header_text(AREA_COLS as nat) + seq!['|', '\n'] + rule_text() + seq!['\n'] + rows_text(
        g,
        AREA_ROWS as nat,
    ) + rule_text()
}

/// How a cell is shown.
fn cell_str(state: State) -> (text: &'static str)
    ensures
        text@ == cell_text(state),
{
    proof {
        reveal_strlit("    ");
        reveal_strlit(" 🔴 ");
        reveal_strlit(" 🟡 ");
    }
    let text = match state {
        State::NoToken => "    ",
        State::RedToken => " 🔴 ",
        State::YellowToken => " 🟡 ",
    };
    assert(text@ =~= cell_text(state));
    text
}

/// Appends the rule to `text`.
fn append_rule(text: &mut String)
    ensures
        final(text)@ == old(text)@ + rule_text(),
{
    let width = (CELL_WIDTH + 1) * AREA_COLS + 1;
    for i in 0..width
        invariant
            width == (CELL_WIDTH + 1) * AREA_COLS + 1,
            text@ == old(text)@ + Seq::new(i as nat, |k: int| '-'),
    {
        text.append("-");
        proof {
            reveal_strlit("-");
        }
        assert(text@ =~= old(text)@ + Seq::new((i + 1) as nat, |k: int| '-'));
    }
}

impl Area {
    /// The area as text: a line with the column numbers, a rule, the rows
    /// from the top down with a disc for every token, and a rule.
    pub fn to_text(&self) -> (text: String)
        ensures
            text@ == snapshot(self@),
    {
        let mut text = String::new();
        for col in 0..AREA_COLS
            invariant
                text@ == header_text(col as nat),
        {
            let label = decimal_text(col);
            let field = center(label.as_str(), CELL_WIDTH);
            text.append("|");
            text.append(field.as_str());
            proof {
                reveal_strlit("|");
            }
            assert(text@ =~= header_text((col + 1) as nat));
        }
        text.append("|\n");
        append_rule(&mut text);
        text.append("\n");
        proof {
            reveal_strlit("|\n");
            reveal_strlit("\n");
        }
        let ghost head = text@;
        assert(head =~= header_text(AREA_COLS as nat) + seq!['|', '\n'] + rule_text() + seq!['\n']);
        for row in 0..AREA_ROWS
            invariant
                text@ == head + rows_text(self@, row as nat),
        {
            let ghost above = text@;
            for col in 0..AREA_COLS
                invariant
                    row < AREA_ROWS,
                    text@ == above + row_text(self@, AREA_ROWS - 1 - row, col as nat),
            {
                text.append("|");
                text.append(cell_str(self.get(col, AREA_ROWS - 1 - row)));
                proof {
                    reveal_strlit("|");
                }
                assert(text@ =~= above + row_text(self@, AREA_ROWS - 1 - row, (col + 1) as nat));
            }
            text.append("|\n");
            proof {
                reveal_strlit("|\n");
            }
            assert(text@ =~= head + rows_text(self@, (row + 1) as nat));
        }
        append_rule(&mut text);
        assert(text@ =~= snapshot(self@));
        text
    }
}

} // verus!

//! Small pieces of text that the board's snapshot and the error messages
//! are made of: numbers in decimal, and text centred in a field.

use vstd::prelude::*;
use vstd::string::StringExecFns;

verus! {

/// The character that writes the digit `d`.
pub open spec fn digit(d: nat) -> char {
    if d == 0 {
        '0'
    } else if d == 1 {
        '1'
    } else if d == 2 {
        '2'
    } else if d == 3 {
        '3'
    } else if d == 4 {
        '4'
    } else if d == 5 {
        '5'
    } else if d == 6 {
        '6'
    } else if d == 7 {
        '7'
    } else if d == 8 {
        '8'
    } else {
        '9'
    }
}

/// `n` written in decimal, without leading zeros.
pub open spec fn decimal(n: nat) -> Seq<char>
    decreases n,
{
    if n < 10 {
        seq![digit(n)]
    } else {
        decimal(n / 10).push(digit(n % 10))
    }
}

/// `n` spaces.
pub open spec fn spaces(n: nat) -> Seq<char> {
    Seq::new(n, |i: int| ' ')
}

/// `text` centred in a field of `width` characters: padded with spaces on
/// both sides, the odd space going to the right. Text that fills the field
/// or overflows it is left as it is.
pub open spec fn centered(text: Seq<char>, width: nat) -> Seq<char> {
    if text.len() >= width {
        text
    } else {
        let padding = (width - text.len()) as nat;
        spaces(padding / 2) + text + spaces((padding - padding / 2) as nat)
    }
}

/// The digit `d` as text.
fn digit_text(d: usize) -> (text: &'static str)
    requires
        d < 10,
    ensures
        text@ == seq![digit(d as nat)],
{
    proof {
        reveal_strlit("0");
        reveal_strlit("1");
        reveal_strlit("2");
        reveal_strlit("3");
        reveal_strlit("4");
        reveal_strlit("5");
        reveal_strlit("6");
        reveal_strlit("7");
        reveal_strlit("8");
        reveal_strlit("9");
    }
    let text = if d == 0 {
        "0"
    } else if d == 1 {
        "1"
    } else if d == 2 {
        "2"
    } else if d == 3 {
        "3"
    } else if d == 4 {
        "4"
    } else if d == 5 {
        "5"
    } else if d == 6 {
        "6"
    } else if d == 7 {
        "7"
    } else if d == 8 {
        "8"
    } else {
        "9"
    };
    assert(text@ =~= seq![digit(d as nat)]);
    text
}

/// `n` in decimal.
pub fn decimal_text(n: usize) -> (text: String)
    ensures
        text@ == decimal(n as nat),
    decreases n,
{
    if n < 10 {
        String::from_str(digit_text(n))
    } else {
        let mut text = decimal_text(n / 10);
        text.append(digit_text(n % 10));
        assert(text@ =~= decimal(n as nat));
        text
    }
}

/// Appends `n` spaces to `text`.
fn append_spaces(text: &mut String, n: usize)
    ensures
        final(text)@ == old(text)@ + spaces(n as nat),
{
    for i in 0..n
        invariant
            text@ == old(text)@ + spaces(i as nat),
    {
        text.append(" ");
        proof {
            reveal_strlit(" ");
        }
        assert(text@ =~= old(text)@ + spaces((i + 1) as nat));
    }
}

/// `text` centred in a field of `width` characters.
pub fn center(text: &str, width: usize) -> (field: String)
    ensures
        field@ == centered(text@, width as nat),
{
    let length = text.unicode_len();
    if length >= width {
        String::from_str(text)
    } else {
        let padding = width - length;
        let mut field = String::new();
        append_spaces(&mut field, padding / 2);
        field.append(text);
        append_spaces(&mut field, padding - padding / 2);
        assert(field@ =~= centered(text@, width as nat));
        field
    }
}

} // verus!

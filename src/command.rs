//! What a player types: "Q" to quit, or a column letter and a row digit ("C4").
use vstd::prelude::*;

verus! {

/// A player's answer: quit, or play at (x, y).
#[derive(Copy, Clone, Debug, PartialEq, Eq, Structural)]
pub enum Choice {
    Quit,
    Move { x: u8, y: u8 },
}

/// The upper-case form of a text, as `str::to_uppercase` gives it.
pub uninterp spec fn upper_of(s: Seq<char>) -> Seq<char>;

/// Relies on `str::to_uppercase`: the result depends on the characters alone.
#[verifier::external_body]
fn uppercase(s: &str) -> (r: String)
    ensures
        r@ == upper_of(s@),
{
    s.to_uppercase()
}

/// The answer an upper-case text stands for: "Q" quits; a letter A-H (column x) and a
/// digit 1-8 (row y) name a cell; anything else is no answer.
pub open spec fn choice_of(u: Seq<char>) -> Option<Choice> {
    if u.len() == 1 && u[0] == 'Q' {
        Some(Choice::Quit)
    } else if u.len() == 2 && 65 <= u[0] as u32 <= 72 && 49 <= u[1] as u32 <= 56 {
        Some(Choice::Move { x: (u[0] as u32 - 65) as u8, y: (u[1] as u32 - 49) as u8 })
    } else {
        None
    }
}

/// Reads an answer already in upper case.
pub fn parse_upper(u: &str) -> (r: Option<Choice>)
    ensures
        r == choice_of(u@),
{
    let n = u.unicode_len();
    if n == 1 && u.get_char(0) == 'Q' {
        return Some(Choice::Quit);
    }
    if n != 2 {
        return None;
    }
    let column = u.get_char(0) as u32;
    let row = u.get_char(1) as u32;
    if column < 65 || column > 72 || row < 49 || row > 56 {
        return None;
    }
    Some(Choice::Move { x: (column - 65) as u8, y: (row - 49) as u8 })
}

/// Reads an answer in any case: "q", "c4" and "C4" are all understood.
pub fn parse_response(s: String) -> (r: Option<Choice>)
    ensures
        r == choice_of(upper_of(s@)),
{
    let upper = uppercase(s.as_str());
    parse_upper(upper.as_str())
}

} // verus!

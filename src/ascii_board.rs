//! Text pictures of a board: a framed grid, and a compact one with a line per row.
use vstd::prelude::*;

use crate::board::{cell, lemma_board_len, Board, Player};

verus! {

broadcast use lemma_board_len;

/// The line drawn above, between and below the rows of the framed grid.
pub const ROW_SEPARATOR: &'static str = "+---+---+---+---+---+---+---+---+\n";

/// The framed text of one cell.
pub open spec fn cell_text(c: Option<Player>) -> Seq<char> {
    match c {
        None => "|   "@,
        Some(Player::Black) => "| X "@,
        Some(Player::White) => "| O "@,
    }
}

/// The framed text of the first `n` cells of row `y`.
pub open spec fn row_text(s: Seq<Option<Player>>, y: int, n: int) -> Seq<char>
    decreases n,
{
    if n <= 0 {
        Seq::empty()
    } else {
        row_text(s, y, n - 1) + cell_text(cell(s, n - 1, y))
    }
}

/// The framed text of the first `n` rows, each with the separator above it.
pub open spec fn rows_text(s: Seq<Option<Player>>, n: int) -> Seq<char>
    decreases n,
{
    if n <= 0 {
        Seq::empty()
    } else {
        rows_text(s, n - 1) + ROW_SEPARATOR@ + row_text(s, n - 1, 8) + "|\n"@
    }
}

/// The framed grid of a board: rows top to bottom (y), cells left to right (x).
pub open spec fn ascii_of(s: Seq<Option<Player>>) -> Seq<char> {
    rows_text(s, 8) + ROW_SEPARATOR@
}

/// The compact text of one cell.
pub open spec fn mark_text(c: Option<Player>) -> Seq<char> {
    match c {
        None => " "@,
        Some(Player::Black) => "X"@,
        Some(Player::White) => "O"@,
    }
}

/// The compact text of the first `n` cells of row `y`.
pub open spec fn marks_text(s: Seq<Option<Player>>, y: int, n: int) -> Seq<char>
    decreases n,
{
    if n <= 0 {
        Seq::empty()
    } else {
        marks_text(s, y, n - 1) + mark_text(cell(s, n - 1, y))
    }
}

/// The compact text of the first `n` rows, each ended by ".\n".
pub open spec fn lines_text(s: Seq<Option<Player>>, n: int) -> Seq<char>
    decreases n,
{
    if n <= 0 {
        Seq::empty()
    } else {
        lines_text(s, n - 1) + marks_text(s, n - 1, 8) + ".\n"@
    }
}

fn cell_to_ascii(piece: Option<Player>) -> (r: &'static str)
    ensures
        r@ == cell_text(piece),
{
    match piece {
        None => "|   ",
        Some(Player::Black) => "| X ",
        Some(Player::White) => "| O ",
    }
}

fn cell_to_mark(piece: Option<Player>) -> (r: &'static str)
    ensures
        r@ == mark_text(piece),
{
    match piece {
        None => " ",
        Some(Player::Black) => "X",
        Some(Player::White) => "O",
    }
}

/// Builds the framed grid of a board.
pub fn board_to_ascii(board: &Board) -> (r: String)
    ensures
        r@ == ascii_of(board@),
{
    let mut ascii = String::new();
    let mut y: u8 = 0;
    while y < 8
        invariant
            y <= 8,
            ascii@ == rows_text(board@, y as int),
        decreases 8 - y,
    {
        ascii.append(ROW_SEPARATOR);
        let ghost head = ascii@;
        let mut x: u8 = 0;
        while x < 8
            invariant
                x <= 8,
                y < 8,
                head == rows_text(board@, y as int) + ROW_SEPARATOR@,
                ascii@ == head + row_text(board@, y as int, x as int),
            decreases 8 - x,
        {
            let piece = match board.get_piece(x, y) {
                Ok(piece) => piece,
                Err(_) => None,
            };
            ascii.append(cell_to_ascii(piece));
            assert(ascii@ =~= head + row_text(board@, y as int, x as int + 1));
            x = x + 1;
        }
        ascii.append("|\n");
        y = y + 1;
    }
    ascii.append(ROW_SEPARATOR);
    ascii
}

impl Board {
    /// A compact picture of the board: a line per row (y), a character per cell (x):
    /// ' ' empty, 'X' Black, 'O' White, each line ended by ".\n".
    pub fn to_text(&self) -> (r: String)
        ensures
            r@ == lines_text(self@, 8),
    {
        let mut text = String::new();
        let mut y: u8 = 0;
        while y < 8
            invariant
                y <= 8,
                text@ == lines_text(self@, y as int),
            decreases 8 - y,
        {
            let ghost head = text@;
            let mut x: u8 = 0;
            while x < 8
                invariant
                    x <= 8,
                    y < 8,
                    head == lines_text(self@, y as int),
                    text@ == head + marks_text(self@, y as int, x as int),
                decreases 8 - x,
            {
                let piece = match self.get_piece(x, y) {
                    Ok(piece) => piece,
                    Err(_) => None,
                };
                text.append(cell_to_mark(piece));
                assert(text@ =~= head + marks_text(self@, y as int, x as int + 1));
                x = x + 1;
            }
            text.append(".\n");
            y = y + 1;
        }
        text
    }
}

} // verus!

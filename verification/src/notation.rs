//! Algebraic square notation: a file letter `a`–`h` followed by a rank digit
//! `1`–`8`, optionally followed by the letter of a promotion role.

use crate::board::{on_board, PieceRole, Square};
use vstd::prelude::*;

verus! {

/// The character of the decimal digit `d`.
pub open spec fn digit_char(d: u8) -> char {
    (d + 48) as u8 as char
}

/// The letter of the file in column `col`: `a` for column 0.
pub open spec fn file_char(col: u8) -> char {
    (col + 97) as u8 as char
}

/// The digit of the rank in row `row`: `8` for row 0.
pub open spec fn rank_char(row: u8) -> char {
    digit_char((8 - row) as u8)
}

/// How a square on the board is written: file letter, then rank digit.
pub open spec fn square_name(sq: Square) -> Seq<char> {
    seq![file_char(sq.col), rank_char(sq.row)]
}

/// The square that a text names by its first two characters, if they are a
/// file letter and a rank digit. What follows them is not looked at.
pub open spec fn named_square(text: Seq<char>) -> Option<Square> {
    if text.len() >= 2 && 'a' <= text[0] <= 'h' && '1' <= text[1] <= '8' {
        Some(
            Square { row: ('8' as u32 - text[1] as u32) as u8, col: (text[0] as u32 - 'a' as u32) as u8 },
        )
    } else {
        None
    }
}

/// The role that a promotion letter stands for, in either case.
pub open spec fn promotion_role(c: char) -> Option<PieceRole> {
    if c == 'q' || c == 'Q' {
        Some(PieceRole::Queen)
    } else if c == 'r' || c == 'R' {
        Some(PieceRole::Rook)
    } else if c == 'n' || c == 'N' {
        Some(PieceRole::Knight)
    } else if c == 'b' || c == 'B' {
        Some(PieceRole::Bishop)
    } else {
        None
    }
}

/// The promotion role that a destination text asks for by its third character.
pub open spec fn named_promotion(text: Seq<char>) -> Option<PieceRole> {
    if text.len() >= 3 {
        promotion_role(text[2])
    } else {
        None
    }
}

/// Writing a square and reading it back gives the square.
pub proof fn lemma_square_name_round_trip(sq: Square)
    requires
        on_board(sq),
    ensures
        named_square(square_name(sq)) == Some(sq),
{
}

/// The square written with the file letter `file` and the rank digit `rank`.
pub fn read_square(file: char, rank: char) -> (r: Option<Square>)
    ensures
        r == named_square(seq![file, rank]),
{
    if 'a' <= file && file <= 'h' && '1' <= rank && rank <= '8' {
        Some(Square { row: (56 - rank as u32) as u8, col: (file as u32 - 97) as u8 })
    } else {
        None
    }
}

/// The role that the promotion letter `c` stands for.
pub fn read_promotion(c: char) -> (r: Option<PieceRole>)
    ensures
        r == promotion_role(c),
{
    if c == 'q' || c == 'Q' {
        Some(PieceRole::Queen)
    } else if c == 'r' || c == 'R' {
        Some(PieceRole::Rook)
    } else if c == 'n' || c == 'N' {
        Some(PieceRole::Knight)
    } else if c == 'b' || c == 'B' {
        Some(PieceRole::Bishop)
    } else {
        None
    }
}

/// Reads the square that `text` names.
pub fn parse_square(text: &str) -> (r: Option<Square>)
    ensures
        r == named_square(text@),
{
    if text.unicode_len() < 2 {
        None
    } else {
        read_square(text.get_char(0), text.get_char(1))
    }
}

/// Reads the promotion role that `text` asks for.
pub fn parse_promotion(text: &str) -> (r: Option<PieceRole>)
    ensures
        r == named_promotion(text@),
{
    if text.unicode_len() < 3 {
        None
    } else {
        read_promotion(text.get_char(2))
    }
}

/// The digit `d` as a text of one character.
pub fn digit_text(d: u8) -> (r: &'static str)
    requires
        d < 10,
    ensures
        r@ == seq![digit_char(d)],
{
    proof {
        reveal_strlit("0");
        reveal_strlit("1");
        reveal_strlit("2");
        reveal_strlit("3");
        reveal_strlit("4");
        reveal_strlit("5");
        reveal_strlit("6");
        reveal_strlit("7");
        reveal_strlit("8");
        reveal_strlit("9");
    }
    let r = match d {
        0 => "0",
        1 => "1",
        2 => "2",
        3 => "3",
        4 => "4",
        5 => "5",
        6 => "6",
        7 => "7",
        8 => "8",
        _ => "9",
    };
    assert(r@ =~= seq![digit_char(d)]);
    r
}

/// The letter of the file in column `col` as a text of one character.
pub fn file_text(col: u8) -> (r: &'static str)
    requires
        col < 8,
    ensures
        r@ == seq![file_char(col)],
{
    proof {
        reveal_strlit("a");
        reveal_strlit("b");
        reveal_strlit("c");
        reveal_strlit("d");
        reveal_strlit("e");
        reveal_strlit("f");
        reveal_strlit("g");
        reveal_strlit("h");
    }
    let r = match col {
        0 => "a",
        1 => "b",
        2 => "c",
        3 => "d",
        4 => "e",
        5 => "f",
        6 => "g",
        _ => "h",
    };
    assert(r@ =~= seq![file_char(col)]);
    r
}

/// Appends the name of `sq` to `out`.
pub fn push_square(out: &mut String, sq: Square)
    requires
        on_board(sq),
    ensures
        final(out)@ == old(out)@ + square_name(sq),
{
    out.append(file_text(sq.col));
    out.append(digit_text(8 - sq.row));
    assert(out@ =~= old(out)@ + square_name(sq));
}

/// Writes a square of the board in algebraic notation.
pub fn square_to_string(sq: Square) -> (s: String)
    requires
        on_board(sq),
    ensures
        s@ == square_name(sq),
{
    let mut s = String::new();
    push_square(&mut s, sq);
    assert(s@ =~= square_name(sq));
    s
}

} // verus!

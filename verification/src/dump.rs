//! A human-readable picture of the grid, for diagnostics: one line per row,
//! each cell as a piece letter or `*`, followed by a space.

use crate::board::{Board, Color, Piece, PieceRole};
use crate::fen::piece_letter;
use crate::game::Game;
use vstd::prelude::*;

verus! {

/// The formatter that `{:?}` hands to `fmt`; nothing is known of what it holds.
#[verifier::external_type_specification]
#[verifier::external_body]
pub struct ExFormatter<'a>(core::fmt::Formatter<'a>);

/// The error that writing to a formatter may give.
#[verifier::external_type_specification]
#[verifier::external_body]
pub struct ExFmtError(core::fmt::Error);

/// The character that pictures a cell: the letter of its piece, upper case
/// for White, or `*` for an empty cell.
pub open spec fn cell_char(cell: Option<Piece>) -> char {
    match cell {
        Some(p) => piece_letter(p.role, p.color),
        None => '*',
    }
}

/// The picture of a row: each cell's character followed by a space.
pub open spec fn row_picture(cells: Seq<Option<Piece>>) -> Seq<char>
    decreases cells.len(),
{
    if cells.len() == 0 {
        Seq::empty()
    } else {
        row_picture(cells.drop_last()) + seq![cell_char(cells.last()), ' ']
    }
}

/// The picture of the rows: each row's picture followed by a line break.
pub open spec fn rows_picture(rows: Seq<Vec<Option<Piece>>>) -> Seq<char>
    decreases rows.len(),
{
    if rows.len() == 0 {
        Seq::empty()
    } else {
        rows_picture(rows.drop_last()) + row_picture(rows.last()@) + seq!['\n']
    }
}

fn cell_text(cell: Option<Piece>) -> (r: &'static str)
    ensures
        r@ == seq![cell_char(cell), ' '],
{
    proof {
        reveal_strlit("* ");
        reveal_strlit("P ");
        reveal_strlit("p ");
        reveal_strlit("R ");
        reveal_strlit("r ");
        reveal_strlit("N ");
        reveal_strlit("n ");
        reveal_strlit("B ");
        reveal_strlit("b ");
        reveal_strlit("Q ");
        reveal_strlit("q ");
        reveal_strlit("K ");
        reveal_strlit("k ");
    }
    let r = match cell {
        None => "* ",
        Some(p) => {
            let white = p.color == Color::White;
            match p.role {
                PieceRole::Pawn => if white {
                    "P "
                } else {
                    "p "
                },
                PieceRole::Rook => if white {
                    "R "
                } else {
                    "r "
                },
                PieceRole::Knight => if white {
                    "N "
                } else {
                    "n "
                },
                PieceRole::Bishop => if white {
                    "B "
                } else {
                    "b "
                },
                PieceRole::Queen => if white {
                    "Q "
                } else {
                    "q "
                },
                PieceRole::King => if white {
                    "K "
                } else {
                    "k "
                },
            }
        },
    };
    assert(r@ =~= seq![cell_char(cell), ' ']);
    r
}

/// Pictures any grid, whatever its shape.
pub fn picture(board: &Board) -> (s: String)
    ensures
        s@ == rows_picture(board@),
{
    let mut s = String::new();
    let mut r: usize = 0;
    proof {
        reveal_strlit("\n");
        assert(board@.take(0) =~= Seq::<Vec<Option<Piece>>>::empty());
    }
    assert("\n"@ =~= seq!['\n']);
    while r < board.len()
        invariant
            r <= board.len(),
            "\n"@ == seq!['\n'],
            s@ == rows_picture(board@.take(r as int)),
        decreases board.len() - r,
    {
        let ghost done = s@;
        let row = &board[r];
        let mut c: usize = 0;
        proof {
            assert(row@.take(0) =~= Seq::<Option<Piece>>::empty());
            assert(s@ =~= done + row_picture(row@.take(0)));
        }
        while c < row.len()
            invariant
                c <= row.len(),
                s@ == done + row_picture(row@.take(c as int)),
            decreases row.len() - c,
        {
            proof {
                assert(row@.take(c + 1).drop_last() =~= row@.take(c as int));
                assert(row@.take(c + 1).last() == row@[c as int]);
            }
            s.append(cell_text(row[c]));
            proof {
                assert(s@ =~= done + row_picture(row@.take(c + 1)));
            }
            c += 1;
        }
        s.append("\n");
        proof {
            assert(row@.take(row@.len() as int) =~= row@);
            assert(board@.take(r + 1).drop_last() =~= board@.take(r as int));
            assert(board@.take(r + 1).last() == board@[r as int]);
            assert(s@ =~= rows_picture(board@.take(r + 1)));
        }
        r += 1;
    }
    proof {
        assert(board@.take(board@.len() as int) =~= board@);
    }
    s
}

impl Game {
    /// The picture of the grid: eight lines of eight cells for a well-formed game.
    pub fn board_text(&self) -> (s: String)
        ensures
            s@ == rows_picture(self.chessboard@),
    {
        picture(&self.chessboard)
    }
}

/// Hands `s` to `core::fmt::Formatter::write_str`, which writes it out or
/// reports an error; nothing is claimed of the outcome.
#[verifier::external_body]
fn write_text(f: &mut core::fmt::Formatter<'_>, s: &str) -> (r: Result<(), core::fmt::Error>) {
    f.write_str(s)
}

impl core::fmt::Debug for Game {
    /// Writes the picture of the grid.
    fn fmt(&self, f: &mut core::fmt::Formatter<'_>) -> (r: Result<(), core::fmt::Error>) {
        let s = self.board_text();
        write_text(f, s.as_str())
    }
}

} // verus!

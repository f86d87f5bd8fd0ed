//! Position descriptions in Forsyth–Edwards notation: six fields separated by
//! single spaces, namely piece placement, side to move, castling rights, en
//! passant square, halfmove clock and fullmove number.

use crate::board::{
    at, board_wf, lemma_placement_ext, on_board, piece_at, placement, Board, ChessError, Color,
    GameState, Piece, PieceRole, Square,
};
use crate::check::{has_sole_king, king_attacked, sole_king};
use crate::game::{status, Game};
use crate::legal::{castling_right, corner, has_legal_move, home_square};
use crate::notation::{
    digit_char, digit_text, named_square, push_square, read_square, square_name,
};
use crate::text::{
    chars_of, decimal, digit_value, is_digit, parsed_u64, push_decimal, read_u64, split,
    split_chars, texts,
};
use vstd::prelude::*;

verus! {

/// The letter of a piece: upper case for White, lower case for Black.
pub open spec fn piece_letter(role: PieceRole, color: Color) -> char {
    match role {
        PieceRole::Pawn => if color == Color::White {
            'P'
        } else {
            'p'
        },
        PieceRole::Rook => if color == Color::White {
            'R'
        } else {
            'r'
        },
        PieceRole::Knight => if color == Color::White {
            'N'
        } else {
            'n'
        },
        PieceRole::Bishop => if color == Color::White {
            'B'
        } else {
            'b'
        },
        PieceRole::Queen => if color == Color::White {
            'Q'
        } else {
            'q'
        },
        PieceRole::King => if color == Color::White {
            'K'
        } else {
            'k'
        },
    }
}

/// The role and colour that a piece letter stands for.
pub open spec fn letter_kind(c: char) -> Option<(PieceRole, Color)> {
    if c == 'P' {
        Some((PieceRole::Pawn, Color::White))
    } else if c == 'p' {
        Some((PieceRole::Pawn, Color::Black))
    } else if c == 'R' {
        Some((PieceRole::Rook, Color::White))
    } else if c == 'r' {
        Some((PieceRole::Rook, Color::Black))
    } else if c == 'N' {
        Some((PieceRole::Knight, Color::White))
    } else if c == 'n' {
        Some((PieceRole::Knight, Color::Black))
    } else if c == 'B' {
        Some((PieceRole::Bishop, Color::White))
    } else if c == 'b' {
        Some((PieceRole::Bishop, Color::Black))
    } else if c == 'Q' {
        Some((PieceRole::Queen, Color::White))
    } else if c == 'q' {
        Some((PieceRole::Queen, Color::Black))
    } else if c == 'K' {
        Some((PieceRole::King, Color::White))
    } else if c == 'k' {
        Some((PieceRole::King, Color::Black))
    } else {
        None
    }
}

/// The cells that one character of a rank stands for: a digit for that many
/// empty cells, a piece letter for one occupied cell.
pub open spec fn token_cells(c: char) -> Option<Seq<Option<(PieceRole, Color)>>> {
    if is_digit(c) {
        Some(Seq::new(digit_value(c), |i: int| None))
    } else {
        match letter_kind(c) {
            Some(k) => Some(seq![Some(k)]),
            None => None,
        }
    }
}

/// The cells that the text of a rank stands for, from file `a` on; `None` if
/// a character is neither a digit nor a piece letter.
pub open spec fn rank_cells(text: Seq<char>) -> Option<Seq<Option<(PieceRole, Color)>>>
    decreases text.len(),
{
    if text.len() == 0 {
        Some(Seq::empty())
    } else {
        match (rank_cells(text.drop_last()), token_cells(text.last())) {
            (Some(a), Some(b)) => Some(a + b),
            _ => None,
        }
    }
}

/// The placement field is valid: eight ranks between `/`, each standing for
/// exactly eight cells.
pub open spec fn placement_valid(text: Seq<char>) -> bool {
    let ranks = split(text, '/');
    &&& ranks.len() == 8
    &&& forall|r: int|
        0 <= r < 8 ==> ((#[trigger] rank_cells(ranks[r])) matches Some(cells) && cells.len() == 8)
}

/// Role and colour of what a valid placement field puts on `sq`.
pub open spec fn kind_at(text: Seq<char>, sq: Square) -> Option<(PieceRole, Color)> {
    if on_board(sq) {
        rank_cells(split(text, '/')[sq.row as int])->0[sq.col as int]
    } else {
        None
    }
}

/// The castling rights that a description claims.
pub struct Rights {
    pub white_kingside: bool,
    pub white_queenside: bool,
    pub black_kingside: bool,
    pub black_queenside: bool,
}

impl Rights {
    /// Whether the right of side `c` to castle on the given wing is claimed.
    pub open spec fn claims(self, c: Color, kingside: bool) -> bool {
        match c {
            Color::White => if kingside {
                self.white_kingside
            } else {
                self.white_queenside
            },
            Color::Black => if kingside {
                self.black_kingside
            } else {
                self.black_queenside
            },
        }
    }
}

pub open spec fn is_right_letter(c: char) -> bool {
    c == 'K' || c == 'Q' || c == 'k' || c == 'q'
}

/// The castling field is valid: a lone `-`, or one or more of the letters
/// `K`, `Q`, `k`, `q` in any order.
pub open spec fn rights_valid(field: Seq<char>) -> bool {
    field == seq!['-'] || (field.len() > 0 && forall|i: int|
        0 <= i < field.len() ==> is_right_letter(#[trigger] field[i]))
}

/// The rights that a castling field claims: `K` and `Q` for White's king side
/// and queen side, `k` and `q` for Black's.
pub open spec fn rights_of(field: Seq<char>) -> Rights {
    Rights {
        white_kingside: field.contains('K'),
        white_queenside: field.contains('Q'),
        black_kingside: field.contains('k'),
        black_queenside: field.contains('q'),
    }
}

/// A claimed right is backed by the placement: the king and the rook of that
/// wing stand on their starting squares.
pub open spec fn backed(text: Seq<char>, rights: Rights, c: Color, kingside: bool) -> bool {
    rights.claims(c, kingside) ==> kind_at(text, home_square(c)) == Some((PieceRole::King, c))
        && kind_at(text, corner(c, kingside)) == Some((PieceRole::Rook, c))
}

/// Whether a described piece counts as not yet moved: a pawn on the rank
/// where its side's pawns start, a king on its starting square with a right
/// claimed on either wing, a rook in its corner with the right of that wing
/// claimed. Every other piece counts as moved.
pub open spec fn unmoved(role: PieceRole, color: Color, sq: Square, rights: Rights) -> bool {
    match role {
        PieceRole::Pawn => sq.row == color.pawn_row(),
        PieceRole::King => sq == home_square(color) && (rights.claims(color, true)
            || rights.claims(color, false)),
        PieceRole::Rook => (sq == corner(color, true) && rights.claims(color, true)) || (sq
            == corner(color, false) && rights.claims(color, false)),
        _ => false,
    }
}

/// The piece of the given role and colour as a description puts it on `sq`.
pub open spec fn described_piece(kind: (PieceRole, Color), sq: Square, rights: Rights) -> Piece {
    Piece { role: kind.0, color: kind.1, has_moved: !unmoved(kind.0, kind.1, sq, rights) }
}

/// What a description with the given placement field and rights puts on `sq`.
pub open spec fn described_cell(text: Seq<char>, rights: Rights, sq: Square) -> Option<Piece> {
    match kind_at(text, sq) {
        Some(kind) => Some(described_piece(kind, sq, rights)),
        None => None,
    }
}

/// The position that a description with the given placement field and rights
/// sets up.
pub open spec fn described_position(text: Seq<char>, rights: Rights) -> Map<Square, Piece> {
    Map::new(
        |sq: Square| described_cell(text, rights, sq) is Some,
        |sq: Square| described_cell(text, rights, sq)->0,
    )
}

/// The side that the second field names: `w` or `b`.
pub open spec fn turn_of(field: Seq<char>) -> Option<Color> {
    if field == seq!['w'] {
        Some(Color::White)
    } else if field == seq!['b'] {
        Some(Color::Black)
    } else {
        None
    }
}

/// The en passant square that the fourth field names: none for `-`, else the
/// square written in exactly two characters. The outer `None` stands for a
/// field that is neither.
pub open spec fn ep_of(field: Seq<char>) -> Option<Option<Square>> {
    if field == seq!['-'] {
        Some(None)
    } else if field.len() == 2 && named_square(field) is Some {
        Some(named_square(field))
    } else {
        None
    }
}

/// `text` is a well-formed position description: six fields between single
/// spaces, of which
/// - the first is a valid placement with exactly one king of each colour,
/// - the second is `w` or `b`,
/// - the third is a valid castling field whose claims the placement backs,
/// - the fourth is `-` or a square,
/// - the fifth is a decimal number that fits 64 bits, and
/// - the sixth is such a number and at least 1.
pub open spec fn well_formed(text: Seq<char>) -> bool {
    let f = split(text, ' ');
    &&& f.len() == 6
    &&& placement_valid(f[0])
    &&& sole_king(described_position(f[0], rights_of(f[2])), Color::White)
    &&& sole_king(described_position(f[0], rights_of(f[2])), Color::Black)
    &&& turn_of(f[1]) is Some
    &&& rights_valid(f[2])
    &&& backed(f[0], rights_of(f[2]), Color::White, true)
    &&& backed(f[0], rights_of(f[2]), Color::White, false)
    &&& backed(f[0], rights_of(f[2]), Color::Black, true)
    &&& backed(f[0], rights_of(f[2]), Color::Black, false)
    &&& ep_of(f[3]) is Some
    &&& parsed_u64(f[4]) is Some
    &&& parsed_u64(f[5]) matches Some(n) && n >= 1
}

/// The game `g` holds what the well-formed description `text` says: every
/// square, the side to move, the en passant square and both clocks, with the
/// status of that position.
pub open spec fn describes(text: Seq<char>, g: &Game) -> bool {
    let f = split(text, ' ');
    &&& g.wf()
    &&& g.position() == described_position(f[0], rights_of(f[2]))
    &&& g.turn == turn_of(f[1])->0
    &&& g.ep_square == ep_of(f[3])->0
    &&& g.halfmove == parsed_u64(f[4])->0
    &&& g.fullmove == parsed_u64(f[5])->0
    &&& g.state == status(g.position(), g.ep_square, g.turn)
}

/// How a run of `run` empty cells is written: not at all if there is none,
/// else as its digit.
pub open spec fn run_text(run: nat) -> Seq<char> {
    if run == 0 {
        Seq::empty()
    } else {
        seq![digit_char(run as u8)]
    }
}

/// How the cells of row `row` from column `col` on are written, after `run`
/// empty cells not yet written: each piece as its letter, each longest run of
/// empty cells as its digit.
pub open spec fn rank_text(b: Map<Square, Piece>, row: u8, col: u8, run: nat) -> Seq<char>
    decreases 8 - col,
{
    if col >= 8 {
        run_text(run)
    } else {
        match at(b, Square { row, col }) {
            None => rank_text(b, row, (col + 1) as u8, run + 1),
            Some(p) => run_text(run) + seq![piece_letter(p.role, p.color)] + rank_text(
                b,
                row,
                (col + 1) as u8,
                0,
            ),
        }
    }
}

/// How the rows from `row` on are written: rank by rank with `/` between.
pub open spec fn ranks_text(b: Map<Square, Piece>, row: u8) -> Seq<char>
    decreases 8 - row,
{
    if row >= 7 {
        rank_text(b, row, 0, 0)
    } else {
        rank_text(b, row, 0, 0) + seq!['/'] + ranks_text(b, (row + 1) as u8)
    }
}

/// The letter of a right if the side still has it, else nothing.
pub open spec fn right_text(b: Map<Square, Piece>, c: Color, kingside: bool, letter: char) -> Seq<
    char,
> {
    if castling_right(b, c, kingside) {
        seq![letter]
    } else {
        Seq::empty()
    }
}

/// How the castling rights of a position are written: the letters of the
/// rights that remain, in the order `KQkq`, or `-` if none remains.
pub open spec fn rights_text(b: Map<Square, Piece>) -> Seq<char> {
    let s = right_text(b, Color::White, true, 'K') + right_text(b, Color::White, false, 'Q')
        + right_text(b, Color::Black, true, 'k') + right_text(b, Color::Black, false, 'q');
    if s.len() == 0 {
        seq!['-']
    } else {
        s
    }
}

pub open spec fn turn_text(c: Color) -> Seq<char> {
    match c {
        Color::White => seq!['w'],
        Color::Black => seq!['b'],
    }
}

pub open spec fn ep_text(ep: Option<Square>) -> Seq<char> {
    match ep {
        Some(sq) => square_name(sq),
        None => seq!['-'],
    }
}

/// The description of a game.
pub open spec fn fen_text(g: &Game) -> Seq<char> {
    ranks_text(g.position(), 0) + seq![' '] + turn_text(g.turn) + seq![' '] + rights_text(
        g.position(),
    ) + seq![' '] + ep_text(g.ep_square) + seq![' '] + decimal(g.halfmove as nat) + seq![' ']
        + decimal(g.fullmove as nat)
}

/// If a rank text stands for cells, so does each of its beginnings, and for
/// no more cells.
pub proof fn lemma_rank_cells_prefix(text: Seq<char>, i: int)
    requires
        0 <= i <= text.len(),
        rank_cells(text) is Some,
    ensures
        rank_cells(text.take(i)) is Some,
        rank_cells(text.take(i))->0.len() <= rank_cells(text)->0.len(),
    decreases text.len() - i,
{
    if i < text.len() {
        lemma_rank_cells_prefix(text, i + 1);
        assert(text.take(i + 1).drop_last() =~= text.take(i));
    } else {
        assert(text.take(i) =~= text);
    }
}

fn read_kind(c: char) -> (r: Option<(PieceRole, Color)>)
    ensures
        r == letter_kind(c),
{
    if c == 'P' {
        Some((PieceRole::Pawn, Color::White))
    } else if c == 'p' {
        Some((PieceRole::Pawn, Color::Black))
    } else if c == 'R' {
        Some((PieceRole::Rook, Color::White))
    } else if c == 'r' {
        Some((PieceRole::Rook, Color::Black))
    } else if c == 'N' {
        Some((PieceRole::Knight, Color::White))
    } else if c == 'n' {
        Some((PieceRole::Knight, Color::Black))
    } else if c == 'B' {
        Some((PieceRole::Bishop, Color::White))
    } else if c == 'b' {
        Some((PieceRole::Bishop, Color::Black))
    } else if c == 'Q' {
        Some((PieceRole::Queen, Color::White))
    } else if c == 'q' {
        Some((PieceRole::Queen, Color::Black))
    } else if c == 'K' {
        Some((PieceRole::King, Color::White))
    } else if c == 'k' {
        Some((PieceRole::King, Color::Black))
    } else {
        None
    }
}

fn is_unmoved(role: PieceRole, color: Color, sq: Square, rights: &Rights) -> (r: bool)
    ensures
        r == unmoved(role, color, sq, *rights),
{
    let kingside = match color {
        Color::White => rights.white_kingside,
        Color::Black => rights.black_kingside,
    };
    let queenside = match color {
        Color::White => rights.white_queenside,
        Color::Black => rights.black_queenside,
    };
    match role {
        PieceRole::Pawn => sq.row == color.pawn_row(),
        PieceRole::King => sq.row == color.home_row() && sq.col == 4 && (kingside || queenside),
        PieceRole::Rook => sq.row == color.home_row() && ((sq.col == 7 && kingside) || (sq.col == 0
            && queenside)),
        _ => false,
    }
}

/// The cells of row `row` as a description with these rights fills them from
/// what the rank text stands for.
pub open spec fn row_matches(
    v: Seq<Option<Piece>>,
    cells: Seq<Option<(PieceRole, Color)>>,
    row: u8,
    rights: Rights,
) -> bool {
    &&& v.len() == cells.len()
    &&& forall|c: int|
        0 <= c < v.len() ==> #[trigger] v[c] == match cells[c] {
            Some(kind) => Some(described_piece(kind, Square { row, col: c as u8 }, rights)),
            None => None,
        }
}

fn read_rank(text: &Vec<char>, row: u8, rights: &Rights) -> (r: Option<Vec<Option<Piece>>>)
    requires
        row < 8,
    ensures
        match r {
            Some(v) => rank_cells(text@) matches Some(cells) && cells.len() == 8 && row_matches(
                v@,
                cells,
                row,
                *rights,
            ),
            None => !(rank_cells(text@) matches Some(cells) && cells.len() == 8),
        },
{
    let mut v: Vec<Option<Piece>> = Vec::new();
    let mut i: usize = 0;
    assert(text@.take(0) =~= Seq::<char>::empty());
    while i < text.len()
        invariant
            i <= text.len(),
            row < 8,
            v@.len() <= 8,
            rank_cells(text@.take(i as int)) is Some,
            row_matches(v@, rank_cells(text@.take(i as int))->0, row, *rights),
        decreases text.len() - i,
    {
        let c = text[i];
        let ghost before = rank_cells(text@.take(i as int))->0;
        proof {
            assert(text@.take(i + 1).drop_last() =~= text@.take(i as int));
            assert(text@.take(i + 1).last() == c);
            if rank_cells(text@) is Some {
                lemma_rank_cells_prefix(text@, i + 1);
            }
        }
        if '0' <= c && c <= '9' {
            let d: usize = (c as u32 - 48) as usize;
            if v.len() + d > 8 {
                return None;
            }
            let mut k: usize = 0;
            let ghost start = v@;
            while k < d
                invariant
                    k <= d,
                    start.len() + d <= 8,
                    v@.len() == start.len() + k,
                    forall|j: int| 0 <= j < start.len() ==> v@[j] == start[j],
                    forall|j: int| start.len() <= j < v@.len() ==> v@[j] is None,
                decreases d - k,
            {
                v.push(None);
                k += 1;
            }
            proof {
                let after = rank_cells(text@.take(i + 1))->0;
                assert(after =~= before + token_cells(c)->0);
                assert forall|j: int| 0 <= j < v@.len() implies #[trigger] v@[j] == match after[j] {
                    Some(kind) => Some(
                        described_piece(kind, Square { row, col: j as u8 }, *rights),
                    ),
                    None => None,
                } by {
                    if j < start.len() {
                        assert(v@[j] == start[j]);
                        assert(after[j] == before[j]);
                    } else {
                        assert(after[j] == (token_cells(c)->0)[j - before.len()]);
                    }
                }
            }
        } else {
            match read_kind(c) {
                None => {
                    return None;
                },
                Some(kind) => {
                    if v.len() >= 8 {
                        return None;
                    }
                    let col: u8 = v.len() as u8;
                    let sq = Square { row, col };
                    let ghost start = v@;
                    v.push(Some(Piece::new(kind.0, kind.1, !is_unmoved(kind.0, kind.1, sq, rights))));
                    proof {
                        let after = rank_cells(text@.take(i + 1))->0;
                        assert(after =~= before + seq![Some(kind)]);
                        assert forall|j: int| 0 <= j < v@.len() implies #[trigger] v@[j]
                            == match after[j] {
                            Some(kind) => Some(
                                described_piece(kind, Square { row, col: j as u8 }, *rights),
                            ),
                            None => None,
                        } by {
                            if j < start.len() {
                                assert(v@[j] == start[j]);
                                assert(after[j] == before[j]);
                            }
                        }
                    }
                },
            }
        }
        i += 1;
    }
    proof {
        assert(text@.take(text@.len() as int) =~= text@);
    }
    if v.len() == 8 {
        Some(v)
    } else {
        None
    }
}

fn read_placement(text: &Vec<char>, rights: &Rights) -> (r: Option<Board>)
    ensures
        match r {
            Some(b) => placement_valid(text@) && board_wf(&b) && forall|sq: Square| #[trigger]
                at(placement(&b), sq) == described_cell(text@, *rights, sq),
            None => !placement_valid(text@),
        },
{
    let ranks = split_chars(text, '/');
    if ranks.len() != 8 {
        return None;
    }
    let mut b: Board = Vec::new();
    let mut row: u8 = 0;
    while row < 8
        invariant
            row <= 8,
            ranks@.len() == 8,
            texts(&ranks) == split(text@, '/'),
            b@.len() == row,
            forall|r: int|
                0 <= r < row ==> ((#[trigger] rank_cells(split(text@, '/')[r])) matches Some(cells)
                    && cells.len() == 8 && row_matches(b@[r]@, cells, r as u8, *rights)),
        decreases 8 - row,
    {
        assert(texts(&ranks)[row as int] == ranks@[row as int]@);
        match read_rank(&ranks[row as usize], row, rights) {
            None => {
                return None;
            },
            Some(v) => {
                b.push(v);
            },
        }
        row += 1;
    }
    proof {
        assert forall|r: int| 0 <= r < 8 implies (#[trigger] b@[r])@.len() == 8 by {
            let cells = rank_cells(split(text@, '/')[r])->0;
            assert(row_matches(b@[r]@, cells, r as u8, *rights));
        }
        assert forall|sq: Square| #[trigger]
            at(placement(&b), sq) == described_cell(text@, *rights, sq) by {
            if on_board(sq) {
                let cells = rank_cells(split(text@, '/')[sq.row as int])->0;
                assert(row_matches(b@[sq.row as int]@, cells, sq.row, *rights));
                assert(b@[sq.row as int]@[sq.col as int] == match cells[sq.col as int] {
                    Some(kind) => Some(
                        described_piece(kind, Square { row: sq.row, col: sq.col }, *rights),
                    ),
                    None => None,
                });
            }
        }
    }
    Some(b)
}

fn has_char(s: &Vec<char>, c: char) -> (r: bool)
    ensures
        r == s@.contains(c),
{
    let mut i: usize = 0;
    while i < s.len()
        invariant
            i <= s.len(),
            forall|j: int| 0 <= j < i ==> s@[j] != c,
        decreases s.len() - i,
    {
        if s[i] == c {
            return true;
        }
        i += 1;
    }
    false
}

fn is_text(s: &Vec<char>, c: char) -> (r: bool)
    ensures
        r == (s@ == seq![c]),
{
    let r = s.len() == 1 && s[0] == c;
    assert(r == (s@ =~= seq![c]));
    r
}

fn read_rights(field: &Vec<char>) -> (r: Option<Rights>)
    ensures
        match r {
            Some(rights) => rights_valid(field@) && rights == rights_of(field@),
            None => !rights_valid(field@),
        },
{
    if !is_text(field, '-') {
        if field.len() == 0 {
            return None;
        }
        let mut i: usize = 0;
        while i < field.len()
            invariant
                i <= field.len(),
                field@ != seq!['-'],
                forall|j: int| 0 <= j < i ==> is_right_letter(#[trigger] field@[j]),
            decreases field.len() - i,
        {
            let c = field[i];
            if !(c == 'K' || c == 'Q' || c == 'k' || c == 'q') {
                return None;
            }
            i += 1;
        }
    }
    Some(
        Rights {
            white_kingside: has_char(field, 'K'),
            white_queenside: has_char(field, 'Q'),
            black_kingside: has_char(field, 'k'),
            black_queenside: has_char(field, 'q'),
        },
    )
}

fn holds(b: &Board, sq: Square, role: PieceRole, color: Color) -> (r: bool)
    requires
        board_wf(b),
    ensures
        r == (at(placement(b), sq) matches Some(p) && p.role == role && p.color == color),
{
    match piece_at(b, sq) {
        Some(p) => p.role == role && p.color == color,
        None => false,
    }
}

fn is_backed(b: &Board, claimed: bool, c: Color, kingside: bool) -> (r: bool)
    requires
        board_wf(b),
    ensures
        r == (claimed ==> (at(placement(b), home_square(c)) matches Some(p) && p.role
            == PieceRole::King && p.color == c) && (at(placement(b), corner(c, kingside)) matches Some(
            p,
        ) && p.role == PieceRole::Rook && p.color == c)),
{
    if !claimed {
        return true;
    }
    let rook_col: u8 = if kingside {
        7
    } else {
        0
    };
    holds(b, Square { row: c.home_row(), col: 4 }, PieceRole::King, c) && holds(
        b,
        Square { row: c.home_row(), col: rook_col },
        PieceRole::Rook,
        c,
    )
}

fn read_turn(field: &Vec<char>) -> (r: Option<Color>)
    ensures
        r == turn_of(field@),
{
    if is_text(field, 'w') {
        Some(Color::White)
    } else if is_text(field, 'b') {
        Some(Color::Black)
    } else {
        None
    }
}

fn read_ep(field: &Vec<char>) -> (r: Option<Option<Square>>)
    ensures
        r == ep_of(field@),
{
    if is_text(field, '-') {
        Some(None)
    } else if field.len() == 2 {
        match read_square(field[0], field[1]) {
            Some(sq) => Some(Some(sq)),
            None => None,
        }
    } else {
        None
    }
}

fn has_right(b: &Board, c: Color, kingside: bool) -> (r: bool)
    requires
        board_wf(b),
    ensures
        r == castling_right(placement(b), c, kingside),
{
    let rook_col: u8 = if kingside {
        7
    } else {
        0
    };
    let king = match piece_at(b, Square { row: c.home_row(), col: 4 }) {
        Some(p) => p.role == PieceRole::King && p.color == c && !p.has_moved,
        None => false,
    };
    let rook = match piece_at(b, Square { row: c.home_row(), col: rook_col }) {
        Some(p) => p.role == PieceRole::Rook && p.color == c && !p.has_moved,
        None => false,
    };
    king && rook
}

fn letter_text(role: PieceRole, color: Color) -> (r: &'static str)
    ensures
        r@ == seq![piece_letter(role, color)],
{
    proof {
        reveal_strlit("P");
        reveal_strlit("p");
        reveal_strlit("R");
        reveal_strlit("r");
        reveal_strlit("N");
        reveal_strlit("n");
        reveal_strlit("B");
        reveal_strlit("b");
        reveal_strlit("Q");
        reveal_strlit("q");
        reveal_strlit("K");
        reveal_strlit("k");
    }
    let white = color == Color::White;
    let r = match role {
        PieceRole::Pawn => if white {
            "P"
        } else {
            "p"
        },
        PieceRole::Rook => if white {
            "R"
        } else {
            "r"
        },
        PieceRole::Knight => if white {
            "N"
        } else {
            "n"
        },
        PieceRole::Bishop => if white {
            "B"
        } else {
            "b"
        },
        PieceRole::Queen => if white {
            "Q"
        } else {
            "q"
        },
        PieceRole::King => if white {
            "K"
        } else {
            "k"
        },
    };
    assert(r@ =~= seq![piece_letter(role, color)]);
    r
}

fn push_run(out: &mut String, run: u8)
    requires
        run <= 8,
    ensures
        final(out)@ == old(out)@ + run_text(run as nat),
{
    if run > 0 {
        out.append(digit_text(run));
    }
    assert(out@ =~= old(out)@ + run_text(run as nat));
}

fn push_rank(out: &mut String, b: &Board, row: u8)
    requires
        board_wf(b),
        row < 8,
    ensures
        final(out)@ == old(out)@ + rank_text(placement(b), row, 0, 0),
{
    let mut col: u8 = 0;
    let mut run: u8 = 0;
    assert(out@ + rank_text(placement(b), row, 0, 0) =~= old(out)@ + rank_text(
        placement(b),
        row,
        0,
        0,
    ));
    while col < 8
        invariant
            col <= 8,
            run <= col,
            row < 8,
            board_wf(b),
            out@ + rank_text(placement(b), row, col, run as nat) == old(out)@ + rank_text(
                placement(b),
                row,
                0,
                0,
            ),
        decreases 8 - col,
    {
        let ghost before = out@;
        let ghost rest = rank_text(placement(b), row, (col + 1) as u8, 0);
        match piece_at(b, Square { row, col }) {
            None => {
                run += 1;
            },
            Some(p) => {
                push_run(out, run);
                out.append(letter_text(p.role, p.color));
                proof {
                    assert(out@ + rest =~= before + (run_text(run as nat) + seq![
                        piece_letter(p.role, p.color),
                    ] + rest));
                }
                run = 0;
            },
        }
        col += 1;
    }
    push_run(out, run);
}

fn push_placement(out: &mut String, b: &Board)
    requires
        board_wf(b),
    ensures
        final(out)@ == old(out)@ + ranks_text(placement(b), 0),
{
    let mut row: u8 = 0;
    proof {
        reveal_strlit("/");
    }
    while row < 7
        invariant
            row <= 7,
            board_wf(b),
            "/"@ == seq!['/'],
            out@ + ranks_text(placement(b), row) == old(out)@ + ranks_text(placement(b), 0),
        decreases 7 - row,
    {
        let ghost before = out@;
        push_rank(out, b, row);
        out.append("/");
        proof {
            assert(out@ + ranks_text(placement(b), (row + 1) as u8) =~= before + (rank_text(
                placement(b),
                row,
                0,
                0,
            ) + seq!['/'] + ranks_text(placement(b), (row + 1) as u8)));
        }
        row += 1;
    }
    push_rank(out, b, 7);
}

fn push_right(out: &mut String, b: &Board, c: Color, kingside: bool, letter: &'static str)
    requires
        board_wf(b),
        letter@.len() == 1,
    ensures
        final(out)@ == old(out)@ + right_text(placement(b), c, kingside, letter@[0]),
{
    if has_right(b, c, kingside) {
        out.append(letter);
        assert(letter@ =~= seq![letter@[0]]);
    }
    assert(out@ =~= old(out)@ + right_text(placement(b), c, kingside, letter@[0]));
}

impl Game {
    /// The description of the game in Forsyth–Edwards notation. The castling
    /// field is derived from where kings and rooks stand and whether they have
    /// moved.
    pub fn get_fen(&self) -> (s: String)
        requires
            self.wf(),
        ensures
            s@ == fen_text(self),
    {
        let mut s = String::new();
        proof {
            reveal_strlit(" ");
            reveal_strlit("w");
            reveal_strlit("b");
            reveal_strlit("-");
            reveal_strlit("K");
            reveal_strlit("Q");
            reveal_strlit("k");
            reveal_strlit("q");
        }
        assert(" "@ =~= seq![' ']);
        assert("-"@ =~= seq!['-']);
        push_placement(&mut s, &self.chessboard);
        let ghost t1 = s@;
        assert(t1 =~= ranks_text(self.position(), 0));
        s.append(" ");
        match self.turn {
            Color::White => {
                s.append("w");
            },
            Color::Black => {
                s.append("b");
            },
        }
        s.append(" ");
        let ghost t2 = s@;
        assert(t2 =~= t1 + seq![' '] + turn_text(self.turn) + seq![' ']);
        let mut rights = String::new();
        push_right(&mut rights, &self.chessboard, Color::White, true, "K");
        push_right(&mut rights, &self.chessboard, Color::White, false, "Q");
        push_right(&mut rights, &self.chessboard, Color::Black, true, "k");
        push_right(&mut rights, &self.chessboard, Color::Black, false, "q");
        assert(rights@ =~= right_text(self.position(), Color::White, true, 'K') + right_text(
            self.position(),
            Color::White,
            false,
            'Q',
        ) + right_text(self.position(), Color::Black, true, 'k') + right_text(
            self.position(),
            Color::Black,
            false,
            'q',
        ));
        if rights.as_str().unicode_len() == 0 {
            s.append("-");
        } else {
            s.append(rights.as_str());
        }
        s.append(" ");
        let ghost t3 = s@;
        assert(t3 =~= t2 + rights_text(self.position()) + seq![' ']);
        match self.ep_square {
            Some(sq) => {
                push_square(&mut s, sq);
            },
            None => {
                s.append("-");
            },
        }
        s.append(" ");
        let ghost t4 = s@;
        assert(t4 =~= t3 + ep_text(self.ep_square) + seq![' ']);
        push_decimal(&mut s, self.halfmove);
        s.append(" ");
        push_decimal(&mut s, self.fullmove);
        assert(s@ =~= fen_text(self));
        s
    }

    /// Replaces the game by the one that `fen_string` describes, with the
    /// status of the described position: checkmate or stalemate if the side to
    /// move has no legal move, else check or in progress. A description that is
    /// not well formed is rejected and changes nothing.
    pub fn load_fen(&mut self, fen_string: String) -> (res: Result<(), ChessError>)
        ensures
            well_formed(fen_string@) ==> res is Ok && describes(fen_string@, final(self)),
            !well_formed(fen_string@) ==> res == Err::<(), ChessError>(
                ChessError::MalformedPositionDescription,
            ) && *final(self) == *old(self),
    {
        let text = chars_of(fen_string.as_str());
        let fields = split_chars(&text, ' ');
        if fields.len() != 6 {
            return Err(ChessError::MalformedPositionDescription);
        }
        proof {
            assert(texts(&fields)[0] == fields@[0]@);
            assert(texts(&fields)[1] == fields@[1]@);
            assert(texts(&fields)[2] == fields@[2]@);
            assert(texts(&fields)[3] == fields@[3]@);
            assert(texts(&fields)[4] == fields@[4]@);
            assert(texts(&fields)[5] == fields@[5]@);
        }
        let rights = match read_rights(&fields[2]) {
            Some(r) => r,
            None => {
                return Err(ChessError::MalformedPositionDescription);
            },
        };
        let board = match read_placement(&fields[0], &rights) {
            Some(b) => b,
            None => {
                return Err(ChessError::MalformedPositionDescription);
            },
        };
        proof {
            lemma_placement_ext(&board, described_position(fields@[0]@, rights));
        }
        if !has_sole_king(&board, Color::White) || !has_sole_king(&board, Color::Black) {
            return Err(ChessError::MalformedPositionDescription);
        }
        proof {
            let f0 = fields@[0]@;
            assert forall|c: Color, kingside: bool|
                #![trigger backed(f0, rights, c, kingside)]
                backed(f0, rights, c, kingside) == (rights.claims(c, kingside) ==> (at(
                    placement(&board),
                    home_square(c),
                ) matches Some(p) && p.role == PieceRole::King && p.color == c) && (at(
                    placement(&board),
                    corner(c, kingside),
                ) matches Some(p) && p.role == PieceRole::Rook && p.color == c)) by {
                assert(at(placement(&board), home_square(c)) == described_cell(
                    f0,
                    rights,
                    home_square(c),
                ));
                assert(at(placement(&board), corner(c, kingside)) == described_cell(
                    f0,
                    rights,
                    corner(c, kingside),
                ));
            }
        }
        if !is_backed(&board, rights.white_kingside, Color::White, true) || !is_backed(
            &board,
            rights.white_queenside,
            Color::White,
            false,
        ) || !is_backed(&board, rights.black_kingside, Color::Black, true) || !is_backed(
            &board,
            rights.black_queenside,
            Color::Black,
            false,
        ) {
            return Err(ChessError::MalformedPositionDescription);
        }
        let turn = match read_turn(&fields[1]) {
            Some(c) => c,
            None => {
                return Err(ChessError::MalformedPositionDescription);
            },
        };
        let ep = match read_ep(&fields[3]) {
            Some(e) => e,
            None => {
                return Err(ChessError::MalformedPositionDescription);
            },
        };
        let halfmove = match read_u64(&fields[4]) {
            Some(n) => n,
            None => {
                return Err(ChessError::MalformedPositionDescription);
            },
        };
        let fullmove = match read_u64(&fields[5]) {
            Some(n) => n,
            None => {
                return Err(ChessError::MalformedPositionDescription);
            },
        };
        if fullmove == 0 {
            return Err(ChessError::MalformedPositionDescription);
        }
        let check = king_attacked(&board, turn);
        let any = has_legal_move(&board, ep, turn);
        self.state = if any {
            if check {
                GameState::Check
            } else {
                GameState::InProgress
            }
        } else {
            if check {
                GameState::Checkmate
            } else {
                GameState::Stalemate
            }
        };
        self.chessboard = board;
        self.turn = turn;
        self.ep_square = ep;
        self.halfmove = halfmove;
        self.fullmove = fullmove;
        Ok(())
    }
}

} // verus!

//! The data model: colours, roles, pieces, squares and the 8×8 grid, together
//! with the mathematical view of a grid as a map from squares to pieces.

use vstd::prelude::*;

verus! {

/// Status of a game. `Checkmate` and `Stalemate` are terminal.
#[derive(Clone, Copy, Debug, PartialEq, Eq, Structural, Hash)]
pub enum GameState {
    InProgress,
    Check,
    Checkmate,
    Stalemate,
}

#[derive(Clone, Copy, Debug, PartialEq, Eq, Structural, Hash)]
pub enum PieceRole {
    Pawn,
    Rook,
    Knight,
    Bishop,
    Queen,
    King,
}

#[derive(Clone, Copy, Debug, PartialEq, Eq, Structural, Hash)]
pub enum Color {
    White,
    Black,
}

/// Why a request was rejected. A rejected request leaves the game untouched.
#[derive(Clone, Copy, Debug, PartialEq, Eq, Structural, Hash)]
pub enum ChessError {
    /// A square was not written as a file `a`–`h` followed by a rank `1`–`8`.
    InvalidSquareNotation,
    /// The origin square is empty.
    NoPieceOnSquare,
    /// The piece on the origin square belongs to the side that is not to move.
    WrongSideToMove,
    /// The destination is not among the legal destinations of the piece.
    IllegalDestination,
    /// A pawn reaches the farthest rank and no queen, rook, knight or bishop was chosen.
    MissingOrInvalidPromotionChoice,
    /// The game has ended in checkmate or stalemate.
    GameAlreadyOver,
    /// A position description is not well formed: wrong number of fields, a
    /// field that cannot be read, or a position it may not describe.
    MalformedPositionDescription,
}

/// A piece. `has_moved` matters for kings and rooks (castling) and for pawns
/// (the double step); it is `false` only for a piece that still stands where
/// the game placed it.
#[derive(Clone, Copy, Debug, PartialEq, Eq, Structural, Hash)]
pub struct Piece {
    pub role: PieceRole,
    pub color: Color,
    pub has_moved: bool,
}

/// A square as (row, column). Row 0 is the black back rank (rank 8),
/// column 0 is file `a`. A square is on the board when both are below 8.
#[derive(Clone, Copy, Debug, PartialEq, Eq, Structural, Hash)]
pub struct Square {
    pub row: u8,
    pub col: u8,
}

/// The grid: eight rows of eight cells, each empty or holding one piece.
pub type Board = Vec<Vec<Option<Piece>>>;

impl GameState {
    pub open spec fn spec_is_over(self) -> bool {
        self == GameState::Checkmate || self == GameState::Stalemate
    }

    /// Whether no further move may be applied.
    #[verifier::when_used_as_spec(spec_is_over)]
    pub fn is_over(self) -> (r: bool)
        ensures
            r == self.spec_is_over(),
    {
        match self {
            GameState::Checkmate => true,
            GameState::Stalemate => true,
            _ => false,
        }
    }
}

impl Color {
    pub open spec fn spec_opponent(self) -> Color {
        match self {
            Color::White => Color::Black,
            Color::Black => Color::White,
        }
    }

    /// The other side.
    #[verifier::when_used_as_spec(spec_opponent)]
    pub fn opponent(self) -> (r: Color)
        ensures
            r == self.spec_opponent(),
    {
        match self {
            Color::White => Color::Black,
            Color::Black => Color::White,
        }
    }

    pub open spec fn spec_forward(self) -> i8 {
        match self {
            Color::White => -1i8,
            Color::Black => 1i8,
        }
    }

    /// Row change of one pawn step: towards row 0 for White, towards row 7 for Black.
    #[verifier::when_used_as_spec(spec_forward)]
    pub fn forward(self) -> (r: i8)
        ensures
            r == self.spec_forward(),
    {
        match self {
            Color::White => -1,
            Color::Black => 1,
        }
    }

    pub open spec fn spec_home_row(self) -> u8 {
        match self {
            Color::White => 7u8,
            Color::Black => 0u8,
        }
    }

    /// Row of the back rank on which the side's king and rooks start.
    #[verifier::when_used_as_spec(spec_home_row)]
    pub fn home_row(self) -> (r: u8)
        ensures
            r == self.spec_home_row(),
    {
        match self {
            Color::White => 7,
            Color::Black => 0,
        }
    }

    pub open spec fn spec_pawn_row(self) -> u8 {
        match self {
            Color::White => 6u8,
            Color::Black => 1u8,
        }
    }

    /// Row on which the side's pawns start.
    #[verifier::when_used_as_spec(spec_pawn_row)]
    pub fn pawn_row(self) -> (r: u8)
        ensures
            r == self.spec_pawn_row(),
    {
        match self {
            Color::White => 6,
            Color::Black => 1,
        }
    }
}

impl Piece {
    pub fn new(role: PieceRole, color: Color, has_moved: bool) -> (p: Piece)
        ensures
            p == (Piece { role, color, has_moved }),
    {
        Piece { role, color, has_moved }
    }
}

/// Both coordinates of `sq` are below 8.
pub open spec fn on_board(sq: Square) -> bool {
    sq.row < 8 && sq.col < 8
}

/// The square `dr` rows and `dc` columns away from `sq`, if that is on the board.
pub open spec fn shifted(sq: Square, dr: int, dc: int) -> Option<Square> {
    let r = sq.row + dr;
    let c = sq.col + dc;
    if 0 <= r < 8 && 0 <= c < 8 {
        Some(Square { row: r as u8, col: c as u8 })
    } else {
        None
    }
}

/// What stands on `sq`. Squares off the board are empty.
pub open spec fn at(m: Map<Square, Piece>, sq: Square) -> Option<Piece> {
    if on_board(sq) && m.dom().contains(sq) {
        Some(m[sq])
    } else {
        None
    }
}

/// The position `m` with the content of `sq` replaced by `v`; unchanged when
/// `sq` is off the board.
pub open spec fn with_cell(m: Map<Square, Piece>, sq: Square, v: Option<Piece>) -> Map<
    Square,
    Piece,
> {
    if on_board(sq) {
        match v {
            Some(p) => m.insert(sq, p),
            None => m.remove(sq),
        }
    } else {
        m
    }
}

/// A grid is well formed when it has eight rows of eight cells.
pub open spec fn board_wf(b: &Board) -> bool {
    &&& b@.len() == 8
    &&& forall|r: int| 0 <= r < 8 ==> (#[trigger] b@[r])@.len() == 8
}

/// The mathematical view of a grid: the map from occupied squares to their pieces.
pub open spec fn placement(b: &Board) -> Map<Square, Piece> {
    Map::new(
        |sq: Square| on_board(sq) && b@[sq.row as int]@[sq.col as int] is Some,
        |sq: Square| b@[sq.row as int]@[sq.col as int]->0,
    )
}

/// Two positions that agree on every square are the same position.
pub proof fn lemma_placement_ext(b: &Board, m: Map<Square, Piece>)
    requires
        forall|sq: Square| at(placement(b), sq) == at(m, sq),
        forall|sq: Square| m.dom().contains(sq) ==> on_board(sq),
    ensures
        placement(b) == m,
{
    assert forall|sq: Square| placement(b).dom().contains(sq) == m.dom().contains(sq) by {
        assert(at(placement(b), sq) == at(m, sq));
    }
    assert forall|sq: Square| placement(b).dom().contains(sq) implies placement(b)[sq] == m[sq] by {
        assert(at(placement(b), sq) == at(m, sq));
    }
    assert(placement(b) =~= m);
}

/// What stands on `sq`; nothing on a square off the board.
pub fn piece_at(board: &Board, sq: Square) -> (p: Option<Piece>)
    requires
        board_wf(board),
    ensures
        p == at(placement(board), sq),
{
    if sq.row < 8 && sq.col < 8 {
        board[sq.row as usize][sq.col as usize]
    } else {
        None
    }
}

/// Replaces the content of `sq`; does nothing when `sq` is off the board.
pub fn put(board: &mut Board, sq: Square, v: Option<Piece>)
    requires
        board_wf(old(board)),
    ensures
        board_wf(final(board)),
        placement(final(board)) == with_cell(placement(old(board)), sq, v),
{
    if sq.row < 8 && sq.col < 8 {
        board[sq.row as usize][sq.col as usize] = v;
        proof {
            assert(placement(board) =~= with_cell(placement(old(board)), sq, v));
        }
    }
}

/// The neighbour of `sq` at the given offset, if it is on the board.
pub fn offset(sq: Square, dr: i8, dc: i8) -> (r: Option<Square>)
    ensures
        r == shifted(sq, dr as int, dc as int),
{
    let row: i16 = sq.row as i16 + dr as i16;
    let col: i16 = sq.col as i16 + dc as i16;
    if 0 <= row && row < 8 && 0 <= col && col < 8 {
        Some(Square { row: row as u8, col: col as u8 })
    } else {
        None
    }
}

/// A grid on which nothing stands.
pub fn empty_board() -> (b: Board)
    ensures
        board_wf(&b),
        placement(&b) == Map::<Square, Piece>::empty(),
{
    let mut b: Board = Vec::new();
    let mut r: usize = 0;
    while r < 8
        invariant
            r <= 8,
            b@.len() == r,
            forall|i: int| 0 <= i < r ==> (#[trigger] b@[i])@.len() == 8,
            forall|i: int, j: int| 0 <= i < r && 0 <= j < 8 ==> (#[trigger] b@[i]@[j]) is None,
        decreases 8 - r,
    {
        let mut row: Vec<Option<Piece>> = Vec::new();
        let mut c: usize = 0;
        while c < 8
            invariant
                c <= 8,
                row@.len() == c,
                forall|j: int| 0 <= j < c ==> (#[trigger] row@[j]) is None,
            decreases 8 - c,
        {
            row.push(None);
            c += 1;
        }
        b.push(row);
        r += 1;
    }
    proof {
        assert(placement(&b) =~= Map::<Square, Piece>::empty());
    }
    b
}

/// A fresh grid with the same content.
pub fn copy_board(board: &Board) -> (c: Board)
    requires
        board_wf(board),
    ensures
        board_wf(&c),
        placement(&c) == placement(board),
{
    let mut c: Board = Vec::new();
    let mut r: usize = 0;
    while r < 8
        invariant
            r <= 8,
            board_wf(board),
            c@.len() == r,
            forall|i: int| 0 <= i < r ==> (#[trigger] c@[i])@ == board@[i]@,
        decreases 8 - r,
    {
        let mut row: Vec<Option<Piece>> = Vec::new();
        let mut k: usize = 0;
        while k < 8
            invariant
                k <= 8,
                r < 8,
                board_wf(board),
                row@.len() == k,
                forall|j: int| 0 <= j < k ==> #[trigger] row@[j] == board@[r as int]@[j],
            decreases 8 - k,
        {
            row.push(board[r][k]);
            k += 1;
        }
        assert(row@ =~= board@[r as int]@);
        c.push(row);
        r += 1;
    }
    proof {
        assert(placement(&c) =~= placement(board));
    }
    c
}

/// Whether `v` lists `sq`.
pub fn has_square(v: &Vec<Square>, sq: Square) -> (r: bool)
    ensures
        r == v@.contains(sq),
{
    let mut i: usize = 0;
    while i < v.len()
        invariant
            i <= v.len(),
            forall|j: int| 0 <= j < i ==> v@[j] != sq,
        decreases v.len() - i,
    {
        if v[i] == sq {
            return true;
        }
        i += 1;
    }
    false
}

/// Whether `a` names the square `sq`.
pub fn is_square(a: Option<Square>, sq: Square) -> (r: bool)
    ensures
        r == (a == Some(sq)),
{
    match a {
        Some(s) => s == sq,
        None => false,
    }
}

} // verus!

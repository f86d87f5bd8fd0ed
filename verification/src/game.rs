//! The game: a position with its side to move, en passant square and clocks,
//! and the state machine that applies moves and derives the status.

use crate::board::{
    at, board_wf, empty_board, has_square, lemma_placement_ext, on_board, piece_at, placement, put,
    Board, ChessError, Color, GameState, Piece, PieceRole, Square,
};
use crate::check::{in_check, king_attacked};
use crate::laws::lemma_legal_move_never_self_check;
use crate::legal::{
    available, available_moves, can_move, ep_after, has_legal_move, is_promotion, legal_moves,
    lemma_available_on_board, position_after, relocate,
};
use crate::notation::{
    named_promotion, named_square, parse_promotion, parse_square, square_name, square_to_string,
};
use vstd::prelude::*;

verus! {

/// A game of chess: the grid, the side to move, the square a pawn has just
/// skipped (if any), the halfmove clock and the fullmove number, and the
/// status derived after the last move.
#[derive(Clone)]
pub struct Game {
    pub state: GameState,
    pub chessboard: Board,
    pub turn: Color,
    pub ep_square: Option<Square>,
    pub halfmove: u64,
    pub fullmove: u64,
}

/// The role of the piece that starts in column `col` of a back rank.
pub open spec fn back_rank_role(col: u8) -> PieceRole {
    if col == 0 || col == 7 {
        PieceRole::Rook
    } else if col == 1 || col == 6 {
        PieceRole::Knight
    } else if col == 2 || col == 5 {
        PieceRole::Bishop
    } else if col == 3 {
        PieceRole::Queen
    } else {
        PieceRole::King
    }
}

/// What stands on `sq` at the start of a game. No piece has moved.
pub open spec fn start_piece(sq: Square) -> Option<Piece> {
    if !on_board(sq) {
        None
    } else if sq.row == 0 {
        Some(Piece { role: back_rank_role(sq.col), color: Color::Black, has_moved: false })
    } else if sq.row == 1 {
        Some(Piece { role: PieceRole::Pawn, color: Color::Black, has_moved: false })
    } else if sq.row == 6 {
        Some(Piece { role: PieceRole::Pawn, color: Color::White, has_moved: false })
    } else if sq.row == 7 {
        Some(Piece { role: back_rank_role(sq.col), color: Color::White, has_moved: false })
    } else {
        None
    }
}

/// The standard starting position.
pub open spec fn start_position() -> Map<Square, Piece> {
    Map::new(|sq: Square| start_piece(sq) is Some, |sq: Square| start_piece(sq)->0)
}

/// A promotion choice is valid when it names a queen, rook, knight or bishop.
pub open spec fn valid_promotion(choice: Option<PieceRole>) -> bool {
    choice matches Some(r) && (r == PieceRole::Queen || r == PieceRole::Rook || r
        == PieceRole::Knight || r == PieceRole::Bishop)
}

/// The role with which the piece `p` stands on `to` after its move: the
/// chosen role where a pawn promotes, its own role otherwise.
pub open spec fn landing_role(p: Piece, to: Square, promotion: Option<PieceRole>) -> PieceRole {
    if is_promotion(p, to) {
        promotion->0
    } else {
        p.role
    }
}

/// The status of a position in which the side `to_move` is to move.
pub open spec fn status(b: Map<Square, Piece>, ep: Option<Square>, to_move: Color) -> GameState {
    if can_move(b, ep, to_move) {
        if in_check(b, to_move) {
            GameState::Check
        } else {
            GameState::InProgress
        }
    } else {
        if in_check(b, to_move) {
            GameState::Checkmate
        } else {
            GameState::Stalemate
        }
    }
}

fn back_rank(col: u8) -> (r: PieceRole)
    ensures
        r == back_rank_role(col),
{
    if col == 0 || col == 7 {
        PieceRole::Rook
    } else if col == 1 || col == 6 {
        PieceRole::Knight
    } else if col == 2 || col == 5 {
        PieceRole::Bishop
    } else if col == 3 {
        PieceRole::Queen
    } else {
        PieceRole::King
    }
}

impl Game {
    /// The grid has eight rows of eight cells, and the en passant square, if
    /// there is one, lies on the board.
    pub open spec fn wf(&self) -> bool {
        &&& board_wf(&self.chessboard)
        &&& self.ep_square matches Some(sq) ==> on_board(sq)
    }

    /// The position: which piece stands on which square.
    pub open spec fn position(&self) -> Map<Square, Piece> {
        placement(&self.chessboard)
    }

    /// The first reason, in the order in which they are examined, for which
    /// the move from `from` to `to` is rejected; `None` if it is accepted.
    pub open spec fn rejection(
        &self,
        from: Square,
        to: Square,
        promotion: Option<PieceRole>,
    ) -> Option<ChessError> {
        if self.state.is_over() {
            Some(ChessError::GameAlreadyOver)
        } else {
            match at(self.position(), from) {
                None => Some(ChessError::NoPieceOnSquare),
                Some(p) => if p.color != self.turn {
                    Some(ChessError::WrongSideToMove)
                } else if !legal_moves(self.position(), self.ep_square, from).contains(to) {
                    Some(ChessError::IllegalDestination)
                } else if is_promotion(p, to) && !valid_promotion(promotion) {
                    Some(ChessError::MissingOrInvalidPromotionChoice)
                } else {
                    None
                },
            }
        }
    }

    /// `after` is this game after the accepted move from `from` to `to`:
    /// - the grid is changed as [`position_after`] says;
    /// - the en passant square is the square a pawn's double step skipped, else none;
    /// - the halfmove clock is 0 after a pawn move or a capture, else one more;
    /// - the fullmove number is one more after a move of Black;
    /// - the status is that of the opponent's position, and the turn passes to
    ///   the opponent unless the game has ended.
    pub open spec fn moved(
        &self,
        after: &Game,
        from: Square,
        to: Square,
        promotion: Option<PieceRole>,
    ) -> bool {
        let b = self.position();
        let p = at(b, from)->0;
        let nb = position_after(b, self.ep_square, from, to, landing_role(p, to, promotion));
        let nep = ep_after(b, from, to);
        let opp = self.turn.opponent();
        &&& after.wf()
        &&& after.position() == nb
        &&& after.ep_square == nep
        &&& after.halfmove == if p.role == PieceRole::Pawn || at(b, to) is Some {
            0
        } else {
            self.halfmove + 1
        }
        &&& after.fullmove == if self.turn == Color::Black {
            self.fullmove + 1
        } else {
            self.fullmove as int
        }
        &&& after.state == status(nb, nep, opp)
        &&& after.turn == if can_move(nb, nep, opp) {
            opp
        } else {
            self.turn
        }
    }

    /// A new game in the standard starting position, White to move.
    pub fn new() -> (g: Game)
        ensures
            g.wf(),
            g.position() == start_position(),
            g.state == GameState::InProgress,
            g.turn == Color::White,
            g.ep_square is None,
            g.halfmove == 0,
            g.fullmove == 1,
    {
        let mut board = empty_board();
        let mut i: u8 = 0;
        while i < 8
            invariant
                i <= 8,
                board_wf(&board),
                forall|sq: Square|
                    #[trigger] at(placement(&board), sq) == if sq.col < i {
                        start_piece(sq)
                    } else {
                        None
                    },
            decreases 8 - i,
        {
            let ghost before = placement(&board);
            put(
                &mut board,
                Square { row: 0, col: i },
                Some(Piece::new(back_rank(i), Color::Black, false)),
            );
            put(
                &mut board,
                Square { row: 1, col: i },
                Some(Piece::new(PieceRole::Pawn, Color::Black, false)),
            );
            put(
                &mut board,
                Square { row: 6, col: i },
                Some(Piece::new(PieceRole::Pawn, Color::White, false)),
            );
            put(
                &mut board,
                Square { row: 7, col: i },
                Some(Piece::new(back_rank(i), Color::White, false)),
            );
            proof {
                assert forall|sq: Square|
                    #[trigger] at(placement(&board), sq) == if sq.col < i + 1 {
                        start_piece(sq)
                    } else {
                        None
                    } by {
                    assert(at(before, sq) == if sq.col < i {
                        start_piece(sq)
                    } else {
                        None
                    });
                }
            }
            i += 1;
        }
        proof {
            assert forall|sq: Square| at(placement(&board), sq) == at(start_position(), sq) by {}
            lemma_placement_ext(&board, start_position());
        }
        Game {
            state: GameState::InProgress,
            chessboard: board,
            turn: Color::White,
            ep_square: None,
            halfmove: 0,
            fullmove: 1,
        }
    }

    /// Applies the move of the piece on `from` to `to`. `promotion` is the role
    /// chosen for a pawn that reaches the farthest rank; it is ignored for any
    /// other move. A rejected move leaves the game as it was; an accepted move
    /// never leaves the mover in check.
    pub fn apply_move(&mut self, from: Square, to: Square, promotion: Option<PieceRole>) -> (res:
        Result<GameState, ChessError>)
        requires
            old(self).wf(),
            old(self).halfmove < u64::MAX,
            old(self).fullmove < u64::MAX,
        ensures
            match old(self).rejection(from, to, promotion) {
                Some(e) => res == Err::<GameState, ChessError>(e) && *final(self) == *old(self),
                None => res == Ok::<GameState, ChessError>(final(self).state) && old(self).moved(
                    final(self),
                    from,
                    to,
                    promotion,
                ),
            },
            res is Ok ==> !in_check(final(self).position(), old(self).turn),
    {
        if self.state.is_over() {
            return Err(ChessError::GameAlreadyOver);
        }
        let p = match piece_at(&self.chessboard, from) {
            None => {
                return Err(ChessError::NoPieceOnSquare);
            },
            Some(p) => p,
        };
        if p.color != self.turn {
            return Err(ChessError::WrongSideToMove);
        }
        let legal = available_moves(&self.chessboard, self.ep_square, from, false, false);
        if !has_square(&legal, to) {
            return Err(ChessError::IllegalDestination);
        }
        proof {
            lemma_available_on_board(self.position(), self.ep_square, from, false, false, to);
        }
        let promoting = p.role == PieceRole::Pawn && (to.row == 0 || to.row == 7);
        let landed = if promoting {
            match promotion {
                Some(PieceRole::Queen) => PieceRole::Queen,
                Some(PieceRole::Rook) => PieceRole::Rook,
                Some(PieceRole::Knight) => PieceRole::Knight,
                Some(PieceRole::Bishop) => PieceRole::Bishop,
                _ => {
                    return Err(ChessError::MissingOrInvalidPromotionChoice);
                },
            }
        } else {
            p.role
        };
        let capture = piece_at(&self.chessboard, to).is_some();
        let double_step = p.role == PieceRole::Pawn && !promoting && (to.row as u16 == from.row as u16
            + 2 || to.row as u16 + 2 == from.row as u16);
        let skipped = if double_step {
            Some(Square { row: ((from.row as u16 + to.row as u16) / 2) as u8, col: from.col })
        } else {
            None
        };
        proof {
            lemma_legal_move_never_self_check(self.position(), self.ep_square, from, to, landed);
        }
        relocate(&mut self.chessboard, self.ep_square, from, to, landed);
        self.ep_square = skipped;
        if p.role == PieceRole::Pawn || capture {
            self.halfmove = 0;
        } else {
            self.halfmove = self.halfmove + 1;
        }
        let opponent = self.turn.opponent();
        let check = king_attacked(&self.chessboard, opponent);
        let any = has_legal_move(&self.chessboard, self.ep_square, opponent);
        if self.turn == Color::Black {
            self.fullmove = self.fullmove + 1;
        }
        if any {
            self.state = if check {
                GameState::Check
            } else {
                GameState::InProgress
            };
            self.turn = opponent;
        } else {
            self.state = if check {
                GameState::Checkmate
            } else {
                GameState::Stalemate
            };
        }
        Ok(self.state)
    }

    /// Applies the move written as two squares in algebraic notation; the
    /// destination may carry the letter of a promotion role (`q`, `r`, `n`, `b`,
    /// in either case). Once the game is over every move is rejected; otherwise
    /// both squares must be readable, and then the move is judged as
    /// [`Game::apply_move`] judges it.
    pub fn make_move(&mut self, from: &str, to: &str) -> (res: Result<GameState, ChessError>)
        requires
            old(self).wf(),
            old(self).halfmove < u64::MAX,
            old(self).fullmove < u64::MAX,
        ensures
            old(self).state.is_over() ==> res == Err::<GameState, ChessError>(
                ChessError::GameAlreadyOver,
            ) && *final(self) == *old(self),
            !old(self).state.is_over() && (named_square(from@) is None || named_square(to@) is None)
                ==> res == Err::<GameState, ChessError>(ChessError::InvalidSquareNotation)
                && *final(self) == *old(self),
            !old(self).state.is_over() && named_square(from@) is Some && named_square(to@) is Some
                ==> match old(self).rejection(
                named_square(from@)->0,
                named_square(to@)->0,
                named_promotion(to@),
            ) {
                Some(e) => res == Err::<GameState, ChessError>(e) && *final(self) == *old(self),
                None => res == Ok::<GameState, ChessError>(final(self).state) && old(self).moved(
                    final(self),
                    named_square(from@)->0,
                    named_square(to@)->0,
                    named_promotion(to@),
                ),
            },
            res is Ok ==> !in_check(final(self).position(), old(self).turn),
    {
        if self.state.is_over() {
            return Err(ChessError::GameAlreadyOver);
        }
        let origin = match parse_square(from) {
            Some(sq) => sq,
            None => {
                return Err(ChessError::InvalidSquareNotation);
            },
        };
        let target = match parse_square(to) {
            Some(sq) => sq,
            None => {
                return Err(ChessError::InvalidSquareNotation);
            },
        };
        self.apply_move(origin, target, parse_promotion(to))
    }

    /// The halfmove clock: moves since the last pawn move or capture.
    pub fn get_halfmove(&self) -> (r: u64)
        ensures
            r == self.halfmove,
    {
        self.halfmove
    }

    /// The fullmove number: it starts at 1 and grows after each move of Black.
    pub fn get_fullmove(&self) -> (r: u64)
        ensures
            r == self.fullmove,
    {
        self.fullmove
    }

    /// The current status.
    pub fn get_game_state(&self) -> (r: GameState)
        ensures
            r == self.state,
    {
        self.state
    }

    /// The side to move, as `"White"` or `"Black"`.
    pub fn get_turn(&self) -> (r: &'static str)
        ensures
            r@ == if self.turn == Color::White {
                "White"@
            } else {
                "Black"@
            },
    {
        match self.turn {
            Color::White => "White",
            Color::Black => "Black",
        }
    }

    /// Whether the side `turn` is in check in the game `board`.
    pub fn in_check(board: &Game, turn: Color) -> (r: bool)
        requires
            board.wf(),
        ensures
            r == in_check(board.position(), turn),
    {
        king_attacked(&board.chessboard, turn)
    }

    /// The destinations of the piece on `pos`: with `ignore_check` its
    /// pseudo-legal destinations without castling, otherwise its legal
    /// destinations; with `only_attack_moves` a pawn's steps ahead are left out.
    pub fn available_moves(&self, pos: Square, only_attack_moves: bool, ignore_check: bool) -> (v:
        Vec<Square>)
        requires
            self.wf(),
        ensures
            v@ == available(self.position(), self.ep_square, pos, only_attack_moves, ignore_check),
    {
        available_moves(&self.chessboard, self.ep_square, pos, only_attack_moves, ignore_check)
    }

    /// The legal destinations of the piece on the square that `position`
    /// names, each in algebraic notation. `None` when the game is over, when
    /// `position` names no square, or when the square is empty.
    pub fn get_possible_moves(&self, position: &str) -> (res: Option<Vec<String>>)
        requires
            self.wf(),
        ensures
            res is None <==> (self.state.is_over() || named_square(position@) is None || at(
                self.position(),
                named_square(position@)->0,
            ) is None),
            res matches Some(names) ==> {
                let legal = legal_moves(
                    self.position(),
                    self.ep_square,
                    named_square(position@)->0,
                );
                &&& names@.len() == legal.len()
                &&& forall|i: int|
                    0 <= i < legal.len() ==> (#[trigger] names@[i])@ == square_name(legal[i])
            },
    {
        if self.state.is_over() {
            return None;
        }
        let sq = match parse_square(position) {
            Some(sq) => sq,
            None => {
                return None;
            },
        };
        if piece_at(&self.chessboard, sq).is_none() {
            return None;
        }
        let legal = available_moves(&self.chessboard, self.ep_square, sq, false, false);
        let mut names: Vec<String> = Vec::new();
        let mut i: usize = 0;
        while i < legal.len()
            invariant
                i <= legal.len(),
                self.wf(),
                legal@ == legal_moves(self.position(), self.ep_square, sq),
                names@.len() == i,
                forall|j: int| 0 <= j < i ==> (#[trigger] names@[j])@ == square_name(legal@[j]),
            decreases legal.len() - i,
        {
            proof {
                assert(legal@.contains(legal@[i as int]));
                lemma_available_on_board(
                    self.position(),
                    self.ep_square,
                    sq,
                    false,
                    false,
                    legal@[i as int],
                );
            }
            names.push(square_to_string(legal[i]));
            i += 1;
        }
        Some(names)
    }
}

} // verus!

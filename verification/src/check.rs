//! The check detector: whether a side's king stands on a square that a piece
//! of the other side threatens.

use crate::board::{
    at, board_wf, has_square, piece_at, placement, Board, Color, Piece, PieceRole, Square,
};
use crate::moves::{pseudo_legal_moves, pseudo_moves};
use vstd::prelude::*;

verus! {

/// Row-major order of squares: `a` comes before `b`.
pub open spec fn precedes(a: Square, b: Square) -> bool {
    a.row < b.row || (a.row == b.row && a.col < b.col)
}

/// `sq` holds a king of colour `c`.
pub open spec fn is_king_of(b: Map<Square, Piece>, sq: Square, c: Color) -> bool {
    at(b, sq) matches Some(p) && p.role == PieceRole::King && p.color == c
}

/// `k` is the square of the king of colour `c`: it holds such a king and no
/// earlier square in row-major order does.
pub open spec fn is_first_king(b: Map<Square, Piece>, c: Color, k: Square) -> bool {
    &&& is_king_of(b, k, c)
    &&& forall|s: Square| precedes(s, k) ==> !#[trigger] is_king_of(b, s, c)
}

/// `k` holds the only king of colour `c`.
pub open spec fn is_only_king(b: Map<Square, Piece>, c: Color, k: Square) -> bool {
    &&& is_king_of(b, k, c)
    &&& forall|s: Square| #[trigger] is_king_of(b, s, c) ==> s == k
}

/// Exactly one king of colour `c` stands on the board.
pub open spec fn sole_king(b: Map<Square, Piece>, c: Color) -> bool {
    exists|k: Square| is_only_king(b, c, k)
}

/// The piece on `e` is not of colour `c` and threatens `target`: `target` is
/// among its attack-only pseudo-legal destinations.
pub open spec fn threatens(b: Map<Square, Piece>, e: Square, target: Square, c: Color) -> bool {
    at(b, e) matches Some(p) && p.color != c && pseudo_moves(b, None, p, e, true).contains(target)
}

/// The side `c` is in check: a piece of the other side threatens the square of
/// its king. A side without a king is never in check; if it has several
/// kings, the first in row-major order is the one that counts.
pub open spec fn in_check(b: Map<Square, Piece>, c: Color) -> bool {
    exists|k: Square, e: Square| is_first_king(b, c, k) && #[trigger] threatens(b, e, k, c)
}

/// A side has at most one king square.
pub proof fn lemma_first_king_unique(b: Map<Square, Piece>, c: Color, k1: Square, k2: Square)
    requires
        is_first_king(b, c, k1),
        is_first_king(b, c, k2),
    ensures
        k1 == k2,
{
    if precedes(k1, k2) {
        assert(!is_king_of(b, k1, c));
    }
    if precedes(k2, k1) {
        assert(!is_king_of(b, k2, c));
    }
}

/// Finds the square of the king of colour `c`.
pub fn find_king(board: &Board, c: Color) -> (r: Option<Square>)
    requires
        board_wf(board),
    ensures
        r matches Some(k) ==> is_first_king(placement(board), c, k),
        r is None ==> forall|s: Square| !is_king_of(placement(board), s, c),
{
    let mut row: u8 = 0;
    while row < 8
        invariant
            row <= 8,
            board_wf(board),
            forall|s: Square| s.row < row ==> !#[trigger] is_king_of(placement(board), s, c),
        decreases 8 - row,
    {
        let mut col: u8 = 0;
        while col < 8
            invariant
                col <= 8,
                row < 8,
                board_wf(board),
                forall|s: Square|
                    s.row < row || (s.row == row && s.col < col) ==> !#[trigger] is_king_of(
                        placement(board),
                        s,
                        c,
                    ),
            decreases 8 - col,
        {
            let sq = Square { row, col };
            match piece_at(board, sq) {
                Some(p) => {
                    if p.role == PieceRole::King && p.color == c {
                        return Some(sq);
                    }
                },
                None => {},
            }
            col += 1;
        }
        row += 1;
    }
    None
}

/// Whether exactly one king of colour `c` stands on `board`.
pub fn has_sole_king(board: &Board, c: Color) -> (r: bool)
    requires
        board_wf(board),
    ensures
        r == sole_king(placement(board), c),
{
    match find_king(board, c) {
        None => false,
        Some(k) => {
            let mut row: u8 = 0;
            while row < 8
                invariant
                    row <= 8,
                    board_wf(board),
                    is_king_of(placement(board), k, c),
                    forall|s: Square|
                        s.row < row && #[trigger] is_king_of(placement(board), s, c) ==> s == k,
                decreases 8 - row,
            {
                let mut col: u8 = 0;
                while col < 8
                    invariant
                        col <= 8,
                        row < 8,
                        board_wf(board),
                        is_king_of(placement(board), k, c),
                        forall|s: Square|
                            (s.row < row || (s.row == row && s.col < col)) && #[trigger] is_king_of(
                                placement(board),
                                s,
                                c,
                            ) ==> s == k,
                    decreases 8 - col,
                {
                    let sq = Square { row, col };
                    match piece_at(board, sq) {
                        Some(p) => {
                            if p.role == PieceRole::King && p.color == c && sq != k {
                                assert(is_king_of(placement(board), sq, c));
                                assert forall|k2: Square| !is_only_king(placement(board), c, k2) by {
                                    if is_only_king(placement(board), c, k2) {
                                        assert(sq == k2);
                                        assert(k == k2);
                                    }
                                }
                                return false;
                            }
                        },
                        None => {},
                    }
                    col += 1;
                }
                row += 1;
            }
            assert(is_only_king(placement(board), c, k));
            true
        },
    }
}

/// Whether the side `c` is in check on `board`.
pub fn king_attacked(board: &Board, c: Color) -> (r: bool)
    requires
        board_wf(board),
    ensures
        r == in_check(placement(board), c),
{
    match find_king(board, c) {
        None => false,
        Some(k) => {
            let mut row: u8 = 0;
            while row < 8
                invariant
                    row <= 8,
                    board_wf(board),
                    is_first_king(placement(board), c, k),
                    forall|e: Square|
                        e.row < row ==> !#[trigger] threatens(placement(board), e, k, c),
                decreases 8 - row,
            {
                let mut col: u8 = 0;
                while col < 8
                    invariant
                        col <= 8,
                        row < 8,
                        board_wf(board),
                        is_first_king(placement(board), c, k),
                        forall|e: Square|
                            e.row < row || (e.row == row && e.col < col) ==> !#[trigger] threatens(
                                placement(board),
                                e,
                                k,
                                c,
                            ),
                    decreases 8 - col,
                {
                    let sq = Square { row, col };
                    match piece_at(board, sq) {
                        Some(p) => {
                            if p.color != c {
                                let reach = pseudo_legal_moves(board, None, p, sq, true);
                                if has_square(&reach, k) {
                                    assert(threatens(placement(board), sq, k, c));
                                    return true;
                                }
                            }
                        },
                        None => {},
                    }
                    col += 1;
                }
                row += 1;
            }
            proof {
                assert forall|k2: Square, e: Square|
                    is_first_king(placement(board), c, k2) implies !#[trigger] threatens(
                    placement(board),
                    e,
                    k2,
                    c,
                ) by {
                    lemma_first_king_unique(placement(board), c, k, k2);
                }
            }
            false
        },
    }
}

} // verus!

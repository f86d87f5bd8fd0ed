//! Castling, the effect of a move on the grid, and the legality filter that
//! discards every destination that would leave the mover's own king attacked.

use crate::board::{
    at, board_wf, copy_board, is_square, offset, on_board, piece_at, placement, put, shifted,
    with_cell, Board, Color, Piece, PieceRole, Square,
};
use crate::check::{in_check, king_attacked};
use crate::moves::{friendly, lemma_targets_contains, pattern, pseudo_legal_moves, pseudo_moves};
use vstd::prelude::*;

verus! {

/// The square in column `col` of the back rank of colour `c`.
pub open spec fn home_file(c: Color, col: u8) -> Square {
    Square { row: c.home_row(), col }
}

/// Where the king of colour `c` starts: the e-file of its back rank.
pub open spec fn home_square(c: Color) -> Square {
    home_file(c, 4)
}

/// Where the king-side (h-file) or queen-side (a-file) rook of colour `c` starts.
pub open spec fn corner(c: Color, kingside: bool) -> Square {
    home_file(
        c,
        if kingside {
            7
        } else {
            0
        },
    )
}

/// The side `c` has not lost the right to castle on the given wing: its king
/// and the rook of that wing stand on their starting squares and neither has
/// moved.
pub open spec fn castling_right(b: Map<Square, Piece>, c: Color, kingside: bool) -> bool {
    &&& at(b, home_square(c)) == Some(
        Piece { role: PieceRole::King, color: c, has_moved: false },
    )
    &&& at(b, corner(c, kingside)) == Some(
        Piece { role: PieceRole::Rook, color: c, has_moved: false },
    )
}

/// The position with the king of colour `c` lifted from its starting square
/// and set down on `sq`.
pub open spec fn king_on(b: Map<Square, Piece>, c: Color, sq: Square) -> Map<Square, Piece> {
    with_cell(
        with_cell(b, home_square(c), None),
        sq,
        Some(Piece { role: PieceRole::King, color: c, has_moved: true }),
    )
}

/// The side `c` may castle on the given wing right now: it has the right, the
/// squares between king and rook are empty, the king is not in check, and it
/// would not be in check on the square it crosses nor on the one it lands on.
pub open spec fn can_castle(b: Map<Square, Piece>, c: Color, kingside: bool) -> bool {
    &&& castling_right(b, c, kingside)
    &&& !in_check(b, c)
    &&& if kingside {
        &&& at(b, home_file(c, 5)) is None
        &&& at(b, home_file(c, 6)) is None
        &&& !in_check(king_on(b, c, home_file(c, 5)), c)
        &&& !in_check(king_on(b, c, home_file(c, 6)), c)
    } else {
        &&& at(b, home_file(c, 3)) is None
        &&& at(b, home_file(c, 2)) is None
        &&& at(b, home_file(c, 1)) is None
        &&& !in_check(king_on(b, c, home_file(c, 3)), c)
        &&& !in_check(king_on(b, c, home_file(c, 2)), c)
    }
}

/// The castling destinations of the piece `p` standing on `from`: for a king
/// on its starting square, the c-file square if it may castle queen-side, then
/// the g-file square if it may castle king-side.
pub open spec fn castle_moves(b: Map<Square, Piece>, p: Piece, from: Square) -> Seq<Square> {
    if p.role == PieceRole::King && from == home_square(p.color) {
        (if can_castle(b, p.color, false) {
            seq![home_file(p.color, 2)]
        } else {
            Seq::empty()
        }) + (if can_castle(b, p.color, true) {
            seq![home_file(p.color, 6)]
        } else {
            Seq::empty()
        })
    } else {
        Seq::empty()
    }
}

/// A pawn arriving on the farthest rank.
pub open spec fn is_promotion(p: Piece, to: Square) -> bool {
    p.role == PieceRole::Pawn && (to.row == 0 || to.row == 7)
}

/// A king moving two columns: the move that castles.
pub open spec fn is_castling(p: Piece, from: Square, to: Square) -> bool {
    p.role == PieceRole::King && (to.col == from.col + 2 || to.col + 2 == from.col)
}

/// The grid after the piece on `from` has moved to `to` and stands there with
/// the role `landed`. The piece is marked as moved and `from` is cleared. Unless
/// the move is a promotion,
/// - a pawn arriving on the en passant square `ep` removes what stands directly
///   behind it, seen in its direction of travel, and
/// - a king moving two columns brings the rook from the corner it moved
///   towards to the square it crossed.
/// With no piece on `from` nothing changes.
pub open spec fn position_after(
    b: Map<Square, Piece>,
    ep: Option<Square>,
    from: Square,
    to: Square,
    landed: PieceRole,
) -> Map<Square, Piece> {
    match at(b, from) {
        None => b,
        Some(p) => {
            let moved = with_cell(
                with_cell(b, to, Some(Piece { role: landed, color: p.color, has_moved: true })),
                from,
                None,
            );
            if is_promotion(p, to) {
                moved
            } else {
                let taken = if p.role == PieceRole::Pawn && ep == Some(to) {
                    match shifted(to, -p.color.forward(), 0) {
                        Some(s) => with_cell(moved, s, None),
                        None => moved,
                    }
                } else {
                    moved
                };
                if is_castling(p, from, to) {
                    let kingside = to.col > from.col;
                    let rook_to = Square {
                        row: to.row,
                        col: if kingside {
                            (to.col - 1) as u8
                        } else {
                            (to.col + 1) as u8
                        },
                    };
                    let rook_from = Square {
                        row: to.row,
                        col: if kingside {
                            7
                        } else {
                            0
                        },
                    };
                    with_cell(
                        with_cell(
                            taken,
                            rook_to,
                            Some(
                                Piece { role: PieceRole::Rook, color: p.color, has_moved: true },
                            ),
                        ),
                        rook_from,
                        None,
                    )
                } else {
                    taken
                }
            }
        },
    }
}

/// The en passant square after the piece on `from` has moved to `to`: the
/// square a pawn skipped on a double step, otherwise none.
pub open spec fn ep_after(b: Map<Square, Piece>, from: Square, to: Square) -> Option<Square> {
    match at(b, from) {
        Some(p) => if p.role == PieceRole::Pawn && !is_promotion(p, to) && (to.row == from.row + 2
            || to.row + 2 == from.row) {
            Some(Square { row: ((from.row + to.row) / 2) as u8, col: from.col })
        } else {
            None
        },
        None => None,
    }
}

/// Moving the piece on `from` to `to` does not leave its own king attacked.
pub open spec fn keeps_king_safe(
    b: Map<Square, Piece>,
    ep: Option<Square>,
    from: Square,
    to: Square,
) -> bool {
    at(b, from) matches Some(p) && !in_check(position_after(b, ep, from, to, p.role), p.color)
}

/// Those of `cands`, in order, to which the piece on `from` can move without
/// leaving its own king attacked.
pub open spec fn safe_among(
    b: Map<Square, Piece>,
    ep: Option<Square>,
    from: Square,
    cands: Seq<Square>,
) -> Seq<Square>
    decreases cands.len(),
{
    if cands.len() == 0 {
        Seq::empty()
    } else {
        let rest = safe_among(b, ep, from, cands.drop_last());
        if keeps_king_safe(b, ep, from, cands.last()) {
            rest.push(cands.last())
        } else {
            rest
        }
    }
}

/// The candidate destinations of the piece on `from`: its pseudo-legal
/// destinations, followed by its castling destinations if asked for. An empty
/// square has none.
pub open spec fn candidates(
    b: Map<Square, Piece>,
    ep: Option<Square>,
    from: Square,
    attack_only: bool,
    castling: bool,
) -> Seq<Square> {
    match at(b, from) {
        None => Seq::empty(),
        Some(p) => pseudo_moves(b, ep, p, from, attack_only) + (if castling {
            castle_moves(b, p, from)
        } else {
            Seq::empty()
        }),
    }
}

/// The destinations of the piece on `from`. With `ignore_check` these are the
/// pseudo-legal destinations without castling; otherwise castling is included
/// and every destination that leaves the mover's king attacked is dropped.
pub open spec fn available(
    b: Map<Square, Piece>,
    ep: Option<Square>,
    from: Square,
    attack_only: bool,
    ignore_check: bool,
) -> Seq<Square> {
    if ignore_check {
        candidates(b, ep, from, attack_only, false)
    } else {
        safe_among(b, ep, from, candidates(b, ep, from, attack_only, true))
    }
}

/// The legal destinations of the piece on `from`: what a player may actually play.
pub open spec fn legal_moves(b: Map<Square, Piece>, ep: Option<Square>, from: Square) -> Seq<
    Square,
> {
    available(b, ep, from, false, false)
}

/// The side `c` has at least one legal move.
pub open spec fn can_move(b: Map<Square, Piece>, ep: Option<Square>, c: Color) -> bool {
    exists|s: Square| friendly(b, s, c) && (#[trigger] legal_moves(b, ep, s)).len() > 0
}

/// A square passes the filter exactly when it is a candidate and the move to
/// it keeps the mover's king safe.
pub proof fn lemma_safe_among_contains(
    b: Map<Square, Piece>,
    ep: Option<Square>,
    from: Square,
    cands: Seq<Square>,
    to: Square,
)
    ensures
        safe_among(b, ep, from, cands).contains(to) <==> cands.contains(to) && keeps_king_safe(
            b,
            ep,
            from,
            to,
        ),
    decreases cands.len(),
{
    let all = safe_among(b, ep, from, cands);
    if cands.len() > 0 {
        let front = cands.drop_last();
        let rest = safe_among(b, ep, from, front);
        lemma_safe_among_contains(b, ep, from, front, to);
        if all.contains(to) {
            let k = choose|k: int| 0 <= k < all.len() && all[k] == to;
            if k < rest.len() {
                assert(rest[k] == to);
                assert(rest.contains(to));
                let i = choose|i: int| 0 <= i < front.len() && front[i] == to;
                assert(cands[i] == to);
            } else {
                assert(cands[cands.len() - 1] == to);
            }
        }
        if cands.contains(to) && keeps_king_safe(b, ep, from, to) {
            let i = choose|i: int| 0 <= i < cands.len() && cands[i] == to;
            if i < front.len() {
                assert(front[i] == to);
                assert(front.contains(to));
                let k = choose|k: int| 0 <= k < rest.len() && rest[k] == to;
                assert(all[k] == to);
            } else {
                assert(all[all.len() - 1] == to);
            }
        }
    }
}

/// A square is a candidate exactly when the piece on `from` reaches it by a
/// pseudo-legal move or, if asked for, by castling.
pub proof fn lemma_candidates_contains(
    b: Map<Square, Piece>,
    ep: Option<Square>,
    from: Square,
    attack_only: bool,
    castling: bool,
    to: Square,
)
    ensures
        candidates(b, ep, from, attack_only, castling).contains(to) <==> (at(b, from) matches Some(
            p,
        ) && (pseudo_moves(b, ep, p, from, attack_only).contains(to) || (castling && castle_moves(
            b,
            p,
            from,
        ).contains(to)))),
{
    match at(b, from) {
        None => {},
        Some(p) => {
            let first = pseudo_moves(b, ep, p, from, attack_only);
            let second = if castling {
                castle_moves(b, p, from)
            } else {
                Seq::empty()
            };
            let all = first + second;
            if all.contains(to) {
                let k = choose|k: int| 0 <= k < all.len() && all[k] == to;
                if k < first.len() {
                    assert(first[k] == to);
                } else {
                    assert(second[k - first.len()] == to);
                }
            }
            if first.contains(to) {
                let k = choose|k: int| 0 <= k < first.len() && first[k] == to;
                assert(all[k] == to);
            }
            if second.contains(to) {
                let k = choose|k: int| 0 <= k < second.len() && second[k] == to;
                assert(all[first.len() + k] == to);
            }
        },
    }
}

/// Every destination lies on the board, and only an occupied square has any.
pub proof fn lemma_available_on_board(
    b: Map<Square, Piece>,
    ep: Option<Square>,
    from: Square,
    attack_only: bool,
    ignore_check: bool,
    to: Square,
)
    requires
        available(b, ep, from, attack_only, ignore_check).contains(to),
    ensures
        on_board(to),
        at(b, from) is Some,
{
    if !ignore_check {
        lemma_safe_among_contains(b, ep, from, candidates(b, ep, from, attack_only, true), to);
    }
    lemma_candidates_contains(b, ep, from, attack_only, !ignore_check, to);
    let p = at(b, from)->0;
    lemma_targets_contains(b, ep, p, from, attack_only, pattern(p), to);
}

fn king_safe_on(board: &Board, c: Color, col: u8) -> (r: bool)
    requires
        board_wf(board),
    ensures
        r == !in_check(king_on(placement(board), c, home_file(c, col)), c),
{
    let mut trial = copy_board(board);
    put(&mut trial, Square { row: c.home_row(), col: 4 }, None);
    put(
        &mut trial,
        Square { row: c.home_row(), col },
        Some(Piece::new(PieceRole::King, c, true)),
    );
    !king_attacked(&trial, c)
}

fn is_empty(board: &Board, c: Color, col: u8) -> (r: bool)
    requires
        board_wf(board),
    ensures
        r == (at(placement(board), home_file(c, col)) is None),
{
    piece_at(board, Square { row: c.home_row(), col }).is_none()
}

/// Whether the side `c` may castle on the given wing right now.
pub fn castle_open(board: &Board, c: Color, kingside: bool) -> (r: bool)
    requires
        board_wf(board),
    ensures
        r == can_castle(placement(board), c, kingside),
{
    let king_ready = match piece_at(board, Square { row: c.home_row(), col: 4 }) {
        Some(k) => k.role == PieceRole::King && k.color == c && !k.has_moved,
        None => false,
    };
    let rook_col: u8 = if kingside {
        7
    } else {
        0
    };
    let rook_ready = match piece_at(board, Square { row: c.home_row(), col: rook_col }) {
        Some(k) => k.role == PieceRole::Rook && k.color == c && !k.has_moved,
        None => false,
    };
    if !king_ready || !rook_ready {
        return false;
    }
    if king_attacked(board, c) {
        return false;
    }
    if kingside {
        is_empty(board, c, 5) && is_empty(board, c, 6) && king_safe_on(board, c, 5)
            && king_safe_on(board, c, 6)
    } else {
        is_empty(board, c, 3) && is_empty(board, c, 2) && is_empty(board, c, 1) && king_safe_on(
            board,
            c,
            3,
        ) && king_safe_on(board, c, 2)
    }
}

/// Carries out on `board` the move of the piece on `from` to `to`, where it
/// takes the role `landed`. Does nothing when `from` is empty.
pub fn relocate(board: &mut Board, ep: Option<Square>, from: Square, to: Square, landed: PieceRole)
    requires
        board_wf(old(board)),
    ensures
        board_wf(final(board)),
        placement(final(board)) == position_after(placement(old(board)), ep, from, to, landed),
{
    match piece_at(board, from) {
        None => {},
        Some(p) => {
            put(board, to, Some(Piece::new(landed, p.color, true)));
            put(board, from, None);
            let promotion = p.role == PieceRole::Pawn && (to.row == 0 || to.row == 7);
            if !promotion {
                if p.role == PieceRole::Pawn && is_square(ep, to) {
                    match offset(to, -p.color.forward(), 0) {
                        Some(s) => {
                            put(board, s, None);
                        },
                        None => {},
                    }
                }
                if p.role == PieceRole::King && (to.col as u16 == from.col as u16 + 2 || to.col as u16
                    + 2 == from.col as u16) {
                    let kingside = to.col > from.col;
                    let rook_to = Square {
                        row: to.row,
                        col: if kingside {
                            to.col - 1
                        } else {
                            to.col + 1
                        },
                    };
                    let rook_from = Square {
                        row: to.row,
                        col: if kingside {
                            7
                        } else {
                            0
                        },
                    };
                    put(board, rook_to, Some(Piece::new(PieceRole::Rook, p.color, true)));
                    put(board, rook_from, None);
                }
            }
        },
    }
}

/// Lists the destinations of the piece on `from`; see [`available`].
pub fn available_moves(
    board: &Board,
    ep: Option<Square>,
    from: Square,
    attack_only: bool,
    ignore_check: bool,
) -> (v: Vec<Square>)
    requires
        board_wf(board),
    ensures
        v@ == available(placement(board), ep, from, attack_only, ignore_check),
{
    match piece_at(board, from) {
        None => {
            let v: Vec<Square> = Vec::new();
            assert(v@ =~= available(placement(board), ep, from, attack_only, ignore_check));
            v
        },
        Some(p) => {
            let mut cands = pseudo_legal_moves(board, ep, p, from, attack_only);
            if ignore_check {
                assert(cands@ =~= candidates(placement(board), ep, from, attack_only, false));
                return cands;
            }
            let ghost pseudo = cands@;
            if p.role == PieceRole::King && from.row == p.color.home_row() && from.col == 4 {
                if castle_open(board, p.color, false) {
                    cands.push(Square { row: p.color.home_row(), col: 2 });
                }
                if castle_open(board, p.color, true) {
                    cands.push(Square { row: p.color.home_row(), col: 6 });
                }
            }
            assert(cands@ =~= pseudo + castle_moves(placement(board), p, from));
            let mut v: Vec<Square> = Vec::new();
            let mut i: usize = 0;
            while i < cands.len()
                invariant
                    board_wf(board),
                    i <= cands.len(),
                    at(placement(board), from) == Some(p),
                    v@ == safe_among(placement(board), ep, from, cands@.take(i as int)),
                decreases cands.len() - i,
            {
                let to = cands[i];
                proof {
                    assert(cands@.take(i + 1).drop_last() =~= cands@.take(i as int));
                    assert(cands@.take(i + 1).last() == to);
                }
                let mut trial = copy_board(board);
                relocate(&mut trial, ep, from, to, p.role);
                if !king_attacked(&trial, p.color) {
                    v.push(to);
                }
                i += 1;
            }
            proof {
                assert(cands@.take(cands@.len() as int) =~= cands@);
            }
            v
        },
    }
}

/// Whether the side `c` has at least one legal move.
pub fn has_legal_move(board: &Board, ep: Option<Square>, c: Color) -> (r: bool)
    requires
        board_wf(board),
    ensures
        r == can_move(placement(board), ep, c),
{
    let mut row: u8 = 0;
    while row < 8
        invariant
            row <= 8,
            board_wf(board),
            forall|s: Square|
                s.row < row && friendly(placement(board), s, c) ==> (#[trigger] legal_moves(
                    placement(board),
                    ep,
                    s,
                )).len() == 0,
        decreases 8 - row,
    {
        let mut col: u8 = 0;
        while col < 8
            invariant
                col <= 8,
                row < 8,
                board_wf(board),
                forall|s: Square|
                    (s.row < row || (s.row == row && s.col < col)) && friendly(
                        placement(board),
                        s,
                        c,
                    ) ==> (#[trigger] legal_moves(placement(board), ep, s)).len() == 0,
            decreases 8 - col,
        {
            let sq = Square { row, col };
            match piece_at(board, sq) {
                Some(p) => {
                    if p.color == c {
                        let v = available_moves(board, ep, sq, false, false);
                        if v.len() > 0 {
                            assert(friendly(placement(board), sq, c));
                            assert(legal_moves(placement(board), ep, sq).len() > 0);
                            return true;
                        }
                    }
                },
                None => {},
            }
            col += 1;
        }
        row += 1;
    }
    false
}

} // verus!

//! The pseudo-legal moves in terms of the geometry of the board: which
//! squares a piece reaches, whatever the order in which they are listed.

use crate::board::{at, on_board, shifted, Piece, PieceRole, Square};
use crate::moves::{
    allowed, compass_dirs, diagonal_dirs, friendly, leads_to, lemma_targets_contains, path_clear,
    pattern, pseudo_moves, rays, ring, spec_scale, straight_dirs,
};
use vstd::prelude::*;

verus! {

pub open spec fn abs(x: int) -> int {
    if x < 0 {
        -x
    } else {
        x
    }
}

/// `(dr, dc)` lies on a row or a column.
pub open spec fn straight(dr: int, dc: int) -> bool {
    (dr == 0) != (dc == 0)
}

/// `(dr, dc)` lies on a diagonal.
pub open spec fn diagonal(dr: int, dc: int) -> bool {
    dr != 0 && abs(dr) == abs(dc)
}

/// The piece `p` standing on `from` reaches `to` by a pseudo-legal move:
/// `to` is on the board, holds no piece of the same colour, and
/// - a knight jumps one by two or two by one;
/// - a king steps to an adjacent square;
/// - a rook moves along a row or column, a bishop along a diagonal, a queen
///   along either, over empty squares only;
/// - a pawn takes one step diagonally forward onto an occupied square or the
///   en passant square, or, unless only attacks are asked for, steps one
///   ahead onto an empty square or, if it has not moved, two ahead over an
///   empty square onto an empty square.
pub open spec fn reaches(
    b: Map<Square, Piece>,
    ep: Option<Square>,
    p: Piece,
    from: Square,
    to: Square,
    attack_only: bool,
) -> bool {
    let dr = to.row - from.row;
    let dc = to.col - from.col;
    let d = (dr as i8, dc as i8);
    &&& on_board(to)
    &&& !friendly(b, to, p.color)
    &&& match p.role {
        PieceRole::Knight => (abs(dr) == 1 && abs(dc) == 2) || (abs(dr) == 2 && abs(dc) == 1),
        PieceRole::King => (dr != 0 || dc != 0) && abs(dr) <= 1 && abs(dc) <= 1,
        PieceRole::Rook => straight(dr, dc) && path_clear(b, from, d),
        PieceRole::Bishop => diagonal(dr, dc) && path_clear(b, from, d),
        PieceRole::Queen => (straight(dr, dc) || diagonal(dr, dc)) && path_clear(b, from, d),
        PieceRole::Pawn => {
            let f = p.color.forward();
            ||| dr == f && abs(dc) == 1 && (at(b, to) is Some || ep == Some(to))
            ||| !attack_only && dc == 0 && dr == f && at(b, to) is None
            ||| !attack_only && dc == 0 && dr == 2 * f && !p.has_moved && at(b, to) is None
                && path_clear(b, from, d)
        },
    }
}

/// The direction `dirs[j]` taken `k` steps far.
pub open spec fn step(dirs: Seq<(i8, i8)>, j: int, k: i8) -> (i8, i8) {
    (spec_scale(dirs[j].0, k), spec_scale(dirs[j].1, k))
}

/// `d` is one of the directions `dirs` taken between 1 and `reach` steps far.
pub open spec fn along(dirs: Seq<(i8, i8)>, reach: i8, d: (i8, i8)) -> bool {
    exists|k: i8, j: int| 1 <= k <= reach && 0 <= j < dirs.len() && d == #[trigger] step(dirs, j, k)
}

/// The rays hold exactly the directions taken 1 to `reach` steps far.
pub proof fn lemma_rays_contains(dirs: Seq<(i8, i8)>, reach: i8, d: (i8, i8))
    requires
        0 <= reach,
    ensures
        rays(dirs, reach).contains(d) <==> along(dirs, reach, d),
    decreases reach,
{
    if reach > 0 {
        let less = (reach - 1) as i8;
        lemma_rays_contains(dirs, less, d);
        let prev = rays(dirs, less);
        let last = ring(dirs, reach);
        let all = prev + last;
        if all.contains(d) {
            let i = choose|i: int| 0 <= i < all.len() && all[i] == d;
            if i < prev.len() {
                assert(prev[i] == d);
                let (k, j) = choose|k: i8, j: int|
                    1 <= k <= less && 0 <= j < dirs.len() && d == #[trigger] step(dirs, j, k);
                assert(d == step(dirs, j, k));
            } else {
                assert(last[i - prev.len()] == d);
                assert(d == step(dirs, i - prev.len(), reach));
            }
        }
        if along(dirs, reach, d) {
            let (k, j) = choose|k: i8, j: int|
                1 <= k <= reach && 0 <= j < dirs.len() && d == #[trigger] step(dirs, j, k);
            if k == reach {
                assert(last[j] == d);
                assert(all[prev.len() + j] == d);
            } else {
                assert(d == step(dirs, j, k));
                assert(along(dirs, less, d));
                let i = choose|i: int| 0 <= i < prev.len() && prev[i] == d;
                assert(all[i] == d);
            }
        }
    }
}

proof fn lemma_straight_along(d: (i8, i8))
    ensures
        along(straight_dirs(), 7, d) <==> straight(d.0 as int, d.1 as int) && abs(d.0 as int) <= 7
            && abs(d.1 as int) <= 7,
{
    let dirs = straight_dirs();
    if along(dirs, 7, d) {
        let (k, j) = choose|k: i8, j: int|
            1 <= k <= 7 && 0 <= j < dirs.len() && d == #[trigger] step(dirs, j, k);
        assert(d == step(dirs, j, k));
    }
    if straight(d.0 as int, d.1 as int) && abs(d.0 as int) <= 7 && abs(d.1 as int) <= 7 {
        if d.0 < 0 {
            assert(d == step(dirs, 0, (-d.0) as i8));
        } else if d.1 > 0 {
            assert(d == step(dirs, 1, d.1));
        } else if d.0 > 0 {
            assert(d == step(dirs, 2, d.0));
        } else {
            assert(d == step(dirs, 3, (-d.1) as i8));
        }
    }
}

proof fn lemma_diagonal_along(d: (i8, i8))
    ensures
        along(diagonal_dirs(), 7, d) <==> diagonal(d.0 as int, d.1 as int) && abs(d.0 as int) <= 7,
{
    let dirs = diagonal_dirs();
    if along(dirs, 7, d) {
        let (k, j) = choose|k: i8, j: int|
            1 <= k <= 7 && 0 <= j < dirs.len() && d == #[trigger] step(dirs, j, k);
        assert(d == step(dirs, j, k));
    }
    if diagonal(d.0 as int, d.1 as int) && abs(d.0 as int) <= 7 {
        if d.0 < 0 && d.1 > 0 {
            assert(d == step(dirs, 0, d.1));
        } else if d.0 > 0 && d.1 > 0 {
            assert(d == step(dirs, 1, d.1));
        } else if d.0 > 0 && d.1 < 0 {
            assert(d == step(dirs, 2, d.0));
        } else {
            assert(d == step(dirs, 3, (-d.0) as i8));
        }
    }
}

proof fn lemma_compass_along(d: (i8, i8))
    ensures
        along(compass_dirs(), 7, d) <==> (straight(d.0 as int, d.1 as int) || diagonal(
            d.0 as int,
            d.1 as int,
        )) && abs(d.0 as int) <= 7 && abs(d.1 as int) <= 7,
{
    let dirs = compass_dirs();
    if along(dirs, 7, d) {
        let (k, j) = choose|k: i8, j: int|
            1 <= k <= 7 && 0 <= j < dirs.len() && d == #[trigger] step(dirs, j, k);
        assert(d == step(dirs, j, k));
    }
    if (straight(d.0 as int, d.1 as int) || diagonal(d.0 as int, d.1 as int)) && abs(d.0 as int)
        <= 7 && abs(d.1 as int) <= 7 {
        if d.0 < 0 && d.1 == 0 {
            assert(d == step(dirs, 0, (-d.0) as i8));
        } else if d.0 < 0 && d.1 > 0 {
            assert(d == step(dirs, 1, d.1));
        } else if d.0 == 0 && d.1 > 0 {
            assert(d == step(dirs, 2, d.1));
        } else if d.0 > 0 && d.1 > 0 {
            assert(d == step(dirs, 3, d.1));
        } else if d.0 > 0 && d.1 == 0 {
            assert(d == step(dirs, 4, d.0));
        } else if d.0 > 0 && d.1 < 0 {
            assert(d == step(dirs, 5, d.0));
        } else if d.0 == 0 && d.1 < 0 {
            assert(d == step(dirs, 6, (-d.1) as i8));
        } else {
            assert(d == step(dirs, 7, (-d.0) as i8));
        }
    }
}

/// The offset `d` belongs to the movement pattern of `p`.
pub open spec fn in_pattern(p: Piece, d: (i8, i8)) -> bool {
    let dr = d.0 as int;
    let dc = d.1 as int;
    match p.role {
        PieceRole::Knight => (abs(dr) == 1 && abs(dc) == 2) || (abs(dr) == 2 && abs(dc) == 1),
        PieceRole::King => (dr != 0 || dc != 0) && abs(dr) <= 1 && abs(dc) <= 1,
        PieceRole::Rook => straight(dr, dc) && abs(dr) <= 7 && abs(dc) <= 7,
        PieceRole::Bishop => diagonal(dr, dc) && abs(dr) <= 7,
        PieceRole::Queen => (straight(dr, dc) || diagonal(dr, dc)) && abs(dr) <= 7 && abs(dc) <= 7,
        PieceRole::Pawn => {
            let f = p.color.forward();
            (dr == f && abs(dc) <= 1) || (dr == 2 * f && dc == 0)
        },
    }
}

/// The movement pattern of a piece lists exactly the offsets of its geometry.
pub proof fn lemma_pattern_contains(p: Piece, d: (i8, i8))
    ensures
        pattern(p).contains(d) <==> in_pattern(p, d),
{
    let pat = pattern(p);
    match p.role {
        PieceRole::Rook => {
            lemma_rays_contains(straight_dirs(), 7, d);
            lemma_straight_along(d);
        },
        PieceRole::Bishop => {
            lemma_rays_contains(diagonal_dirs(), 7, d);
            lemma_diagonal_along(d);
        },
        PieceRole::Queen => {
            lemma_rays_contains(compass_dirs(), 7, d);
            lemma_compass_along(d);
        },
        PieceRole::Knight => {
            if pat.contains(d) {
                let i = choose|i: int| 0 <= i < pat.len() && pat[i] == d;
            }
            if in_pattern(p, d) {
                assert(pat[0] == (-2i8, 1i8));
                assert(pat[1] == (-1i8, 2i8));
                assert(pat[2] == (1i8, 2i8));
                assert(pat[3] == (2i8, 1i8));
                assert(pat[4] == (2i8, -1i8));
                assert(pat[5] == (1i8, -2i8));
                assert(pat[6] == (-1i8, -2i8));
                assert(pat[7] == (-2i8, -1i8));
            }
        },
        PieceRole::King => {
            if pat.contains(d) {
                let i = choose|i: int| 0 <= i < pat.len() && pat[i] == d;
            }
            if in_pattern(p, d) {
                assert(pat[0] == (-1i8, 0i8));
                assert(pat[1] == (-1i8, 1i8));
                assert(pat[2] == (0i8, 1i8));
                assert(pat[3] == (1i8, 1i8));
                assert(pat[4] == (1i8, 0i8));
                assert(pat[5] == (1i8, -1i8));
                assert(pat[6] == (0i8, -1i8));
                assert(pat[7] == (-1i8, -1i8));
            }
        },
        PieceRole::Pawn => {
            let f = p.color.forward();
            if pat.contains(d) {
                let i = choose|i: int| 0 <= i < pat.len() && pat[i] == d;
            }
            if in_pattern(p, d) {
                assert(pat[0] == (f, -1i8));
                assert(pat[1] == (f, 1i8));
                assert(pat[2] == (f, 0i8));
                assert(pat[3] == ((2 * f) as i8, 0i8));
            }
        },
    }
}

/// What the generator lists is what the geometry says: a square is among the
/// pseudo-legal destinations of a piece on the board exactly when the piece
/// reaches it.
pub proof fn lemma_pseudo_moves_geometry(
    b: Map<Square, Piece>,
    ep: Option<Square>,
    p: Piece,
    from: Square,
    to: Square,
    attack_only: bool,
)
    requires
        on_board(from),
    ensures
        pseudo_moves(b, ep, p, from, attack_only).contains(to) <==> reaches(
            b,
            ep,
            p,
            from,
            to,
            attack_only,
        ),
{
    let pat = pattern(p);
    lemma_targets_contains(b, ep, p, from, attack_only, pat, to);
    if pseudo_moves(b, ep, p, from, attack_only).contains(to) {
        let i = choose|i: int|
            0 <= i < pat.len() && leads_to(b, ep, p, from, attack_only, #[trigger] pat[i], to);
        let d = pat[i];
        assert(pat.contains(d));
        lemma_pattern_contains(p, d);
        assert(d == ((to.row - from.row) as i8, (to.col - from.col) as i8));
    }
    if reaches(b, ep, p, from, to, attack_only) {
        let d = ((to.row - from.row) as i8, (to.col - from.col) as i8);
        assert(shifted(from, d.0 as int, d.1 as int) == Some(to));
        lemma_pattern_contains(p, d);
        assert(in_pattern(p, d));
        let i = choose|i: int| 0 <= i < pat.len() && pat[i] == d;
        assert(allowed(b, ep, p, from, d, attack_only));
        assert(leads_to(b, ep, p, from, attack_only, pat[i], to));
    }
}

} // verus!

//! The pseudo-legal move generator: where a piece may go by its movement
//! pattern, the blocking and capture rules and en passant, without regard to
//! whether its own king is left attacked. Castling is not generated here.

use crate::board::{
    at, board_wf, is_square, offset, piece_at, placement, shifted, Board, Color, Piece, PieceRole,
    Square,
};
use vstd::prelude::*;

verus! {

/// The four orthogonal directions, clockwise from "up" (towards row 0).
pub open spec fn straight_dirs() -> Seq<(i8, i8)> {
    seq![(-1i8, 0i8), (0i8, 1i8), (1i8, 0i8), (0i8, -1i8)]
}

/// The four diagonal directions, clockwise from "up-right".
pub open spec fn diagonal_dirs() -> Seq<(i8, i8)> {
    seq![(-1i8, 1i8), (1i8, 1i8), (1i8, -1i8), (-1i8, -1i8)]
}

/// All eight directions, clockwise from "up".
pub open spec fn compass_dirs() -> Seq<(i8, i8)> {
    seq![
        (-1i8, 0i8),
        (-1i8, 1i8),
        (0i8, 1i8),
        (1i8, 1i8),
        (1i8, 0i8),
        (1i8, -1i8),
        (0i8, -1i8),
        (-1i8, -1i8),
    ]
}

/// The eight knight jumps, clockwise from "two up, one right".
pub open spec fn knight_jumps() -> Seq<(i8, i8)> {
    seq![
        (-2i8, 1i8),
        (-1i8, 2i8),
        (1i8, 2i8),
        (2i8, 1i8),
        (2i8, -1i8),
        (1i8, -2i8),
        (-1i8, -2i8),
        (-2i8, -1i8),
    ]
}

/// The pawn's offsets: the two forward diagonals, one step ahead, two steps ahead.
pub open spec fn pawn_steps(c: Color) -> Seq<(i8, i8)> {
    let f = c.forward();
    seq![(f, -1i8), (f, 1i8), (f, 0i8), ((2 * f) as i8, 0i8)]
}

/// `k` in the direction of the sign of `d`: `k`, `-k` or 0.
pub open spec fn spec_scale(d: i8, k: i8) -> i8 {
    if d > 0 {
        k
    } else if d < 0 {
        (0 - k) as i8
    } else {
        0i8
    }
}

#[verifier::when_used_as_spec(spec_scale)]
pub fn scale(d: i8, k: i8) -> (r: i8)
    requires
        k > -128,
    ensures
        r == spec_scale(d, k),
{
    if d > 0 {
        k
    } else if d < 0 {
        0 - k
    } else {
        0
    }
}

/// The directions `dirs`, each taken `k` steps far.
pub open spec fn ring(dirs: Seq<(i8, i8)>, k: i8) -> Seq<(i8, i8)> {
    Seq::new(dirs.len(), |i: int| (spec_scale(dirs[i].0, k), spec_scale(dirs[i].1, k)))
}

/// The offsets along `dirs` up to `reach` steps, nearest first and, at equal
/// distance, in the order of `dirs`.
pub open spec fn rays(dirs: Seq<(i8, i8)>, reach: i8) -> Seq<(i8, i8)>
    decreases reach,
{
    if reach <= 0 {
        Seq::empty()
    } else {
        rays(dirs, (reach - 1) as i8) + ring(dirs, reach)
    }
}

/// The movement pattern of a piece: every offset it could move by on an empty
/// board, in the order in which destinations are listed.
pub open spec fn pattern(p: Piece) -> Seq<(i8, i8)> {
    match p.role {
        PieceRole::Pawn => pawn_steps(p.color),
        PieceRole::Knight => knight_jumps(),
        PieceRole::King => compass_dirs(),
        PieceRole::Rook => rays(straight_dirs(), 7),
        PieceRole::Bishop => rays(diagonal_dirs(), 7),
        PieceRole::Queen => rays(compass_dirs(), 7),
    }
}

/// Length of the offset `d` in king steps.
pub open spec fn span(d: (i8, i8)) -> int {
    let a = if d.0 < 0 {
        -(d.0 as int)
    } else {
        d.0 as int
    };
    let b = if d.1 < 0 {
        -(d.1 as int)
    } else {
        d.1 as int
    };
    if a < b {
        b
    } else {
        a
    }
}

/// The square `j` steps from `from` in the direction of `d`.
pub open spec fn toward(from: Square, d: (i8, i8), j: i8) -> Option<Square> {
    shifted(from, spec_scale(d.0, j) as int, spec_scale(d.1, j) as int)
}

/// The square `j` steps from `from` in the direction of `d` holds no piece.
pub open spec fn passable(b: Map<Square, Piece>, from: Square, d: (i8, i8), j: i8) -> bool {
    match toward(from, d, j) {
        Some(s) => at(b, s) is None,
        None => true,
    }
}

/// Every square strictly between `from` and `from + d` is empty.
pub open spec fn path_clear(b: Map<Square, Piece>, from: Square, d: (i8, i8)) -> bool {
    forall|j: i8| 1 <= j < span(d) ==> #[trigger] passable(b, from, d, j)
}

/// `sq` holds a piece of colour `c`.
pub open spec fn friendly(b: Map<Square, Piece>, sq: Square, c: Color) -> bool {
    at(b, sq) matches Some(q) && q.color == c
}

/// Whether the piece `p` standing on `from` may move by the offset `d` of its
/// pattern: the target is on the board and not occupied by a piece of the
/// same colour, and
/// - a pawn takes a forward diagonal only onto an occupied square or the en
///   passant square, steps ahead only onto an empty square, and takes the
///   double step only if it has not moved and both squares are empty; with
///   `attack_only` it does not step ahead at all;
/// - a rook, bishop or queen needs every square on the way to be empty.
pub open spec fn allowed(
    b: Map<Square, Piece>,
    ep: Option<Square>,
    p: Piece,
    from: Square,
    d: (i8, i8),
    attack_only: bool,
) -> bool {
    match shifted(from, d.0 as int, d.1 as int) {
        None => false,
        Some(to) => !friendly(b, to, p.color) && match p.role {
            PieceRole::Pawn => {
                if d.1 != 0 {
                    at(b, to) is Some || ep == Some(to)
                } else if d.0 == p.color.forward() {
                    !attack_only && at(b, to) is None
                } else {
                    !attack_only && !p.has_moved && at(b, to) is None && path_clear(b, from, d)
                }
            },
            PieceRole::Knight => true,
            PieceRole::King => true,
            _ => path_clear(b, from, d),
        },
    }
}

/// The targets of the offsets `offs` that `p` may move by, in the order of `offs`.
pub open spec fn targets(
    b: Map<Square, Piece>,
    ep: Option<Square>,
    p: Piece,
    from: Square,
    attack_only: bool,
    offs: Seq<(i8, i8)>,
) -> Seq<Square>
    decreases offs.len(),
{
    if offs.len() == 0 {
        Seq::empty()
    } else {
        let rest = targets(b, ep, p, from, attack_only, offs.drop_last());
        let d = offs.last();
        if allowed(b, ep, p, from, d, attack_only) {
            rest.push(shifted(from, d.0 as int, d.1 as int)->0)
        } else {
            rest
        }
    }
}

/// The pseudo-legal destinations of the piece `p` standing on `from`, castling
/// excluded. With `attack_only` the list holds exactly the squares that the
/// piece threatens.
pub open spec fn pseudo_moves(
    b: Map<Square, Piece>,
    ep: Option<Square>,
    p: Piece,
    from: Square,
    attack_only: bool,
) -> Seq<Square> {
    targets(b, ep, p, from, attack_only, pattern(p))
}

/// `p` may move by `d`, and that leads to `to`.
pub open spec fn leads_to(
    b: Map<Square, Piece>,
    ep: Option<Square>,
    p: Piece,
    from: Square,
    attack_only: bool,
    d: (i8, i8),
    to: Square,
) -> bool {
    allowed(b, ep, p, from, d, attack_only) && shifted(from, d.0 as int, d.1 as int) == Some(to)
}

/// A square is among the targets exactly when one of the offsets leads to it.
pub proof fn lemma_targets_contains(
    b: Map<Square, Piece>,
    ep: Option<Square>,
    p: Piece,
    from: Square,
    attack_only: bool,
    offs: Seq<(i8, i8)>,
    to: Square,
)
    ensures
        targets(b, ep, p, from, attack_only, offs).contains(to) <==> exists|i: int|
            0 <= i < offs.len() && leads_to(b, ep, p, from, attack_only, #[trigger] offs[i], to),
    decreases offs.len(),
{
    let all = targets(b, ep, p, from, attack_only, offs);
    if offs.len() > 0 {
        let front = offs.drop_last();
        let rest = targets(b, ep, p, from, attack_only, front);
        let d = offs.last();
        lemma_targets_contains(b, ep, p, from, attack_only, front, to);
        if all.contains(to) {
            let k = choose|k: int| 0 <= k < all.len() && all[k] == to;
            if k < rest.len() {
                assert(rest[k] == to);
                assert(rest.contains(to));
                let i = choose|i: int|
                    0 <= i < front.len() && leads_to(
                        b,
                        ep,
                        p,
                        from,
                        attack_only,
                        #[trigger] front[i],
                        to,
                    );
                assert(offs[i] == front[i]);
            } else {
                assert(leads_to(b, ep, p, from, attack_only, offs[offs.len() - 1], to));
            }
        }
        if exists|i: int|
            0 <= i < offs.len() && leads_to(b, ep, p, from, attack_only, #[trigger] offs[i], to) {
            let i = choose|i: int|
                0 <= i < offs.len() && leads_to(
                    b,
                    ep,
                    p,
                    from,
                    attack_only,
                    #[trigger] offs[i],
                    to,
                );
            if i < front.len() {
                assert(front[i] == offs[i]);
                assert(rest.contains(to));
                let k = choose|k: int| 0 <= k < rest.len() && rest[k] == to;
                assert(all[k] == to);
            } else {
                assert(all[all.len() - 1] == to);
            }
        }
    }
}

fn span_of(d: (i8, i8)) -> (n: i16)
    ensures
        n == span(d),
{
    let a: i16 = if d.0 < 0 {
        -(d.0 as i16)
    } else {
        d.0 as i16
    };
    let b: i16 = if d.1 < 0 {
        -(d.1 as i16)
    } else {
        d.1 as i16
    };
    if a < b {
        b
    } else {
        a
    }
}

fn path_is_clear(board: &Board, from: Square, d: (i8, i8)) -> (r: bool)
    requires
        board_wf(board),
    ensures
        r == path_clear(placement(board), from, d),
{
    let n: i16 = span_of(d);
    let mut j: i16 = 1;
    while j < n
        invariant
            board_wf(board),
            n == span(d),
            1 <= j,
            j <= n || n < 1,
            forall|i: i8| 1 <= i < j ==> #[trigger] passable(placement(board), from, d, i),
        decreases n - j,
    {
        let k: i8 = j as i8;
        match offset(from, scale(d.0, k), scale(d.1, k)) {
            Some(s) => {
                if piece_at(board, s).is_some() {
                    assert(!passable(placement(board), from, d, k));
                    return false;
                }
            },
            None => {},
        }
        j += 1;
    }
    true
}

fn is_allowed(
    board: &Board,
    ep: Option<Square>,
    p: Piece,
    from: Square,
    d: (i8, i8),
    attack_only: bool,
) -> (r: bool)
    requires
        board_wf(board),
    ensures
        r == allowed(placement(board), ep, p, from, d, attack_only),
{
    match offset(from, d.0, d.1) {
        None => false,
        Some(to) => {
            let target = piece_at(board, to);
            let own = match target {
                Some(q) => q.color == p.color,
                None => false,
            };
            if own {
                return false;
            }
            match p.role {
                PieceRole::Pawn => {
                    if d.1 != 0 {
                        target.is_some() || is_square(ep, to)
                    } else if d.0 == p.color.forward() {
                        !attack_only && target.is_none()
                    } else {
                        !attack_only && !p.has_moved && target.is_none() && path_is_clear(
                            board,
                            from,
                            d,
                        )
                    }
                },
                PieceRole::Knight => true,
                PieceRole::King => true,
                _ => path_is_clear(board, from, d),
            }
        },
    }
}

fn rays_of(dirs: &Vec<(i8, i8)>) -> (v: Vec<(i8, i8)>)
    ensures
        v@ == rays(dirs@, 7),
{
    let mut v: Vec<(i8, i8)> = Vec::new();
    let mut k: i8 = 1;
    assert(rays(dirs@, 0) =~= Seq::empty());
    while k <= 7
        invariant
            1 <= k <= 8,
            v@ == rays(dirs@, (k - 1) as i8),
        decreases 8 - k,
    {
        let mut i: usize = 0;
        while i < dirs.len()
            invariant
                1 <= k <= 7,
                i <= dirs.len(),
                v@ == rays(dirs@, (k - 1) as i8) + ring(dirs@, k).take(i as int),
            decreases dirs.len() - i,
        {
            let d = dirs[i];
            v.push((scale(d.0, k), scale(d.1, k)));
            proof {
                assert(ring(dirs@, k).take(i + 1) =~= ring(dirs@, k).take(i as int).push(
                    ring(dirs@, k)[i as int],
                ));
                assert(v@ =~= rays(dirs@, (k - 1) as i8) + ring(dirs@, k).take(i + 1));
            }
            i += 1;
        }
        proof {
            assert(ring(dirs@, k).take(dirs@.len() as int) =~= ring(dirs@, k));
        }
        k += 1;
    }
    v
}

fn pattern_of(p: Piece) -> (v: Vec<(i8, i8)>)
    ensures
        v@ == pattern(p),
{
    match p.role {
        PieceRole::Pawn => {
            let f: i8 = p.color.forward();
            let v = vec![(f, -1i8), (f, 1i8), (f, 0i8), (2 * f, 0i8)];
            assert(v@ =~= pawn_steps(p.color));
            v
        },
        PieceRole::Knight => {
            let v = vec![
                (-2i8, 1i8),
                (-1i8, 2i8),
                (1i8, 2i8),
                (2i8, 1i8),
                (2i8, -1i8),
                (1i8, -2i8),
                (-1i8, -2i8),
                (-2i8, -1i8),
            ];
            assert(v@ =~= knight_jumps());
            v
        },
        PieceRole::King => compass(),
        PieceRole::Rook => {
            let dirs = vec![(-1i8, 0i8), (0i8, 1i8), (1i8, 0i8), (0i8, -1i8)];
            assert(dirs@ =~= straight_dirs());
            rays_of(&dirs)
        },
        PieceRole::Bishop => {
            let dirs = vec![(-1i8, 1i8), (1i8, 1i8), (1i8, -1i8), (-1i8, -1i8)];
            assert(dirs@ =~= diagonal_dirs());
            rays_of(&dirs)
        },
        PieceRole::Queen => {
            let dirs = compass();
            rays_of(&dirs)
        },
    }
}

fn compass() -> (v: Vec<(i8, i8)>)
    ensures
        v@ == compass_dirs(),
{
    let v = vec![
        (-1i8, 0i8),
        (-1i8, 1i8),
        (0i8, 1i8),
        (1i8, 1i8),
        (1i8, 0i8),
        (1i8, -1i8),
        (0i8, -1i8),
        (-1i8, -1i8),
    ];
    assert(v@ =~= compass_dirs());
    v
}

/// Lists the pseudo-legal destinations of the piece `p` standing on `from`,
/// without castling. `ep` is the en passant square, if any.
pub fn pseudo_legal_moves(
    board: &Board,
    ep: Option<Square>,
    p: Piece,
    from: Square,
    attack_only: bool,
) -> (v: Vec<Square>)
    requires
        board_wf(board),
    ensures
        v@ == pseudo_moves(placement(board), ep, p, from, attack_only),
{
    let pat = pattern_of(p);
    let mut v: Vec<Square> = Vec::new();
    let mut i: usize = 0;
    while i < pat.len()
        invariant
            board_wf(board),
            i <= pat.len(),
            pat@ == pattern(p),
            v@ == targets(placement(board), ep, p, from, attack_only, pat@.take(i as int)),
        decreases pat.len() - i,
    {
        let d = pat[i];
        proof {
            assert(pat@.take(i + 1).drop_last() =~= pat@.take(i as int));
            assert(pat@.take(i + 1).last() == d);
        }
        if is_allowed(board, ep, p, from, d, attack_only) {
            match offset(from, d.0, d.1) {
                Some(to) => {
                    v.push(to);
                },
                None => {},
            }
        }
        i += 1;
    }
    proof {
        assert(pat@.take(pat@.len() as int) =~= pat@);
    }
    v
}

} // verus!

//! Laws of the rules: what holds of every position.

use crate::board::{at, shifted, Color, Piece, PieceRole, Square};
use crate::check::{in_check, is_first_king, is_king_of, threatens};
use crate::geometry::{lemma_rays_contains, step};
use crate::legal::{
    available, can_castle, candidates, castle_moves, home_file, home_square, is_promotion,
    keeps_king_safe, legal_moves, lemma_candidates_contains, lemma_safe_among_contains,
    position_after, safe_among,
};
use crate::moves::{
    allowed, compass_dirs, diagonal_dirs, leads_to, lemma_targets_contains, passable, path_clear,
    pattern, pseudo_moves, rays, ring, straight_dirs, targets, toward,
};
use vstd::seq_lib::lemma_no_dup_in_concat;
use vstd::prelude::*;

verus! {

/// Two cells look alike to the enemies of `c`: both are empty, or both hold a
/// piece of the same colour, the same piece if it is not of colour `c`, and a
/// king in both or in neither.
pub open spec fn alike(x: Option<Piece>, y: Option<Piece>, c: Color) -> bool {
    match (x, y) {
        (None, None) => true,
        (Some(p), Some(q)) => p.color == q.color && (p.color != c ==> p == q) && ((p.role
            == PieceRole::King) == (q.role == PieceRole::King)),
        _ => false,
    }
}

/// The positions `b1` and `b2` look alike on `s` to the enemies of `c`.
pub open spec fn alike_on(b1: Map<Square, Piece>, b2: Map<Square, Piece>, c: Color, s: Square) -> bool {
    alike(at(b1, s), at(b2, s), c)
}

proof fn lemma_allowed_alike(
    b1: Map<Square, Piece>,
    b2: Map<Square, Piece>,
    c: Color,
    ep: Option<Square>,
    p: Piece,
    from: Square,
    d: (i8, i8),
    attack_only: bool,
)
    requires
        forall|s: Square| #[trigger] alike_on(b1, b2, c, s),
    ensures
        allowed(b1, ep, p, from, d, attack_only) == allowed(b2, ep, p, from, d, attack_only),
{
    match shifted(from, d.0 as int, d.1 as int) {
        None => {},
        Some(to) => {
            assert(alike_on(b1, b2, c, to));
            assert forall|j: i8| passable(b1, from, d, j) == passable(b2, from, d, j) by {
                match toward(from, d, j) {
                    Some(s) => {
                        assert(alike_on(b1, b2, c, s));
                    },
                    None => {},
                }
            }
            assert(path_clear(b1, from, d) == path_clear(b2, from, d));
        },
    }
}

proof fn lemma_targets_alike(
    b1: Map<Square, Piece>,
    b2: Map<Square, Piece>,
    c: Color,
    ep: Option<Square>,
    p: Piece,
    from: Square,
    attack_only: bool,
    offs: Seq<(i8, i8)>,
)
    requires
        forall|s: Square| #[trigger] alike_on(b1, b2, c, s),
    ensures
        targets(b1, ep, p, from, attack_only, offs) == targets(b2, ep, p, from, attack_only, offs),
    decreases offs.len(),
{
    if offs.len() > 0 {
        lemma_targets_alike(b1, b2, c, ep, p, from, attack_only, offs.drop_last());
        lemma_allowed_alike(b1, b2, c, ep, p, from, offs.last(), attack_only);
    }
}

/// Whether a side is in check depends on its own pieces only through the
/// squares they occupy and the square of its king: two positions that look
/// alike to the enemies of `c` agree on whether `c` is in check.
pub proof fn lemma_in_check_alike(b1: Map<Square, Piece>, b2: Map<Square, Piece>, c: Color)
    requires
        forall|s: Square| #[trigger] alike_on(b1, b2, c, s),
    ensures
        in_check(b1, c) == in_check(b2, c),
{
    assert forall|s: Square|
        #![trigger is_king_of(b1, s, c)]
        #![trigger is_king_of(b2, s, c)]
        is_king_of(b1, s, c) == is_king_of(b2, s, c) by {
        assert(alike_on(b1, b2, c, s));
    }
    assert forall|k: Square|
        #![trigger is_first_king(b1, c, k)]
        #![trigger is_first_king(b2, c, k)]
        is_first_king(b1, c, k) == is_first_king(b2, c, k) by {
        assert(is_king_of(b1, k, c) == is_king_of(b2, k, c));
    }
    assert forall|e: Square, k: Square|
        #![trigger threatens(b1, e, k, c)]
        #![trigger threatens(b2, e, k, c)]
        threatens(b1, e, k, c) == threatens(b2, e, k, c) by {
        assert(alike_on(b1, b2, c, e));
        match at(b1, e) {
            Some(p) => {
                lemma_targets_alike(b1, b2, c, None, p, e, true, pattern(p));
            },
            None => {},
        }
    }
    if in_check(b1, c) {
        let (k, e) = choose|k: Square, e: Square|
            is_first_king(b1, c, k) && #[trigger] threatens(b1, e, k, c);
        assert(is_first_king(b2, c, k) && threatens(b2, e, k, c));
    }
    if in_check(b2, c) {
        let (k, e) = choose|k: Square, e: Square|
            is_first_king(b2, c, k) && #[trigger] threatens(b2, e, k, c);
        assert(is_first_king(b1, c, k) && threatens(b1, e, k, c));
    }
}

/// No legal move exposes the mover's own king. If `to` is a legal destination
/// of the piece on `from`, then after the move the side of that piece is not in
/// check, whatever role other than king a promoting pawn takes.
pub proof fn lemma_legal_move_never_self_check(
    b: Map<Square, Piece>,
    ep: Option<Square>,
    from: Square,
    to: Square,
    landed: PieceRole,
)
    requires
        legal_moves(b, ep, from).contains(to),
        at(b, from) matches Some(p) ==> landed == p.role || (is_promotion(p, to) && landed
            != PieceRole::King),
    ensures
        at(b, from) matches Some(p) && !in_check(position_after(b, ep, from, to, landed), p.color),
{
    lemma_safe_among_contains(b, ep, from, candidates(b, ep, from, false, true), to);
    let p = at(b, from)->0;
    if landed != p.role {
        let b1 = position_after(b, ep, from, to, p.role);
        let b2 = position_after(b, ep, from, to, landed);
        assert forall|s: Square| #[trigger] alike_on(b1, b2, p.color, s) by {}
        lemma_in_check_alike(b1, b2, p.color);
    }
}

/// A king's step changes its column by one at most: a square two columns
/// away is not among its pseudo-legal destinations.
proof fn lemma_king_step_stays_near(
    b: Map<Square, Piece>,
    ep: Option<Square>,
    p: Piece,
    from: Square,
    to: Square,
    attack_only: bool,
)
    requires
        p.role == PieceRole::King,
        to.col == from.col + 2 || to.col + 2 == from.col,
    ensures
        !pseudo_moves(b, ep, p, from, attack_only).contains(to),
{
    lemma_targets_contains(b, ep, p, from, attack_only, pattern(p), to);
    assert forall|i: int| 0 <= i < compass_dirs().len() implies !leads_to(
        b,
        ep,
        p,
        from,
        attack_only,
        #[trigger] compass_dirs()[i],
        to,
    ) by {
        let d = compass_dirs()[i];
        assert(-1 <= d.1 <= 1);
    }
}

/// When castling is legal. A king of colour `c` on its starting square may move
/// two columns towards a wing exactly when
/// - neither it nor the rook in that corner has moved,
/// - every square between them is empty,
/// - it is not in check where it stands, nor would be on the square it crosses
///   or on the one it lands on (these make up [`can_castle`]), and
/// - the finished move leaves it unattacked.
/// Failing any one of these, the castling square is not a legal destination.
pub proof fn lemma_castling_is_legal_iff(
    b: Map<Square, Piece>,
    ep: Option<Square>,
    c: Color,
    kingside: bool,
)
    requires
        at(b, home_square(c)) matches Some(k) && k.role == PieceRole::King && k.color == c,
    ensures
        legal_moves(b, ep, home_square(c)).contains(
            home_file(
                c,
                if kingside {
                    6
                } else {
                    2
                },
            ),
        ) <==> can_castle(b, c, kingside) && keeps_king_safe(
            b,
            ep,
            home_square(c),
            home_file(
                c,
                if kingside {
                    6
                } else {
                    2
                },
            ),
        ),
{
    let from = home_square(c);
    let to = home_file(
        c,
        if kingside {
            6
        } else {
            2
        },
    );
    let p = at(b, from)->0;
    lemma_safe_among_contains(b, ep, from, candidates(b, ep, from, false, true), to);
    lemma_candidates_contains(b, ep, from, false, true, to);
    lemma_king_step_stays_near(b, ep, p, from, to, false);
    let wings = castle_moves(b, p, from);
    if wings.contains(to) {
        let k = choose|k: int| 0 <= k < wings.len() && wings[k] == to;
        assert(can_castle(b, c, kingside));
    }
    if can_castle(b, c, kingside) {
        if kingside {
            assert(wings[wings.len() - 1] == to);
        } else {
            assert(wings[0] == to);
        }
    }
}

/// A king moves two columns only by castling. If such a move is legal, the
/// king stands on its starting square, lands on the g-file or the c-file of its
/// back rank, and all conditions of castling on that wing hold.
pub proof fn lemma_two_column_king_move_is_castling(
    b: Map<Square, Piece>,
    ep: Option<Square>,
    from: Square,
    to: Square,
)
    requires
        at(b, from) matches Some(p) && p.role == PieceRole::King,
        to.col == from.col + 2 || to.col + 2 == from.col,
        legal_moves(b, ep, from).contains(to),
    ensures
        at(b, from) matches Some(p) && from == home_square(p.color) && to == home_file(
            p.color,
            if to.col > from.col {
                6
            } else {
                2
            },
        ) && can_castle(b, p.color, to.col > from.col),
{
    let p = at(b, from)->0;
    lemma_safe_among_contains(b, ep, from, candidates(b, ep, from, false, true), to);
    lemma_candidates_contains(b, ep, from, false, true, to);
    lemma_king_step_stays_near(b, ep, p, from, to, false);
    let wings = castle_moves(b, p, from);
    let k = choose|k: int| 0 <= k < wings.len() && wings[k] == to;
    assert(wings[k] == to);
}

/// The directions `dirs` are single king steps.
pub open spec fn unit_dirs(dirs: Seq<(i8, i8)>) -> bool {
    forall|j: int|
        0 <= j < dirs.len() ==> -1 <= (#[trigger] dirs[j]).0 <= 1 && -1 <= dirs[j].1 <= 1 && (
        dirs[j].0 != 0 || dirs[j].1 != 0)
}

proof fn lemma_rays_no_duplicates(dirs: Seq<(i8, i8)>, reach: i8)
    requires
        unit_dirs(dirs),
        dirs.no_duplicates(),
        0 <= reach <= 100,
    ensures
        rays(dirs, reach).no_duplicates(),
    decreases reach,
{
    if reach > 0 {
        let less = (reach - 1) as i8;
        let prev = rays(dirs, less);
        let last = ring(dirs, reach);
        lemma_rays_no_duplicates(dirs, less);
        assert forall|i: int, j: int| 0 <= i < last.len() && 0 <= j < last.len() && i
            != j implies last[i] != last[j] by {
            assert(dirs[i] != dirs[j]);
            assert(last[i] == step(dirs, i, reach));
            assert(last[j] == step(dirs, j, reach));
            assert(dirs[i].0 != dirs[j].0 || dirs[i].1 != dirs[j].1);
        }
        assert forall|i: int, j: int| 0 <= i < prev.len() && 0 <= j < last.len() implies prev[i]
            != last[j] by {
            if prev[i] == last[j] {
                let d = prev[i];
                assert(prev.contains(d));
                lemma_rays_contains(dirs, less, d);
                let (k, j2) = choose|k: i8, j2: int|
                    1 <= k <= less && 0 <= j2 < dirs.len() && d == #[trigger] step(dirs, j2, k);
                assert(d == step(dirs, j2, k));
                assert(d == step(dirs, j, reach));
                assert(-1 <= dirs[j2].0 <= 1 && (dirs[j2].0 != 0 || dirs[j2].1 != 0));
                assert(-1 <= dirs[j].0 <= 1 && (dirs[j].0 != 0 || dirs[j].1 != 0));
            }
        }
        lemma_no_dup_in_concat(prev, last);
    }
}

/// No offset occurs twice in the movement pattern of a piece.
pub proof fn lemma_pattern_no_duplicates(p: Piece)
    ensures
        pattern(p).no_duplicates(),
{
    let pat = pattern(p);
    match p.role {
        PieceRole::Rook => {
            let dirs = straight_dirs();
            assert(dirs[0] == (-1i8, 0i8) && dirs[1] == (0i8, 1i8) && dirs[2] == (1i8, 0i8)
                && dirs[3] == (0i8, -1i8));
            lemma_rays_no_duplicates(dirs, 7);
        },
        PieceRole::Bishop => {
            let dirs = diagonal_dirs();
            assert(dirs[0] == (-1i8, 1i8) && dirs[1] == (1i8, 1i8) && dirs[2] == (1i8, -1i8)
                && dirs[3] == (-1i8, -1i8));
            lemma_rays_no_duplicates(dirs, 7);
        },
        PieceRole::Queen => {
            let dirs = compass_dirs();
            assert(dirs[0] == (-1i8, 0i8) && dirs[1] == (-1i8, 1i8) && dirs[2] == (0i8, 1i8)
                && dirs[3] == (1i8, 1i8) && dirs[4] == (1i8, 0i8) && dirs[5] == (1i8, -1i8)
                && dirs[6] == (0i8, -1i8) && dirs[7] == (-1i8, -1i8));
            lemma_rays_no_duplicates(dirs, 7);
        },
        PieceRole::King => {
            assert(pat[0] == (-1i8, 0i8) && pat[1] == (-1i8, 1i8) && pat[2] == (0i8, 1i8) && pat[3]
                == (1i8, 1i8) && pat[4] == (1i8, 0i8) && pat[5] == (1i8, -1i8) && pat[6] == (
                0i8,
                -1i8,
            ) && pat[7] == (-1i8, -1i8));
        },
        PieceRole::Knight => {
            assert(pat[0] == (-2i8, 1i8) && pat[1] == (-1i8, 2i8) && pat[2] == (1i8, 2i8) && pat[3]
                == (2i8, 1i8) && pat[4] == (2i8, -1i8) && pat[5] == (1i8, -2i8) && pat[6] == (
                -1i8,
                -2i8,
            ) && pat[7] == (-2i8, -1i8));
        },
        PieceRole::Pawn => {
            let f = p.color.forward();
            assert(pat[0] == (f, -1i8) && pat[1] == (f, 1i8) && pat[2] == (f, 0i8) && pat[3] == (
                (2 * f) as i8,
                0i8,
            ));
        },
    }
}

proof fn lemma_targets_no_duplicates(
    b: Map<Square, Piece>,
    ep: Option<Square>,
    p: Piece,
    from: Square,
    attack_only: bool,
    offs: Seq<(i8, i8)>,
)
    requires
        offs.no_duplicates(),
    ensures
        targets(b, ep, p, from, attack_only, offs).no_duplicates(),
    decreases offs.len(),
{
    if offs.len() > 0 {
        let front = offs.drop_last();
        let d = offs.last();
        assert forall|i: int, j: int| 0 <= i < front.len() && 0 <= j < front.len() && i
            != j implies front[i] != front[j] by {
            assert(front[i] == offs[i] && front[j] == offs[j]);
        }
        lemma_targets_no_duplicates(b, ep, p, from, attack_only, front);
        let rest = targets(b, ep, p, from, attack_only, front);
        if allowed(b, ep, p, from, d, attack_only) {
            let x = shifted(from, d.0 as int, d.1 as int)->0;
            lemma_targets_contains(b, ep, p, from, attack_only, front, x);
            if rest.contains(x) {
                let i = choose|i: int|
                    0 <= i < front.len() && leads_to(
                        b,
                        ep,
                        p,
                        from,
                        attack_only,
                        #[trigger] front[i],
                        x,
                    );
                assert(front[i] == offs[i]);
                assert(offs[i].0 == d.0 && offs[i].1 == d.1);
                assert(offs[i] == offs[offs.len() - 1]);
                assert(false);
            }
            let all = rest.push(x);
            assert forall|i: int, j: int| 0 <= i < all.len() && 0 <= j < all.len() && i
                != j implies all[i] != all[j] by {
                if i == rest.len() {
                    if all[j] == x {
                        assert(rest[j] == x);
                    }
                } else if j == rest.len() {
                    if all[i] == x {
                        assert(rest[i] == x);
                    }
                }
            }
        }
    }
}

proof fn lemma_safe_among_no_duplicates(
    b: Map<Square, Piece>,
    ep: Option<Square>,
    from: Square,
    cands: Seq<Square>,
)
    requires
        cands.no_duplicates(),
    ensures
        safe_among(b, ep, from, cands).no_duplicates(),
    decreases cands.len(),
{
    if cands.len() > 0 {
        let front = cands.drop_last();
        let x = cands.last();
        assert forall|i: int, j: int| 0 <= i < front.len() && 0 <= j < front.len() && i
            != j implies front[i] != front[j] by {
            assert(front[i] == cands[i] && front[j] == cands[j]);
        }
        lemma_safe_among_no_duplicates(b, ep, from, front);
        let rest = safe_among(b, ep, from, front);
        lemma_safe_among_contains(b, ep, from, front, x);
        if rest.contains(x) {
            let i = choose|i: int| 0 <= i < front.len() && front[i] == x;
            assert(cands[i] == cands[cands.len() - 1]);
            assert(false);
        }
        if keeps_king_safe(b, ep, from, x) {
            let all = rest.push(x);
            assert forall|i: int, j: int| 0 <= i < all.len() && 0 <= j < all.len() && i
                != j implies all[i] != all[j] by {
                if i == rest.len() {
                    if all[j] == x {
                        assert(rest[j] == x);
                    }
                } else if j == rest.len() {
                    if all[i] == x {
                        assert(rest[i] == x);
                    }
                }
            }
        }
    }
}

/// The destinations of a piece form a set: no square is listed twice,
/// whichever of the lists is asked for.
pub proof fn lemma_available_no_duplicates(
    b: Map<Square, Piece>,
    ep: Option<Square>,
    from: Square,
    attack_only: bool,
    ignore_check: bool,
)
    ensures
        available(b, ep, from, attack_only, ignore_check).no_duplicates(),
{
    match at(b, from) {
        None => {},
        Some(p) => {
            let pseudo = pseudo_moves(b, ep, p, from, attack_only);
            lemma_pattern_no_duplicates(p);
            lemma_targets_no_duplicates(b, ep, p, from, attack_only, pattern(p));
            if ignore_check {
                assert(pseudo + Seq::<Square>::empty() =~= pseudo);
            } else {
                let wings = castle_moves(b, p, from);
                assert(wings.no_duplicates());
                assert forall|i: int, j: int|
                    0 <= i < pseudo.len() && 0 <= j < wings.len() implies pseudo[i]
                    != wings[j] by {
                    lemma_king_step_stays_near(b, ep, p, from, wings[j], attack_only);
                    assert(pseudo.contains(pseudo[i]));
                }
                lemma_no_dup_in_concat(pseudo, wings);
                lemma_safe_among_no_duplicates(b, ep, from, pseudo + wings);
            }
        },
    }
}

/// The legal destinations of a piece form a set: no square is listed twice.
pub proof fn lemma_legal_moves_no_duplicates(
    b: Map<Square, Piece>,
    ep: Option<Square>,
    from: Square,
)
    ensures
        legal_moves(b, ep, from).no_duplicates(),
{
    lemma_available_no_duplicates(b, ep, from, false, false);
}

} // verus!

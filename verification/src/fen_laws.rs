//! Laws of position descriptions: what a game writes can be read back, and
//! reading it back gives the same game as far as a description can tell.

use crate::board::{at, on_board, Color, Piece, PieceRole, Square};
use crate::check::{is_king_of, is_only_king, sole_king};
use crate::fen::{
    backed, describes, described_cell, described_position, ep_of, ep_text, fen_text, is_right_letter, kind_at,
    letter_kind, piece_letter, placement_valid, rank_cells, rank_text, ranks_text, right_text,
    rights_of, rights_text, rights_valid, run_text, token_cells, turn_of, turn_text, well_formed,
};
use crate::game::Game;
use crate::legal::{castling_right, corner, home_square};
use crate::notation::{digit_char, lemma_square_name_round_trip};
use crate::text::{decimal, digit_value, is_digit, lemma_decimal_round_trip, parsed_u64, split};
use vstd::prelude::*;

verus! {

/// Role and colour of what a cell holds.
pub open spec fn kind_of(cell: Option<Piece>) -> Option<(PieceRole, Color)> {
    match cell {
        Some(p) => Some((p.role, p.color)),
        None => None,
    }
}

/// A text always has at least one field.
pub proof fn lemma_split_nonempty(s: Seq<char>, sep: char)
    ensures
        split(s, sep).len() >= 1,
    decreases s.len(),
{
    if s.len() > 0 {
        lemma_split_nonempty(s.drop_last(), sep);
    }
}

/// A text without separator is its own single field.
pub proof fn lemma_split_plain(s: Seq<char>, sep: char)
    requires
        !s.contains(sep),
    ensures
        split(s, sep) == seq![s],
    decreases s.len(),
{
    if s.len() == 0 {
        assert(s =~= Seq::<char>::empty());
        assert(split(s, sep) =~= seq![s]);
    } else {
        let front = s.drop_last();
        assert(s.contains(s.last()));
        if front.contains(sep) {
            let k = choose|k: int| 0 <= k < front.len() && front[k] == sep;
            assert(s[k] == sep);
        }
        lemma_split_plain(front, sep);
        assert(front.push(s.last()) =~= s);
        assert(split(s, sep) =~= seq![s]);
    }
}

/// The fields of two texts joined by a separator are the fields of the first
/// followed by the fields of the second.
pub proof fn lemma_split_join(x: Seq<char>, y: Seq<char>, sep: char)
    ensures
        split(x + seq![sep] + y, sep) == split(x, sep) + split(y, sep),
    decreases y.len(),
{
    let s = x + seq![sep] + y;
    if y.len() == 0 {
        assert(s.drop_last() =~= x);
        assert(s.last() == sep);
        assert(split(s, sep) =~= split(x, sep) + split(y, sep));
    } else {
        let y0 = y.drop_last();
        lemma_split_join(x, y0, sep);
        lemma_split_nonempty(y0, sep);
        assert(s.drop_last() =~= x + seq![sep] + y0);
        assert(s.last() == y.last());
        let front = split(s.drop_last(), sep);
        if y.last() == sep {
            assert(split(s, sep) =~= split(x, sep) + split(y, sep));
        } else {
            assert(front.last() == split(y0, sep).last());
            assert(split(s, sep) =~= split(x, sep) + split(y, sep));
        }
    }
}

/// A character that two texts lack is lacking in their concatenation.
pub proof fn lemma_concat_lacks(a: Seq<char>, b: Seq<char>, c: char)
    requires
        !a.contains(c),
        !b.contains(c),
    ensures
        !(a + b).contains(c),
{
    let s = a + b;
    if s.contains(c) {
        let k = choose|k: int| 0 <= k < s.len() && s[k] == c;
        if k < a.len() {
            assert(a[k] == c);
        } else {
            assert(b[k - a.len()] == c);
        }
    }
}

/// Joining rank texts joins the cells they stand for.
pub open spec fn join_cells(
    a: Option<Seq<Option<(PieceRole, Color)>>>,
    b: Option<Seq<Option<(PieceRole, Color)>>>,
) -> Option<Seq<Option<(PieceRole, Color)>>> {
    match (a, b) {
        (Some(x), Some(y)) => Some(x + y),
        _ => None,
    }
}

pub proof fn lemma_rank_cells_concat(x: Seq<char>, y: Seq<char>)
    ensures
        rank_cells(x + y) == join_cells(rank_cells(x), rank_cells(y)),
    decreases y.len(),
{
    if y.len() == 0 {
        assert(x + y =~= x);
        match rank_cells(x) {
            Some(a) => {
                assert(a + Seq::<Option<(PieceRole, Color)>>::empty() =~= a);
            },
            None => {},
        }
    } else {
        let y0 = y.drop_last();
        lemma_rank_cells_concat(x, y0);
        assert((x + y).drop_last() =~= x + y0);
        assert((x + y).last() == y.last());
        match (rank_cells(x), rank_cells(y0), token_cells(y.last())) {
            (Some(a), Some(b), Some(t)) => {
                assert((a + b) + t =~= a + (b + t));
            },
            _ => {},
        }
    }
}

/// A text that stands for cells holds digits and piece letters only.
pub proof fn lemma_rank_cells_chars(text: Seq<char>, i: int)
    requires
        rank_cells(text) is Some,
        0 <= i < text.len(),
    ensures
        token_cells(text[i]) is Some,
    decreases text.len(),
{
    if i < text.len() - 1 {
        lemma_rank_cells_chars(text.drop_last(), i);
    }
}

/// A run of `n` empty cells.
pub open spec fn gap(n: nat) -> Seq<Option<(PieceRole, Color)>> {
    Seq::new(n, |i: int| None)
}

/// Role and colour of the cells of row `row` from column `col` on.
pub open spec fn row_kinds(b: Map<Square, Piece>, row: u8, col: u8) -> Seq<
    Option<(PieceRole, Color)>,
> {
    Seq::new((8 - col) as nat, |i: int| kind_of(at(b, Square { row, col: (col + i) as u8 })))
}

/// A piece letter stands for the piece it was written for.
pub proof fn lemma_letter_round_trip(role: PieceRole, color: Color)
    ensures
        letter_kind(piece_letter(role, color)) == Some((role, color)),
        !is_digit(piece_letter(role, color)),
{
}

/// A single character stands for the cells of its token.
pub proof fn lemma_single_token(c: char)
    ensures
        rank_cells(seq![c]) == token_cells(c),
{
    let t = seq![c];
    assert(t.drop_last() =~= Seq::<char>::empty());
    assert(rank_cells(Seq::<char>::empty()) == Some(Seq::<Option<(PieceRole, Color)>>::empty()));
    match token_cells(c) {
        Some(cells) => {
            assert(Seq::<Option<(PieceRole, Color)>>::empty() + cells =~= cells);
        },
        None => {},
    }
}

proof fn lemma_run_text_cells(run: nat)
    requires
        run <= 8,
    ensures
        rank_cells(run_text(run)) == Some(gap(run)),
{
    if run == 0 {
        assert(gap(0) =~= Seq::<Option<(PieceRole, Color)>>::empty());
    } else {
        lemma_single_token(digit_char(run as u8));
        assert(is_digit(digit_char(run as u8)));
        assert(digit_value(digit_char(run as u8)) == run);
        assert(token_cells(digit_char(run as u8))->0 =~= gap(run));
    }
}

/// The text of a rank stands for the cells it was written from.
pub proof fn lemma_rank_text_cells(b: Map<Square, Piece>, row: u8, col: u8, run: nat)
    requires
        row < 8,
        col <= 8,
        run <= col,
    ensures
        rank_cells(rank_text(b, row, col, run)) == Some(gap(run) + row_kinds(b, row, col)),
    decreases 8 - col,
{
    if col >= 8 {
        lemma_run_text_cells(run);
        assert(gap(run) + row_kinds(b, row, col) =~= gap(run));
    } else {
        let next = (col + 1) as u8;
        match at(b, Square { row, col }) {
            None => {
                lemma_rank_text_cells(b, row, next, run + 1);
                assert(gap(run + 1) + row_kinds(b, row, next) =~= gap(run) + row_kinds(
                    b,
                    row,
                    col,
                ));
            },
            Some(p) => {
                lemma_rank_text_cells(b, row, next, 0);
                lemma_run_text_cells(run);
                lemma_letter_round_trip(p.role, p.color);
                let letter = seq![piece_letter(p.role, p.color)];
                let rest = rank_text(b, row, next, 0);
                lemma_single_token(piece_letter(p.role, p.color));
                assert(rank_cells(letter) == Some(seq![Some((p.role, p.color))]));
                lemma_rank_cells_concat(run_text(run), letter);
                lemma_rank_cells_concat(run_text(run) + letter, rest);
                assert(gap(run) + seq![Some((p.role, p.color))] + (gap(0) + row_kinds(
                    b,
                    row,
                    next,
                )) =~= gap(run) + row_kinds(b, row, col));
            },
        }
    }
}

/// The text of a rank holds neither `/` nor a space.
pub proof fn lemma_rank_text_plain(b: Map<Square, Piece>, row: u8)
    requires
        row < 8,
    ensures
        !rank_text(b, row, 0, 0).contains('/'),
        !rank_text(b, row, 0, 0).contains(' '),
{
    let t = rank_text(b, row, 0, 0);
    lemma_rank_text_cells(b, row, 0, 0);
    assert forall|i: int| 0 <= i < t.len() implies t[i] != '/' && t[i] != ' ' by {
        lemma_rank_cells_chars(t, i);
    }
}

/// The texts of the ranks from `row` on.
pub open spec fn rank_texts(b: Map<Square, Piece>, row: u8) -> Seq<Seq<char>> {
    Seq::new((8 - row) as nat, |i: int| rank_text(b, (row + i) as u8, 0, 0))
}

/// The placement text splits at `/` into the texts of its ranks, and holds no space.
pub proof fn lemma_ranks_text_split(b: Map<Square, Piece>, row: u8)
    requires
        row <= 7,
    ensures
        split(ranks_text(b, row), '/') == rank_texts(b, row),
        !ranks_text(b, row).contains(' '),
    decreases 7 - row,
{
    lemma_rank_text_plain(b, row);
    let first = rank_text(b, row, 0, 0);
    lemma_split_plain(first, '/');
    if row >= 7 {
        assert(split(ranks_text(b, row), '/') =~= rank_texts(b, row));
    } else {
        let next = (row + 1) as u8;
        lemma_ranks_text_split(b, next);
        lemma_split_join(first, ranks_text(b, next), '/');
        assert(seq![first] + rank_texts(b, next) =~= rank_texts(b, row));
        assert(!seq!['/'].contains(' ')) by {
            if seq!['/'].contains(' ') {
                let k = choose|k: int| 0 <= k < seq!['/'].len() && seq!['/'][k] == ' ';
            }
        }
        lemma_concat_lacks(first, seq!['/'], ' ');
        lemma_concat_lacks(first + seq!['/'], ranks_text(b, next), ' ');
    }
}

/// The placement text of a position is valid and puts on each square the
/// role and colour that stand there.
pub proof fn lemma_placement_round_trip(b: Map<Square, Piece>)
    ensures
        placement_valid(ranks_text(b, 0)),
        !ranks_text(b, 0).contains(' '),
        forall|sq: Square| #[trigger] kind_at(ranks_text(b, 0), sq) == kind_of(at(b, sq)),
{
    let text = ranks_text(b, 0);
    lemma_ranks_text_split(b, 0);
    let ranks = split(text, '/');
    assert forall|r: int| 0 <= r < 8 implies ((#[trigger] rank_cells(ranks[r])) matches Some(cells)
        && cells.len() == 8 && cells == row_kinds(b, r as u8, 0)) by {
        lemma_rank_text_cells(b, r as u8, 0, 0);
        assert(ranks[r] == rank_text(b, r as u8, 0, 0));
        assert(gap(0) + row_kinds(b, r as u8, 0) =~= row_kinds(b, r as u8, 0));
    }
    assert forall|sq: Square| #[trigger] kind_at(text, sq) == kind_of(at(b, sq)) by {
        if on_board(sq) {
            let cells = rank_cells(ranks[sq.row as int]);
            assert(cells->0 == row_kinds(b, sq.row, 0));
        }
    }
}

/// The castling text of a position is valid and claims exactly the rights
/// that the position has.
pub proof fn lemma_rights_round_trip(b: Map<Square, Piece>)
    ensures
        rights_valid(rights_text(b)),
        !rights_text(b).contains(' '),
        forall|c: Color, kingside: bool| #[trigger]
            rights_of(rights_text(b)).claims(c, kingside) == castling_right(b, c, kingside),
{
    let wk = right_text(b, Color::White, true, 'K');
    let wq = right_text(b, Color::White, false, 'Q');
    let bk = right_text(b, Color::Black, true, 'k');
    let bq = right_text(b, Color::Black, false, 'q');
    let s = wk + wq + bk + bq;
    let t = rights_text(b);
    assert forall|i: int| 0 <= i < s.len() implies (is_right_letter(#[trigger] s[i]) && (s[i] == 'K'
        ==> castling_right(b, Color::White, true)) && (s[i] == 'Q' ==> castling_right(
        b,
        Color::White,
        false,
    )) && (s[i] == 'k' ==> castling_right(b, Color::Black, true)) && (s[i] == 'q'
        ==> castling_right(b, Color::Black, false))) by {}
    if castling_right(b, Color::White, true) {
        assert(s[0] == 'K');
    }
    if castling_right(b, Color::White, false) {
        assert(s[wk.len() as int] == 'Q');
    }
    if castling_right(b, Color::Black, true) {
        assert(s[(wk.len() + wq.len()) as int] == 'k');
    }
    if castling_right(b, Color::Black, false) {
        assert(s[(wk.len() + wq.len() + bk.len()) as int] == 'q');
    }
    if s.len() == 0 {
        assert(t == seq!['-']);
        assert forall|c: char| is_right_letter(c) implies !t.contains(c) by {
            if t.contains(c) {
                let k = choose|k: int| 0 <= k < t.len() && t[k] == c;
            }
        }
    } else {
        assert(t == s);
    }
    if t.contains(' ') {
        let k = choose|k: int| 0 <= k < t.len() && t[k] == ' ';
    }
    assert(rights_of(t).white_kingside == castling_right(b, Color::White, true)) by {
        if t.contains('K') {
            let k = choose|k: int| 0 <= k < t.len() && t[k] == 'K';
        }
    }
    assert(rights_of(t).white_queenside == castling_right(b, Color::White, false)) by {
        if t.contains('Q') {
            let k = choose|k: int| 0 <= k < t.len() && t[k] == 'Q';
        }
    }
    assert(rights_of(t).black_kingside == castling_right(b, Color::Black, true)) by {
        if t.contains('k') {
            let k = choose|k: int| 0 <= k < t.len() && t[k] == 'k';
        }
    }
    assert(rights_of(t).black_queenside == castling_right(b, Color::Black, false)) by {
        if t.contains('q') {
            let k = choose|k: int| 0 <= k < t.len() && t[k] == 'q';
        }
    }
}

/// A number written in decimal reads back as itself and holds no space.
pub proof fn lemma_clock_round_trip(n: u64)
    ensures
        parsed_u64(decimal(n as nat)) == Some(n),
        !decimal(n as nat).contains(' '),
{
    lemma_decimal_round_trip(n as nat);
    let t = decimal(n as nat);
    if t.contains(' ') {
        let k = choose|k: int| 0 <= k < t.len() && t[k] == ' ';
        assert(is_digit(t[k]));
    }
}

/// The en passant text reads back as the en passant square and holds no space.
pub proof fn lemma_ep_round_trip(ep: Option<Square>)
    requires
        ep matches Some(sq) ==> on_board(sq),
    ensures
        ep_of(ep_text(ep)) == Some(ep),
        !ep_text(ep).contains(' '),
{
    let t = ep_text(ep);
    match ep {
        Some(sq) => {
            lemma_square_name_round_trip(sq);
        },
        None => {},
    }
    if t.contains(' ') {
        let k = choose|k: int| 0 <= k < t.len() && t[k] == ' ';
    }
}

/// The side to move reads back as itself.
pub proof fn lemma_turn_round_trip(c: Color)
    ensures
        turn_of(turn_text(c)) == Some(c),
        !turn_text(c).contains(' '),
{
    let t = turn_text(c);
    if t.contains(' ') {
        let k = choose|k: int| 0 <= k < t.len() && t[k] == ' ';
    }
    assert(seq!['w'] != seq!['b']) by {
        assert(seq!['w'][0] != seq!['b'][0]);
    }
}

/// The six fields of the description of a game.
pub open spec fn fen_fields(g: &Game) -> Seq<Seq<char>> {
    seq![
        ranks_text(g.position(), 0),
        turn_text(g.turn),
        rights_text(g.position()),
        ep_text(g.ep_square),
        decimal(g.halfmove as nat),
        decimal(g.fullmove as nat),
    ]
}

/// The description of a game splits at the spaces into its six fields.
pub proof fn lemma_fen_text_fields(g: &Game)
    requires
        g.wf(),
    ensures
        split(fen_text(g), ' ') == fen_fields(g),
{
    let f = fen_fields(g);
    lemma_placement_round_trip(g.position());
    lemma_turn_round_trip(g.turn);
    lemma_rights_round_trip(g.position());
    lemma_ep_round_trip(g.ep_square);
    lemma_clock_round_trip(g.halfmove);
    lemma_clock_round_trip(g.fullmove);
    let t0 = f[0];
    lemma_split_plain(f[0], ' ');
    lemma_split_plain(f[1], ' ');
    lemma_split_plain(f[2], ' ');
    lemma_split_plain(f[3], ' ');
    lemma_split_plain(f[4], ' ');
    lemma_split_plain(f[5], ' ');
    let t1 = t0 + seq![' '] + f[1];
    lemma_split_join(t0, f[1], ' ');
    let t2 = t1 + seq![' '] + f[2];
    lemma_split_join(t1, f[2], ' ');
    let t3 = t2 + seq![' '] + f[3];
    lemma_split_join(t2, f[3], ' ');
    let t4 = t3 + seq![' '] + f[4];
    lemma_split_join(t3, f[4], ' ');
    let t5 = t4 + seq![' '] + f[5];
    lemma_split_join(t4, f[5], ' ');
    assert(t5 == fen_text(g));
    assert(split(t1, ' ') =~= seq![f[0], f[1]]);
    assert(split(t2, ' ') =~= seq![f[0], f[1], f[2]]);
    assert(split(t3, ' ') =~= seq![f[0], f[1], f[2], f[3]]);
    assert(split(t4, ' ') =~= seq![f[0], f[1], f[2], f[3], f[4]]);
    assert(split(t5, ' ') =~= f);
}

/// Positions with the same roles and colours on every square have a sole king
/// of a colour together or not at all.
pub proof fn lemma_sole_king_same_kinds(b: Map<Square, Piece>, n: Map<Square, Piece>, c: Color)
    requires
        forall|sq: Square| #[trigger] kind_of(at(n, sq)) == kind_of(at(b, sq)),
    ensures
        sole_king(n, c) == sole_king(b, c),
{
    assert forall|s: Square|
        #![trigger is_king_of(n, s, c)]
        #![trigger is_king_of(b, s, c)]
        is_king_of(n, s, c) == is_king_of(b, s, c) by {
        assert(kind_of(at(n, s)) == kind_of(at(b, s)));
    }
    if sole_king(b, c) {
        let k = choose|k: Square| is_only_king(b, c, k);
        assert(is_only_king(n, c, k));
    }
    if sole_king(n, c) {
        let k = choose|k: Square| is_only_king(n, c, k);
        assert(is_only_king(b, c, k));
    }
}

/// What a game writes is well formed, provided each side has exactly one king
/// and the fullmove number is at least 1.
pub proof fn lemma_fen_text_well_formed(g: &Game)
    requires
        g.wf(),
        sole_king(g.position(), Color::White),
        sole_king(g.position(), Color::Black),
        g.fullmove >= 1,
    ensures
        well_formed(fen_text(g)),
{
    let b = g.position();
    lemma_fen_text_fields(g);
    lemma_placement_round_trip(b);
    lemma_turn_round_trip(g.turn);
    lemma_rights_round_trip(b);
    lemma_ep_round_trip(g.ep_square);
    lemma_clock_round_trip(g.halfmove);
    lemma_clock_round_trip(g.fullmove);
    let f = fen_fields(g);
    let rights = rights_of(f[2]);
    assert forall|c: Color, kingside: bool| #[trigger] backed(f[0], rights, c, kingside) by {
        assert(rights.claims(c, kingside) == castling_right(b, c, kingside));
        assert(kind_at(f[0], home_square(c)) == kind_of(at(b, home_square(c))));
        assert(kind_at(f[0], corner(c, kingside)) == kind_of(at(b, corner(c, kingside))));
    }
    assert(backed(f[0], rights, Color::White, true));
    assert(backed(f[0], rights, Color::White, false));
    assert(backed(f[0], rights, Color::Black, true));
    assert(backed(f[0], rights, Color::Black, false));
    let n = described_position(f[0], rights);
    assert forall|sq: Square| #[trigger] kind_of(at(n, sq)) == kind_of(at(b, sq)) by {
        assert(kind_at(f[0], sq) == kind_of(at(b, sq)));
    }
    lemma_sole_king_same_kinds(b, n, Color::White);
    lemma_sole_king_same_kinds(b, n, Color::Black);
}

/// Writing a game and reading the text back loses nothing that a description
/// can tell. If `d` holds what the description of `g` says, then `d` and `g`
/// agree on the role and colour on every square, the side to move, the en
/// passant square, both clocks and every castling right, and `d` is described
/// by the very same text.
pub proof fn lemma_fen_round_trip(g: &Game, d: &Game)
    requires
        g.wf(),
        describes(fen_text(g), d),
    ensures
        forall|sq: Square| #[trigger] kind_of(at(d.position(), sq)) == kind_of(at(g.position(), sq)),
        forall|c: Color, kingside: bool| #[trigger]
            castling_right(d.position(), c, kingside) == castling_right(
                g.position(),
                c,
                kingside,
            ),
        d.turn == g.turn,
        d.ep_square == g.ep_square,
        d.halfmove == g.halfmove,
        d.fullmove == g.fullmove,
        fen_text(d) == fen_text(g),
{
    let b = g.position();
    let n = d.position();
    lemma_fen_text_fields(g);
    lemma_placement_round_trip(b);
    lemma_turn_round_trip(g.turn);
    lemma_rights_round_trip(b);
    lemma_ep_round_trip(g.ep_square);
    lemma_clock_round_trip(g.halfmove);
    lemma_clock_round_trip(g.fullmove);
    let f = fen_fields(g);
    let rights = rights_of(f[2]);
    assert forall|sq: Square| #[trigger] at(n, sq) == described_cell(f[0], rights, sq) by {}
    assert forall|sq: Square| #[trigger] kind_of(at(n, sq)) == kind_of(at(b, sq)) by {
        assert(at(n, sq) == described_cell(f[0], rights, sq));
        assert(kind_at(f[0], sq) == kind_of(at(b, sq)));
    }
    assert forall|c: Color, kingside: bool| #[trigger]
        castling_right(n, c, kingside) == castling_right(b, c, kingside) by {
        assert(rights.claims(c, kingside) == castling_right(b, c, kingside));
        assert(at(n, home_square(c)) == described_cell(f[0], rights, home_square(c)));
        assert(at(n, corner(c, kingside)) == described_cell(f[0], rights, corner(c, kingside)));
        assert(kind_at(f[0], home_square(c)) == kind_of(at(b, home_square(c))));
        assert(kind_at(f[0], corner(c, kingside)) == kind_of(at(b, corner(c, kingside))));
    }
    lemma_same_kinds_same_text(b, n, 0);
    assert(rights_text(n) == rights_text(b)) by {
        assert(castling_right(n, Color::White, true) == castling_right(b, Color::White, true));
        assert(castling_right(n, Color::White, false) == castling_right(b, Color::White, false));
        assert(castling_right(n, Color::Black, true) == castling_right(b, Color::Black, true));
        assert(castling_right(n, Color::Black, false) == castling_right(b, Color::Black, false));
    }
}

proof fn lemma_same_kinds_same_rank(
    b: Map<Square, Piece>,
    n: Map<Square, Piece>,
    row: u8,
    col: u8,
    run: nat,
)
    requires
        forall|sq: Square| #[trigger] kind_of(at(n, sq)) == kind_of(at(b, sq)),
    ensures
        rank_text(n, row, col, run) == rank_text(b, row, col, run),
    decreases 8 - col,
{
    if col < 8 {
        let sq = Square { row, col };
        assert(kind_of(at(n, sq)) == kind_of(at(b, sq)));
        lemma_same_kinds_same_rank(b, n, row, (col + 1) as u8, run + 1);
        lemma_same_kinds_same_rank(b, n, row, (col + 1) as u8, 0);
    }
}

/// Positions with the same roles and colours on every square have the same
/// placement text.
pub proof fn lemma_same_kinds_same_text(b: Map<Square, Piece>, n: Map<Square, Piece>, row: u8)
    requires
        forall|sq: Square| #[trigger] kind_of(at(n, sq)) == kind_of(at(b, sq)),
    ensures
        ranks_text(n, row) == ranks_text(b, row),
    decreases 8 - row,
{
    lemma_same_kinds_same_rank(b, n, row, 0, 0);
    if row < 7 {
        lemma_same_kinds_same_text(b, n, (row + 1) as u8);
    }
}

} // verus!

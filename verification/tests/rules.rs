use chess_rules::{ChessError, Color, Game, GameState, Piece, PieceRole, Square};

const START: &str = "rnbqkbnr/pppppppp/8/8/8/8/PPPPPPPP/RNBQKBNR w KQkq - 0 1";

fn load(fen: &str) -> Game {
    let mut g = Game::new();
    g.load_fen(fen.to_string()).unwrap();
    g
}

fn sq(name: &str) -> Square {
    let b = name.as_bytes();
    Square { row: b'8' - b[1], col: b[0] - b'a' }
}

fn names(g: &Game, from: &str) -> Vec<String> {
    g.get_possible_moves(from).unwrap()
}

fn sorted(mut v: Vec<String>) -> Vec<String> {
    v.sort();
    v
}

fn strs(v: &[&str]) -> Vec<String> {
    v.iter().map(|s| s.to_string()).collect()
}

fn cell(g: &Game, name: &str) -> Option<Piece> {
    let s = sq(name);
    g.chessboard[s.row as usize][s.col as usize]
}

#[test]
fn start_position_built_and_decoded_agree() {
    let built = Game::new();
    let decoded = load(START);
    assert_eq!(built.board_text(), decoded.board_text());
    assert_eq!(built.turn, decoded.turn);
    assert_eq!(built.get_halfmove(), decoded.get_halfmove());
    assert_eq!(built.get_fullmove(), decoded.get_fullmove());
    assert_eq!(decoded.get_game_state(), GameState::InProgress);
    assert_eq!(built.get_game_state(), GameState::InProgress);
    assert_eq!(built.get_fen(), START);
}

#[test]
fn start_position_picture() {
    let g = Game::new();
    let expected = "r n b q k b n r \np p p p p p p p \n* * * * * * * * \n* * * * * * * * \n\
                    * * * * * * * * \n* * * * * * * * \nP P P P P P P P \nR N B Q K B N R \n";
    assert_eq!(g.board_text(), expected);
    assert_eq!(format!("{:?}", g), expected);
}

#[test]
fn start_position_pieces_have_not_moved() {
    let g = Game::new();
    assert_eq!(cell(&g, "e1"), Some(Piece { role: PieceRole::King, color: Color::White, has_moved: false }));
    assert_eq!(cell(&g, "d8"), Some(Piece { role: PieceRole::Queen, color: Color::Black, has_moved: false }));
    assert_eq!(cell(&g, "a7"), Some(Piece { role: PieceRole::Pawn, color: Color::Black, has_moved: false }));
    assert_eq!(cell(&g, "e4"), None);
    assert_eq!(g.turn, Color::White);
    assert_eq!(g.ep_square, None);
    assert_eq!(g.get_fullmove(), 1);
}

#[test]
fn encode_then_decode_is_stable() {
    for fen in [
        START,
        "rnbqkbnr/pppppppp/8/8/4P3/8/PPPP1PPP/RNBQKBNR b KQkq e3 0 1",
        "r3k2r/8/8/8/8/8/8/R3K2R w Kq - 12 34",
        "8/P6k/8/8/8/8/8/K7 w - - 0 1",
        "4k3/8/8/3pP3/8/8/8/4K3 w - d6 0 18446744073709551615",
    ] {
        let g = load(fen);
        assert_eq!(g.get_fen(), fen);
        let again = load(&g.get_fen());
        assert_eq!(again.get_fen(), fen);
        assert_eq!(again.board_text(), g.board_text());
        assert_eq!(again.turn, g.turn);
        assert_eq!(again.ep_square, g.ep_square);
    }
}

#[test]
fn decoded_pieces_are_marked_by_the_rules() {
    let g = load("r3k2r/1p6/8/8/8/7P/1P6/R3K2R w Kq - 0 1");
    // rights claimed: white king side, black queen side
    assert_eq!(cell(&g, "e1").unwrap().has_moved, false);
    assert_eq!(cell(&g, "h1").unwrap().has_moved, false);
    assert_eq!(cell(&g, "a1").unwrap().has_moved, true);
    assert_eq!(cell(&g, "e8").unwrap().has_moved, false);
    assert_eq!(cell(&g, "a8").unwrap().has_moved, false);
    assert_eq!(cell(&g, "h8").unwrap().has_moved, true);
    // pawns: unmoved only on the rank where they start
    assert_eq!(cell(&g, "b2").unwrap().has_moved, false);
    assert_eq!(cell(&g, "h3").unwrap().has_moved, true);
    assert_eq!(cell(&g, "b7").unwrap().has_moved, false);
    let h = load(START);
    assert_eq!(cell(&h, "b1").unwrap().has_moved, true);
    assert_eq!(cell(&h, "d1").unwrap().has_moved, true);
}

#[test]
fn after_e4_the_description_shows_the_double_step() {
    let mut g = Game::new();
    assert_eq!(g.make_move("e2", "e4"), Ok(GameState::InProgress));
    let fen = g.get_fen();
    let fields: Vec<&str> = fen.split(' ').collect();
    assert_eq!(fields[0], "rnbqkbnr/pppppppp/8/8/4P3/8/PPPP1PPP/RNBQKBNR");
    assert_eq!(fields[1], "b");
    assert_eq!(fields[3], "e3");
    assert_eq!(fields[4], "0");
    assert_eq!(fen, "rnbqkbnr/pppppppp/8/8/4P3/8/PPPP1PPP/RNBQKBNR b KQkq e3 0 1");
    assert_eq!(g.ep_square, Some(sq("e3")));
    assert_eq!(cell(&g, "e4").unwrap().has_moved, true);
}

#[test]
fn fools_mate_ends_the_game() {
    let mut g = Game::new();
    assert_eq!(g.make_move("f2", "f3"), Ok(GameState::InProgress));
    assert_eq!(g.make_move("e7", "e5"), Ok(GameState::InProgress));
    assert_eq!(g.make_move("g2", "g4"), Ok(GameState::InProgress));
    assert_eq!(g.make_move("d8", "h4"), Ok(GameState::Checkmate));
    assert_eq!(g.get_game_state(), GameState::Checkmate);
    // the turn does not pass once the game has ended; Black's move is counted
    assert_eq!(g.get_turn(), "Black");
    assert_eq!(g.get_fullmove(), 3);
    let before = g.get_fen();
    assert_eq!(g.make_move("a2", "a3"), Err(ChessError::GameAlreadyOver));
    assert_eq!(g.make_move("zz", "a3"), Err(ChessError::GameAlreadyOver));
    assert_eq!(
        g.apply_move(sq("a7"), sq("a6"), None),
        Err(ChessError::GameAlreadyOver)
    );
    assert_eq!(g.get_possible_moves("a2"), None);
    assert_eq!(g.get_fen(), before);
    assert!(Game::in_check(&g, Color::White));
}

#[test]
fn stalemate_is_reported() {
    let mut g = load("7k/8/6K1/8/8/8/8/5Q2 w - - 0 1");
    assert_eq!(g.make_move("f1", "f7"), Ok(GameState::Stalemate));
    assert_eq!(g.get_game_state(), GameState::Stalemate);
    assert!(!Game::in_check(&g, Color::Black));
    assert_eq!(g.get_turn(), "White");
    assert_eq!(g.make_move("h8", "h7"), Err(ChessError::GameAlreadyOver));
}

#[test]
fn check_is_reported() {
    let mut g = load("4k3/8/8/8/8/8/8/R3K3 w - - 0 1");
    assert_eq!(g.make_move("a1", "a8"), Ok(GameState::Check));
    assert!(Game::in_check(&g, Color::Black));
    assert_eq!(g.get_turn(), "Black");
    // the king must leave the back rank
    assert_eq!(sorted(names(&g, "e8")), strs(&["d7", "e7", "f7"]));
    assert_eq!(g.make_move("e8", "e7"), Ok(GameState::InProgress));
}

#[test]
fn no_destination_is_listed_twice() {
    for fen in [
        START,
        "r3k2r/8/8/8/8/8/8/R3K2R w KQkq - 0 1",
        "r3k2r/pppq1ppp/2n2n2/1B1pp3/1b1PP3/2N2N2/PPPQ1PPP/R3K2R w KQkq - 4 8",
        "8/8/8/8/k2pP2R/8/8/4K3 b - e3 0 1",
    ] {
        let g = load(fen);
        for row in 0..8u8 {
            for col in 0..8u8 {
                for (attack, ignore) in [(false, false), (true, true), (false, true)] {
                    let v = g.available_moves(Square { row, col }, attack, ignore);
                    for i in 0..v.len() {
                        for j in 0..i {
                            assert_ne!(v[i], v[j]);
                        }
                    }
                }
            }
        }
    }
}

#[test]
fn knight_on_b1_has_two_destinations() {
    let g = Game::new();
    assert_eq!(sorted(names(&g, "b1")), strs(&["a3", "c3"]));
    assert_eq!(
        g.available_moves(sq("b1"), false, false),
        vec![sq("c3"), sq("a3")]
    );
}

#[test]
fn destinations_come_nearest_first_and_clockwise() {
    let g = load("8/8/8/3R4/8/8/8/K6k w - - 0 1");
    assert_eq!(
        names(&g, "d5"),
        strs(&["d6", "e5", "d4", "c5", "d7", "f5", "d3", "b5", "d8", "g5", "d2", "a5", "h5", "d1"])
    );
    let b = load("8/8/8/3B4/8/7k/8/K7 w - - 0 1");
    assert_eq!(
        names(&b, "d5"),
        strs(&["e6", "e4", "c4", "c6", "f7", "f3", "b3", "b7", "g8", "g2", "a2", "a8", "h1"])
    );
    let q = load("8/8/8/8/8/8/1p6/Q3K2k w - - 0 1");
    assert_eq!(
        names(&q, "a1"),
        strs(&["a2", "b2", "b1", "a3", "c1", "a4", "d1", "a5", "a6", "a7", "a8"])
    );
}

#[test]
fn sliding_stops_at_the_first_piece() {
    let g = load("4k3/8/8/8/1p1R2P1/8/8/4K3 w - - 0 1");
    // the rook may capture on b4 but not pass it, and may not take its own pawn
    assert_eq!(
        sorted(names(&g, "d4")),
        sorted(strs(&["d5", "d6", "d7", "d8", "e4", "f4", "d3", "d2", "d1", "c4", "b4"]))
    );
}

#[test]
fn pawn_moves() {
    let g = Game::new();
    assert_eq!(names(&g, "e2"), strs(&["e3", "e4"]));
    assert_eq!(names(&g, "e7"), strs(&["e6", "e5"]));
    // a blocked pawn has no move; a moved pawn has no double step
    let h = load("4k3/8/8/8/4p3/4P3/3P4/4K3 w - - 0 1");
    assert_eq!(names(&h, "e3"), Vec::<String>::new());
    assert_eq!(names(&h, "d2"), strs(&["d3", "d4"]));
    let k = load("4k3/8/8/8/8/3P4/8/4K3 w - - 0 1");
    assert_eq!(names(&k, "d3"), strs(&["d4"]));
    // captures go diagonally forward, left first
    let c = load("4k3/8/8/8/8/2p1p3/3P4/4K3 w - - 0 1");
    assert_eq!(names(&c, "d2"), strs(&["c3", "e3", "d3", "d4"]));
    // the double step needs the square in between to be empty
    let m = load("4k3/8/8/8/8/3n4/3P4/4K3 w - - 0 1");
    assert_eq!(names(&m, "d2"), Vec::<String>::new());
}

#[test]
fn attack_only_leaves_out_the_steps_ahead() {
    let g = load("4k3/8/8/8/8/2p5/3P4/4K3 w - - 0 1");
    assert_eq!(g.available_moves(sq("d2"), true, true), vec![sq("c3")]);
    assert_eq!(
        g.available_moves(sq("d2"), false, true),
        vec![sq("c3"), sq("d3"), sq("d4")]
    );
    let empty = Game::new();
    assert_eq!(empty.available_moves(sq("e4"), false, false), Vec::<Square>::new());
    assert_eq!(
        empty.available_moves(Square { row: 9, col: 1 }, false, false),
        Vec::<Square>::new()
    );
}

#[test]
fn en_passant_capture_removes_the_pawn() {
    let mut g = Game::new();
    g.make_move("e2", "e4").unwrap();
    g.make_move("h7", "h6").unwrap();
    g.make_move("e4", "e5").unwrap();
    assert_eq!(g.ep_square, None);
    g.make_move("d7", "d5").unwrap();
    assert_eq!(
        g.get_fen(),
        "rnbqkbnr/ppp1ppp1/7p/3pP3/8/8/PPPP1PPP/RNBQKBNR w KQkq d6 0 3"
    );
    assert_eq!(names(&g, "e5"), strs(&["d6", "e6"]));
    assert_eq!(g.make_move("e5", "d6"), Ok(GameState::InProgress));
    assert_eq!(cell(&g, "d5"), None);
    assert_eq!(
        g.get_fen(),
        "rnbqkbnr/ppp1ppp1/3P3p/8/8/8/PPPP1PPP/RNBQKBNR b KQkq - 0 3"
    );
}

#[test]
fn en_passant_is_offered_for_one_move_only() {
    let mut g = Game::new();
    g.make_move("e2", "e4").unwrap();
    g.make_move("h7", "h6").unwrap();
    g.make_move("e4", "e5").unwrap();
    g.make_move("d7", "d5").unwrap();
    g.make_move("a2", "a3").unwrap();
    g.make_move("h6", "h5").unwrap();
    assert_eq!(g.ep_square, None);
    assert_eq!(names(&g, "e5"), strs(&["e6"]));
    assert_eq!(g.make_move("e5", "d6"), Err(ChessError::IllegalDestination));
}

#[test]
fn clocks_follow_the_moves() {
    let mut g = Game::new();
    g.make_move("g1", "f3").unwrap();
    assert_eq!((g.get_halfmove(), g.get_fullmove()), (1, 1));
    g.make_move("b8", "c6").unwrap();
    assert_eq!((g.get_halfmove(), g.get_fullmove()), (2, 2));
    g.make_move("f3", "e5").unwrap();
    assert_eq!((g.get_halfmove(), g.get_fullmove()), (3, 2));
    // a capture resets the halfmove clock
    g.make_move("c6", "e5").unwrap();
    assert_eq!((g.get_halfmove(), g.get_fullmove()), (0, 3));
    g.make_move("b1", "c3").unwrap();
    assert_eq!((g.get_halfmove(), g.get_fullmove()), (1, 3));
    // so does a pawn move
    g.make_move("a7", "a6").unwrap();
    assert_eq!((g.get_halfmove(), g.get_fullmove()), (0, 4));
}

#[test]
fn castling_both_wings() {
    let g = load("r3k2r/8/8/8/8/8/8/R3K2R w KQkq - 0 1");
    assert_eq!(names(&g, "e1"), strs(&["e2", "f2", "f1", "d1", "d2", "c1", "g1"]));
    let mut k = g.clone();
    assert_eq!(k.make_move("e1", "g1"), Ok(GameState::InProgress));
    assert_eq!(k.get_fen(), "r3k2r/8/8/8/8/8/8/R4RK1 b kq - 1 1");
    assert_eq!(cell(&k, "f1"), Some(Piece { role: PieceRole::Rook, color: Color::White, has_moved: true }));
    assert_eq!(cell(&k, "h1"), None);
    let mut q = g.clone();
    assert_eq!(q.make_move("e1", "c1"), Ok(GameState::InProgress));
    assert_eq!(q.get_fen(), "r3k2r/8/8/8/8/8/8/2KR3R b kq - 1 1");
    let mut b = load("r3k2r/8/8/8/8/8/8/R3K2R b KQkq - 3 7");
    assert_eq!(names(&b, "e8"), strs(&["f8", "f7", "e7", "d7", "d8", "c8", "g8"]));
    assert_eq!(b.make_move("e8", "c8"), Ok(GameState::InProgress));
    assert_eq!(b.get_fen(), "2kr3r/8/8/8/8/8/8/R3K2R w KQ - 4 8");
}

#[test]
fn castling_needs_every_condition() {
    let has = |fen: &str, to: &str| names(&load(fen), "e1").contains(&to.to_string());
    // all conditions met
    assert!(has("4k3/8/8/8/8/8/8/R3K2R w KQ - 0 1", "g1"));
    assert!(has("4k3/8/8/8/8/8/8/R3K2R w KQ - 0 1", "c1"));
    // a square between king and rook is occupied
    assert!(!has("4k3/8/8/8/8/8/8/R3KB1R w KQ - 0 1", "g1"));
    assert!(!has("4k3/8/8/8/8/8/8/R3K1NR w KQ - 0 1", "g1"));
    assert!(!has("4k3/8/8/8/8/8/8/RN2K2R w KQ - 0 1", "c1"));
    assert!(has("4k3/8/8/8/8/8/8/RN2K2R w KQ - 0 1", "g1"));
    // the rook has moved
    assert!(!has("4k3/8/8/8/8/8/8/R3K2R w Q - 0 1", "g1"));
    assert!(has("4k3/8/8/8/8/8/8/R3K2R w Q - 0 1", "c1"));
    // the king has moved
    assert!(!has("4k3/8/8/8/8/8/8/R3K2R w - - 0 1", "g1"));
    assert!(!has("4k3/8/8/8/8/8/8/R3K2R w - - 0 1", "c1"));
    // the king is in check
    assert!(!has("4k3/8/8/4r3/8/8/8/R3K2R w KQ - 0 1", "g1"));
    assert!(!has("4k3/8/8/4r3/8/8/8/R3K2R w KQ - 0 1", "c1"));
    // the square it crosses is attacked
    assert!(!has("4k3/8/8/5r2/8/8/8/R3K2R w KQ - 0 1", "g1"));
    assert!(has("4k3/8/8/5r2/8/8/8/R3K2R w KQ - 0 1", "c1"));
    // the square it lands on is attacked
    assert!(!has("4k3/8/8/6r1/8/8/8/R3K2R w KQ - 0 1", "g1"));
    assert!(!has("4k3/8/8/2r5/8/8/8/R3K2R w KQ - 0 1", "c1"));
    // an attack on the rook's path alone does not matter
    assert!(has("4k3/8/8/1r6/8/8/8/R3K2R w KQ - 0 1", "c1"));
}

#[test]
fn a_king_move_ends_the_right_to_castle() {
    let mut g = load("r3k2r/8/8/8/8/8/8/R3K2R w KQkq - 0 1");
    g.make_move("e1", "e2").unwrap();
    g.make_move("a8", "b8").unwrap();
    g.make_move("e2", "e1").unwrap();
    assert_eq!(g.get_fen(), "1r2k2r/8/8/8/8/8/8/R3K2R b k - 3 2");
    g.make_move("b8", "a8").unwrap();
    assert_eq!(names(&g, "e1"), strs(&["e2", "f2", "f1", "d1", "d2"]));
}

#[test]
fn promotion_needs_a_choice() {
    let mut g = load("8/P6k/8/8/8/8/8/K7 w - - 0 1");
    let before = g.get_fen();
    assert_eq!(g.make_move("a7", "a8"), Err(ChessError::MissingOrInvalidPromotionChoice));
    assert_eq!(g.make_move("a7", "a8k"), Err(ChessError::MissingOrInvalidPromotionChoice));
    assert_eq!(g.make_move("a7", "a8x"), Err(ChessError::MissingOrInvalidPromotionChoice));
    assert_eq!(
        g.apply_move(sq("a7"), sq("a8"), Some(PieceRole::King)),
        Err(ChessError::MissingOrInvalidPromotionChoice)
    );
    assert_eq!(
        g.apply_move(sq("a7"), sq("a8"), Some(PieceRole::Pawn)),
        Err(ChessError::MissingOrInvalidPromotionChoice)
    );
    assert_eq!(g.get_fen(), before);
    assert_eq!(g.make_move("a7", "a8q"), Ok(GameState::InProgress));
    assert_eq!(cell(&g, "a8"), Some(Piece { role: PieceRole::Queen, color: Color::White, has_moved: true }));
    assert_eq!(g.get_fen(), "Q7/7k/8/8/8/8/8/K7 b - - 0 1");
}

#[test]
fn promotion_to_each_role() {
    for (text, role) in [
        ("a8Q", PieceRole::Queen),
        ("a8r", PieceRole::Rook),
        ("a8N", PieceRole::Knight),
        ("a8b", PieceRole::Bishop),
    ] {
        let mut g = load("8/P6k/8/8/8/8/8/K7 w - - 5 1");
        assert!(g.make_move("a7", text).is_ok());
        assert_eq!(cell(&g, "a8").unwrap().role, role);
        assert_eq!(cell(&g, "a7"), None);
        assert_eq!(g.get_halfmove(), 0);
    }
    let mut b = load("7k/8/8/8/8/8/1p6/7K b - - 0 1");
    assert_eq!(b.apply_move(sq("b2"), sq("b1"), Some(PieceRole::Rook)), Ok(GameState::Check));
    assert_eq!(b.get_fen(), "7k/8/8/8/8/8/8/1r5K w - - 0 2");
}

#[test]
fn a_promotion_letter_is_ignored_on_other_moves() {
    let mut g = Game::new();
    assert_eq!(g.make_move("e2", "e4q"), Ok(GameState::InProgress));
    assert_eq!(cell(&g, "e4").unwrap().role, PieceRole::Pawn);
}

#[test]
fn each_rejection_has_its_own_error() {
    let mut g = Game::new();
    let before = g.get_fen();
    assert_eq!(g.make_move("z9", "e4"), Err(ChessError::InvalidSquareNotation));
    assert_eq!(g.make_move("e2", "e"), Err(ChessError::InvalidSquareNotation));
    assert_eq!(g.make_move("e2", "e9"), Err(ChessError::InvalidSquareNotation));
    assert_eq!(g.make_move("e2", "i4"), Err(ChessError::InvalidSquareNotation));
    assert_eq!(g.make_move("E2", "e4"), Err(ChessError::InvalidSquareNotation));
    assert_eq!(g.make_move("", ""), Err(ChessError::InvalidSquareNotation));
    assert_eq!(g.make_move("e4", "e5"), Err(ChessError::NoPieceOnSquare));
    assert_eq!(g.make_move("e7", "e5"), Err(ChessError::WrongSideToMove));
    assert_eq!(g.make_move("e2", "e5"), Err(ChessError::IllegalDestination));
    assert_eq!(g.make_move("e1", "e2"), Err(ChessError::IllegalDestination));
    assert_eq!(g.make_move("e2", "e2"), Err(ChessError::IllegalDestination));
    assert_eq!(
        g.apply_move(Square { row: 8, col: 0 }, sq("e4"), None),
        Err(ChessError::NoPieceOnSquare)
    );
    assert_eq!(
        g.apply_move(sq("e2"), Square { row: 4, col: 200 }, None),
        Err(ChessError::IllegalDestination)
    );
    assert_eq!(g.get_fen(), before);
    assert_eq!(g.get_game_state(), GameState::InProgress);
}

#[test]
fn possible_moves_of_nothing() {
    let g = Game::new();
    assert_eq!(g.get_possible_moves("e4"), None);
    assert_eq!(g.get_possible_moves("e"), None);
    assert_eq!(g.get_possible_moves("x1"), None);
    // the side that is not to move is answered too
    assert_eq!(g.get_possible_moves("g8"), Some(strs(&["h6", "f6"])));
    assert_eq!(g.get_possible_moves("a1"), Some(vec![]));
}

#[test]
fn a_pinned_piece_may_not_leave_the_line() {
    let g = load("4r2k/8/8/8/8/8/4B3/4K3 w - - 0 1");
    assert_eq!(names(&g, "e2"), Vec::<String>::new());
    let r = load("4r2k/8/8/8/8/8/4R3/4K3 w - - 0 1");
    assert_eq!(
        names(&r, "e2"),
        strs(&["e3", "e4", "e5", "e6", "e7", "e8"])
    );
}

#[test]
fn in_check_only_moves_that_end_the_check_are_legal() {
    let g = load("4k3/8/8/8/8/8/3P4/r3K3 w - - 0 1");
    assert!(Game::in_check(&g, Color::White));
    assert_eq!(names(&g, "e1"), strs(&["e2", "f2"]));
    assert_eq!(names(&g, "d2"), Vec::<String>::new());
    let h = load("4k3/8/8/8/8/8/2N5/r3K3 w - - 0 1");
    assert_eq!(names(&h, "c2"), strs(&["a1"]));
}

fn every_legal_move_keeps_the_king_safe(fen: &str) {
    let g = load(fen);
    let mover = g.turn;
    let mut count = 0;
    for row in 0..8u8 {
        for col in 0..8u8 {
            let from = Square { row, col };
            match g.chessboard[row as usize][col as usize] {
                Some(p) if p.color == mover => {
                    for to in g.available_moves(from, false, false) {
                        let mut next = g.clone();
                        let r = next.apply_move(from, to, Some(PieceRole::Knight));
                        assert!(r.is_ok());
                        assert!(!Game::in_check(&next, mover));
                        count += 1;
                    }
                }
                _ => {}
            }
        }
    }
    assert!(count > 0);
}

#[test]
fn no_legal_move_exposes_the_own_king() {
    every_legal_move_keeps_the_king_safe(START);
    every_legal_move_keeps_the_king_safe("r3k2r/pppq1ppp/2n2n2/1B1pp3/1b1PP3/2N2N2/PPPQ1PPP/R3K2R w KQkq - 4 8");
    every_legal_move_keeps_the_king_safe("4r2k/8/8/8/1b6/8/3PB3/4K3 w - - 0 1");
    every_legal_move_keeps_the_king_safe("3r3k/1P6/8/8/8/8/8/3K4 w - - 0 1");
    every_legal_move_keeps_the_king_safe("8/8/8/8/k2pP2R/8/8/4K3 b - e3 0 1");
}

#[test]
fn en_passant_that_would_expose_the_king_is_not_legal() {
    // taking en passant would clear the fourth rank between rook and king
    let g = load("8/8/8/8/k2pP2R/8/8/4K3 b - e3 0 1");
    assert_eq!(names(&g, "d4"), strs(&["d3"]));
}

#[test]
fn malformed_descriptions_are_rejected_and_change_nothing() {
    let bad = [
        "",
        "rnbqkbnr/pppppppp/8/8/8/8/PPPPPPPP/RNBQKBNR w KQkq - 0",
        "rnbqkbnr/pppppppp/8/8/8/8/PPPPPPPP/RNBQKBNR w KQkq - 0 1 x",
        "rnbqkbnr/pppppppp/8/8/8/8/PPPPPPPP/RNBQKBNR  w KQkq - 0 1",
        "rnbqkbnr/pppppppp/8/8/8/8/PPPPPPPP/RNBQKBNR w KQkq - 0 1 ",
        "rnbqkbnr/pppppppp/8/8/8/8/PPPPPPPP/RNBQKBNX w KQkq - 0 1",
        "rnbqkbnr/pppppppp/8/8/8/8/PPPPPPPP w KQkq - 0 1",
        "rnbqkbnr/pppppppp/8/8/8/8/8/PPPPPPPP/RNBQKBNR w KQkq - 0 1",
        "rnbqkbnr/pppppppp/9/8/8/8/PPPPPPPP/RNBQKBNR w KQkq - 0 1",
        "rnbqkbnr/pppppppp/7/8/8/8/PPPPPPPP/RNBQKBNR w KQkq - 0 1",
        "rnbqkbnr/ppppppppp/8/8/8/8/PPPPPPPP/RNBQKBNR w KQkq - 0 1",
        "rnbqkbnr/pppppppp/8/8/8/8/PPPPPPPP/RNBQKBNR x KQkq - 0 1",
        "rnbqkbnr/pppppppp/8/8/8/8/PPPPPPPP/RNBQKBNR W KQkq - 0 1",
        "rnbqkbnr/pppppppp/8/8/8/8/PPPPPPPP/RNBQKBNR w KQxq - 0 1",
        "rnbqkbnr/pppppppp/8/8/8/8/PPPPPPPP/RNBQKBNR w K- - 0 1",
        "8/8/8/8/8/8/8/4K3 w K - 0 1",
        "8/8/8/8/8/8/8/8 w - - 0 1",
        "8/8/8/8/8/8/8/4K3 w - - 0 1",
        "4k3/8/8/8/8/8/8/8 w - - 0 1",
        "4k3/8/8/8/8/8/8/3KK3 w - - 0 1",
        "k3k3/8/8/8/8/8/8/4K3 w - - 0 1",
        "4k3/8/8/8/8/8/8/4K2r w K - 0 1",
        "4k2r/8/8/8/8/8/8/4K2R w q - 0 1",
        "rnbqkbnr/pppppppp/8/8/8/8/PPPPPPPP/RNBQKBNR w KQkq e9 0 1",
        "rnbqkbnr/pppppppp/8/8/8/8/PPPPPPPP/RNBQKBNR w KQkq e33 0 1",
        "rnbqkbnr/pppppppp/8/8/8/8/PPPPPPPP/RNBQKBNR w KQkq e 0 1",
        "rnbqkbnr/pppppppp/8/8/8/8/PPPPPPPP/RNBQKBNR w KQkq - x 1",
        "rnbqkbnr/pppppppp/8/8/8/8/PPPPPPPP/RNBQKBNR w KQkq - -1 1",
        "rnbqkbnr/pppppppp/8/8/8/8/PPPPPPPP/RNBQKBNR w KQkq - +1 1",
        "rnbqkbnr/pppppppp/8/8/8/8/PPPPPPPP/RNBQKBNR w KQkq - 0 0",
        "rnbqkbnr/pppppppp/8/8/8/8/PPPPPPPP/RNBQKBNR w KQkq - 0 one",
        "rnbqkbnr/pppppppp/8/8/8/8/PPPPPPPP/RNBQKBNR w KQkq - 18446744073709551616 1",
        "rnbqkbnr/pppppppp/8/8/8/8/PPPPPPPP/RNBQKBNR w KQkq - 0 99999999999999999999999",
        "rnbqkbnr/pppppppp/8/8/8/8/PPPPPPPP/RNBQKBNR w KQkq - 0 1\u{e9}",
    ];
    for text in bad {
        let mut g = load("r3k2r/8/8/8/8/8/8/R3K2R b Kq - 12 34");
        assert_eq!(
            g.load_fen(text.to_string()),
            Err(ChessError::MalformedPositionDescription),
            "{:?}",
            text
        );
        assert_eq!(g.get_fen(), "r3k2r/8/8/8/8/8/8/R3K2R b Kq - 12 34");
    }
}

#[test]
fn unusual_but_well_formed_descriptions_are_read() {
    // runs of empty squares may be split, and a zero run is empty
    let g = load("4k3/44/8/8/8/8/8/4K03 b - - 007 18446744073709551615");
    assert_eq!(g.get_fen(), "4k3/8/8/8/8/8/8/4K3 b - - 7 18446744073709551615");
    let h = load("4k3/8/8/8/8/8/8/R3K2R w QKQ h8 0 1");
    assert_eq!(h.get_fen(), "4k3/8/8/8/8/8/8/R3K2R w KQ h8 0 1");
    assert_eq!(h.ep_square, Some(Square { row: 0, col: 7 }));
}

#[test]
fn loading_derives_the_status() {
    let mut g = Game::new();
    g.make_move("f2", "f3").unwrap();
    g.make_move("e7", "e5").unwrap();
    g.make_move("g2", "g4").unwrap();
    g.make_move("d8", "h4").unwrap();
    assert_eq!(g.get_game_state(), GameState::Checkmate);
    // a finished game starts afresh from the description it is given
    assert_eq!(g.load_fen(START.to_string()), Ok(()));
    assert_eq!(g.get_game_state(), GameState::InProgress);
    assert_eq!(g.get_fen(), START);
    assert_eq!(g.make_move("e2", "e4"), Ok(GameState::InProgress));
    // the status is that of the side to move in the described position
    let mate = load("rnb1kbnr/pppp1ppp/8/4p3/6Pq/5P2/PPPPP2P/RNBQKBNR w KQkq - 1 3");
    assert_eq!(mate.get_game_state(), GameState::Checkmate);
    assert_eq!(mate.get_possible_moves("a2"), None);
    let stale = load("7k/5Q2/6K1/8/8/8/8/8 b - - 1 1");
    assert_eq!(stale.get_game_state(), GameState::Stalemate);
    let check = load("R3k3/8/8/8/8/8/8/4K3 b - - 1 1");
    assert_eq!(check.get_game_state(), GameState::Check);
    let quiet = load("R3k3/8/8/8/8/8/8/4K3 w - - 1 1");
    assert_eq!(quiet.get_game_state(), GameState::InProgress);
    // a rejected description leaves the status as it was
    let mut over = mate.clone();
    assert_eq!(
        over.load_fen("nothing".to_string()),
        Err(ChessError::MalformedPositionDescription)
    );
    assert_eq!(over.get_game_state(), GameState::Checkmate);
}

#[test]
fn turn_names() {
    let mut g = Game::new();
    assert_eq!(g.get_turn(), "White");
    g.make_move("e2", "e4").unwrap();
    assert_eq!(g.get_turn(), "Black");
    g.make_move("e7", "e5").unwrap();
    assert_eq!(g.get_turn(), "White");
}

#[test]
fn a_side_without_king_is_never_in_check() {
    let mut g = load("4k3/8/8/4r3/8/8/8/4K3 w - - 0 1");
    assert!(Game::in_check(&g, Color::White));
    assert!(!Game::in_check(&g, Color::Black));
    // with several kings the first in row-major order is the one that counts
    g.chessboard[0][0] = g.chessboard[7][4];
    assert!(!Game::in_check(&g, Color::White));
    g.chessboard[0][0] = None;
    assert!(Game::in_check(&g, Color::White));
    g.chessboard[7][4] = None;
    assert!(!Game::in_check(&g, Color::White));
}

#[test]
fn pawns_threaten_diagonally_only() {
    let g = load("8/8/8/4k3/4P3/8/8/4K3 b - - 0 1");
    assert!(!Game::in_check(&g, Color::Black));
    let h = load("8/8/8/3k4/4P3/8/8/4K3 b - - 0 1");
    assert!(Game::in_check(&h, Color::Black));
    // a king may not step onto a square that a pawn threatens
    let k = load("8/8/4k3/8/4P3/8/8/4K3 b - - 0 1");
    assert_eq!(sorted(names(&k, "e6")), strs(&["d6", "d7", "e5", "e7", "f6", "f7"]));
}

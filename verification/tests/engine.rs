use chess_rules::Game;
use chess_rules::GameState;

// check test framework
#[test]
fn it_works() {
    assert_eq!(2 + 2, 4);
}

// check that game state is in progress after initialisation
#[test]
fn game_in_progress_after_init() {
    let game = Game::new();
    println!("{:?}", game);
    assert_eq!(game.get_game_state(), GameState::InProgress);
}

// check that loading a fen-string works
#[test]
fn check_load_fen() {
    let game1 = Game::new();
    let mut game2 = Game::new();
    game2
        .load_fen("rnbqkbnr/pppppppp/8/8/8/8/PPPPPPPP/RNBQKBNR w KQkq - 0 1".to_string())
        .unwrap();
    assert_eq!(format!("{:?}", game1), format!("{:?}", game2));
}

// check that making a fen-string works
#[test]
fn check_get_fen() {
    let game1 = Game::new();
    let mut game2 = Game::new();
    game2
        .load_fen("rnbqkbnr/pppppppp/8/8/8/8/PPPPPPPP/RNBQKBNR w KQkq - 0 1".to_string())
        .unwrap();
    assert_eq!(game1.get_fen(), game2.get_fen());
}

// check that making a move works
#[test]
fn check_make_move() {
    let mut game1 = Game::new();
    let mut game2 = Game::new();
    game2
        .load_fen("rnbqkbnr/pppppppp/8/8/4P3/8/PPPP1PPP/RNBQKBNR b KQkq - 0 1".to_string())
        .unwrap();
    game1.make_move("e2", "e4").unwrap();
    assert_eq!(format!("{:?}", game1), format!("{:?}", game2));
}

// check that getting halfmove works
#[test]
fn check_get_halfmove() {
    let mut game1 = Game::new();
    game1.make_move("b1", "a3").unwrap();
    assert_eq!(game1.get_halfmove(), 1);
}

// check that getting turn works
#[test]
fn check_get_turn() {
    let mut game1 = Game::new();
    game1.make_move("b1", "a3").unwrap();
    assert_eq!(game1.get_turn(), "Black");
}

// check that getting possible moves works
#[test]
fn check_get_possible_moves() {
    let game1 = Game::new();
    println!("{:?}", game1.get_possible_moves("b1"));
    assert_eq!(
        game1.get_possible_moves("b1"),
        Some(vec!["c3".to_string(), "a3".to_string()])
    );
}

// check that checking for check works
#[test]
fn check_check() {
    let game1 = Game::new();
    assert_eq!(Game::in_check(&game1, game1.turn), false);
}

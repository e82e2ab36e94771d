use chess_server::game::{Color, Game, GameResult, GameStatus};
use chess_server::messages::{ChessError, Command};

#[test]
fn fresh_game_shape() {
    let g = Game::new();
    assert_eq!(g.current_turn, Color::White);
    assert!(g.white.is_none());
    assert!(g.black.is_none());
    assert_eq!(g.status, GameStatus::Pending);
    assert!(g.result.is_none());
}

#[test]
fn make_move_toggles_and_rejects() {
    let mut g = Game::new();
    assert!(g.make_move("e2e4").is_ok());
    assert_eq!(g.current_turn, Color::Black);
    assert!(g.make_move("e7e5").is_ok());
    assert_eq!(g.current_turn, Color::White);

    match g.make_move("nonsense") {
        Err(ChessError::GameStateError(m)) => assert_eq!(m, "Couldn't parse move."),
        other => panic!("unexpected: {:?}", other),
    }
    match g.make_move("e4e3") {
        Err(ChessError::GameStateError(m)) => assert_eq!(m, "Invalid move."),
        other => panic!("unexpected: {:?}", other),
    }
    // nothing changed on the refusals
    assert_eq!(g.current_turn, Color::White);
}

#[test]
fn promotion_notation_is_accepted() {
    let mut g = Game::new();
    // a legal-notation move that is illegal on the board still parses
    match g.make_move("e7e8q") {
        Err(ChessError::GameStateError(m)) => assert_eq!(m, "Invalid move."),
        other => panic!("unexpected: {:?}", other),
    }
}

#[test]
fn concede_by_seat() {
    let mut g = Game::new();
    g.white = Some("alice".to_string());
    g.black = Some("bob".to_string());
    g.status = GameStatus::InProgress;

    let mut g2 = g.duplicate();
    assert!(g2.concede(&"alice".to_string()).is_ok());
    assert_eq!(g2.result, Some(GameResult::WhiteResigns));
    assert_eq!(g2.status, GameStatus::Finished);

    let mut g3 = g.duplicate();
    assert!(g3.concede(&"bob".to_string()).is_ok());
    assert_eq!(g3.result, Some(GameResult::BlackResigns));

    let mut g4 = g.duplicate();
    assert_eq!(
        g4.concede(&"carol".to_string()),
        Err(ChessError::UserNotFoundError)
    );
    assert_eq!(g4.status, GameStatus::InProgress);
    assert!(g4.result.is_none());
}

#[test]
fn check_and_mate_detection() {
    let mut g = Game::new();
    assert!(!g.is_check());
    assert!(!g.is_mate());
    assert!(!g.is_stalemate());

    for mv in ["f2f3", "e7e5", "g2g4", "d8h4"] {
        assert!(g.make_move(mv).is_ok(), "move {}", mv);
    }
    assert!(g.is_check());
    assert!(g.is_mate());
    assert_eq!(g.result, Some(GameResult::BlackWinsMate));
    assert_eq!(g.status, GameStatus::Finished);
}

#[test]
fn stalemate_is_no_mate() {
    let mut g = Game::new();
    // a known shortest stalemate line
    for mv in [
        "e2e3", "a7a5", "d1h5", "a8a6", "h5a5", "h7h5", "h2h4", "a6h6", "a5c7", "f7f6",
        "c7d7", "e8f7", "d7b7", "d8d3", "b7b8", "d3h7", "b8c8", "f7g6", "c8e6",
    ] {
        assert!(g.make_move(mv).is_ok(), "move {}", mv);
    }
    assert!(!g.is_check());
    assert!(!g.is_mate());
    assert!(g.is_stalemate());
    assert_eq!(g.result, Some(GameResult::Draw));
    assert_eq!(g.status, GameStatus::Finished);
}

#[test]
fn descriptions_render_exactly() {
    assert_eq!(GameResult::WhiteWinsMate.describe(), "WhiteWinsMate");
    assert_eq!(GameResult::BlackWinsMate.describe(), "BlackWinsMate");
    assert_eq!(GameResult::WhiteResigns.describe(), "WhiteResigns");
    assert_eq!(GameResult::BlackResigns.describe(), "BlackResigns");
    assert_eq!(GameResult::Draw.describe(), "Draw");

    assert_eq!(Command::LogIn("alice".to_string()).describe(), "LogIn(alice)");
    assert_eq!(Command::Play.describe(), "Play");
    assert_eq!(Command::Concede.describe(), "Concede");
    assert_eq!(Command::Stats.describe(), "Stats");

    assert_eq!(
        ChessError::IoError { main: "oh".to_string(), context: "no".to_string() }.describe(),
        "I/O error: oh, additional info: no"
    );
    assert_eq!(
        ChessError::GameStateError("late".to_string()).describe(),
        "game state error: late"
    );
    assert_eq!(ChessError::UserNotFoundError.describe(), "user not found");
    assert_eq!(
        ChessError::NetworkError("down".to_string()).describe(),
        "network error: down"
    );
    assert_eq!(
        ChessError::DeserializationError("bad".to_string()).describe(),
        "deserialization error: bad"
    );
    assert_eq!(
        ChessError::SenderNotFoundError("5".to_string()).describe(),
        "sender not found for socket address: 5"
    );
    assert_eq!(ChessError::Unknown.describe(), "unknown error");
}

#[test]
fn color_other_flips() {
    assert_eq!(Color::White.other(), Color::Black);
    assert_eq!(Color::Black.other(), Color::White);
}

#[test]
fn drawable_and_recorded_result() {
    let mut g = Game::new();
    assert!(!g.is_drawable());
    assert!(g.check_result().is_none());
    for mv in ["f2f3", "e7e5", "g2g4", "d8h4"] {
        assert!(g.make_move(mv).is_ok());
    }
    assert!(!g.is_drawable());
    assert!(g.is_mate());
    assert_eq!(g.check_result(), Some(GameResult::BlackWinsMate));
}

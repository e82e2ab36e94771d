use chess_server::dispatch::{handle_disconnect, process_message, Effect};
use chess_server::messages::{ChessError, Command, Message};
use chess_server::registry::ServerState;

const INITIAL_FEN: &str = "rnbqkbnr/pppppppp/8/8/8/8/PPPPPPPP/RNBQKBNR w KQkq - 0 1";

fn send(dest: u64, message: Message) -> Effect {
    Effect::Send { dest, message }
}

fn log(dest: u64, text: &str) -> Effect {
    send(dest, Message::Log(text.to_string()))
}

fn error(dest: u64, text: &str) -> Effect {
    send(dest, Message::Error(text.to_string()))
}

fn login(st: &mut ServerState, addr: u64, name: &str) -> Vec<Effect> {
    st.attach_anon(addr);
    let (effects, r) = process_message(
        st,
        addr,
        Message::Command(Command::LogIn(name.to_string())),
    );
    assert!(r.is_ok());
    effects
}

/// Two logged-in players already matched into one game.
fn fresh_match(st: &mut ServerState) {
    login(st, 1, "alice");
    login(st, 2, "bob");
    let (_, r) = process_message(st, 1, Message::Command(Command::Play));
    assert!(r.is_ok());
    let (_, r) = process_message(st, 2, Message::Command(Command::Play));
    assert!(r.is_ok());
}

#[test]
fn register_then_supersede() {
    let mut st = ServerState::new(Vec::new());
    st.attach_anon(1);
    let (effects, r) = process_message(
        &mut st,
        1,
        Message::Command(Command::LogIn("alice".to_string())),
    );
    assert!(r.is_ok());
    assert_eq!(
        effects,
        vec![
            Effect::Append { name: "alice".to_string() },
            log(
                1,
                "Registered a new user. Welcome, alice! Hope you are going to enjoy our \
                 chess server. Use /play to start your first game!"
            ),
        ]
    );
    assert_eq!(st.lookup_user_by_addr(1), Some(&"alice".to_string()));
    // the connection is no longer anonymous
    assert!(!st.anon.contains(&1));

    // a second connection claims the same name: the first one is told and
    // dropped
    st.attach_anon(2);
    let (effects, r) = process_message(
        &mut st,
        2,
        Message::Command(Command::LogIn("alice".to_string())),
    );
    assert!(r.is_ok());
    assert_eq!(
        effects,
        vec![
            log(1, "You have been superseded by a new login"),
            Effect::Close { dest: 1 },
            log(2, "Authenticated successfully. Welcome back, alice."),
        ]
    );
    assert!(st.lookup_user_by_addr(1).is_none());
    assert_eq!(st.lookup_user_by_addr(2), Some(&"alice".to_string()));
}

#[test]
fn anonymous_cannot_play() {
    let mut st = ServerState::new(Vec::new());
    st.attach_anon(7);
    let (effects, r) = process_message(&mut st, 7, Message::Command(Command::Play));
    assert_eq!(
        r,
        Err(ChessError::UserStateError(
            "Failed to get username from the server state (unregistered player tried to play)."
                .to_string()
        ))
    );
    assert_eq!(
        effects,
        vec![error(7, "Anonymous users cannot start games. Please use /log in.")]
    );
}

#[test]
fn match_two_players() {
    let mut st = ServerState::new(Vec::new());
    login(&mut st, 1, "alice");
    login(&mut st, 2, "bob");

    let (effects, r) = process_message(&mut st, 1, Message::Command(Command::Play));
    assert!(r.is_ok());
    assert_eq!(effects, vec![log(1, "You're in a game now!")]);

    let (effects, r) = process_message(&mut st, 2, Message::Command(Command::Play));
    assert!(r.is_ok());
    assert_eq!(
        effects,
        vec![
            send(1, Message::Board(INITIAL_FEN.to_string())),
            send(2, Message::Board(INITIAL_FEN.to_string())),
            log(1, "Your turn, white player alice!"),
        ]
    );
}

#[test]
fn second_play_is_refused() {
    let mut st = ServerState::new(Vec::new());
    fresh_match(&mut st);
    let (effects, r) = process_message(&mut st, 1, Message::Command(Command::Play));
    assert!(r.is_err());
    assert_eq!(
        effects,
        vec![error(1, "You cannot start a new game until this one is finished!")]
    );
}

#[test]
fn legal_move_then_not_your_turn() {
    let mut st = ServerState::new(Vec::new());
    fresh_match(&mut st);

    let (effects, r) = process_message(&mut st, 1, Message::Move("e2e4".to_string()));
    assert!(r.is_ok());
    let after_e4 = "rnbqkbnr/pppppppp/8/8/4P3/8/PPPP1PPP/RNBQKBNR b KQkq - 0 1";
    assert_eq!(
        effects,
        vec![
            send(1, Message::Board(after_e4.to_string())),
            send(2, Message::Board(after_e4.to_string())),
            log(2, "Your turn, black player bob!"),
        ]
    );

    // white tries to move again at once
    let (effects, r) = process_message(&mut st, 1, Message::Move("e7e5".to_string()));
    assert!(r.is_err());
    assert_eq!(effects, vec![error(1, "It's not your turn.")]);
}

#[test]
fn unparsable_and_illegal_moves_change_nothing() {
    let mut st = ServerState::new(Vec::new());
    fresh_match(&mut st);

    let (effects, r) = process_message(&mut st, 1, Message::Move("what".to_string()));
    assert!(r.is_err());
    assert_eq!(effects, vec![error(1, "Couldn't parse move.")]);

    let (effects, r) = process_message(&mut st, 1, Message::Move("e2e7".to_string()));
    assert!(r.is_err());
    assert_eq!(effects, vec![error(1, "Invalid move.")]);

    // the board is untouched: the legal opening still works
    let (_, r) = process_message(&mut st, 1, Message::Move("e2e4".to_string()));
    assert!(r.is_ok());
}

#[test]
fn fools_mate_finishes_the_game() {
    let mut st = ServerState::new(Vec::new());
    fresh_match(&mut st);

    for mv in ["f2f3", "e7e5", "g2g4"] {
        let (_, r) = process_message(&mut st, if mv.starts_with('e') { 2 } else { 1 },
            Message::Move(mv.to_string()));
        assert!(r.is_ok(), "move {} failed", mv);
    }
    let (effects, r) = process_message(&mut st, 2, Message::Move("d8h4".to_string()));
    assert!(r.is_ok());
    let mate_fen = "rnb1kbnr/pppp1ppp/8/4p3/6Pq/5P2/PPPPP2P/RNBQKBNR w KQkq - 0 1";
    assert_eq!(
        effects,
        vec![
            send(1, Message::Board(mate_fen.to_string())),
            send(2, Message::Board(mate_fen.to_string())),
            log(1, "Check!"),
            log(2, "Check!"),
            log(1, "Game finished: BlackWinsMate"),
            log(2, "Game finished: BlackWinsMate"),
        ]
    );
    // both players are free again
    assert!(st.game_of(&"alice".to_string()).is_none());
    assert!(st.game_of(&"bob".to_string()).is_none());
}

#[test]
fn concede_mid_game() {
    let mut st = ServerState::new(Vec::new());
    fresh_match(&mut st);
    let (_, r) = process_message(&mut st, 1, Message::Move("e2e4".to_string()));
    assert!(r.is_ok());

    let (effects, r) = process_message(&mut st, 1, Message::Command(Command::Concede));
    assert!(r.is_ok());
    let after_e4 = "rnbqkbnr/pppppppp/8/8/4P3/8/PPPP1PPP/RNBQKBNR b KQkq - 0 1";
    assert_eq!(
        effects,
        vec![
            send(1, Message::Board(after_e4.to_string())),
            send(2, Message::Board(after_e4.to_string())),
            log(1, "Game finished: WhiteResigns"),
            log(2, "Game finished: WhiteResigns"),
        ]
    );
    assert!(st.game_of(&"alice".to_string()).is_none());
    assert!(st.game_of(&"bob".to_string()).is_none());

    // the loser may queue up again at once
    let (effects, r) = process_message(&mut st, 2, Message::Command(Command::Play));
    assert!(r.is_ok());
    assert_eq!(effects, vec![log(2, "You're in a game now!")]);
}

#[test]
fn disconnect_mid_game_forfeits() {
    let mut st = ServerState::new(Vec::new());
    fresh_match(&mut st);
    let (_, r) = process_message(&mut st, 1, Message::Move("e2e4".to_string()));
    assert!(r.is_ok());

    let effects = handle_disconnect(&mut st, 1);
    let after_e4 = "rnbqkbnr/pppppppp/8/8/4P3/8/PPPP1PPP/RNBQKBNR b KQkq - 0 1";
    assert_eq!(
        effects,
        vec![
            log(1, "You have been disconnected. Bye!"),
            send(2, Message::Board(after_e4.to_string())),
            log(2, "Game finished: WhiteResigns"),
        ]
    );
    assert!(st.lookup_user_by_addr(1).is_none());
    assert!(!st.anon.contains(&1));
    assert!(st.users.iter().all(|(n, _)| n != "alice"));
    assert!(st.game_of(&"alice".to_string()).is_none());
    assert!(st.game_of(&"bob".to_string()).is_none());
    // bob is still logged in
    assert_eq!(st.lookup_user_by_addr(2), Some(&"bob".to_string()));
}

#[test]
fn disconnect_while_waiting_cancels_the_game() {
    let mut st = ServerState::new(Vec::new());
    login(&mut st, 1, "alice");
    login(&mut st, 2, "bob");
    let (_, r) = process_message(&mut st, 1, Message::Command(Command::Play));
    assert!(r.is_ok());

    let effects = handle_disconnect(&mut st, 1);
    assert_eq!(effects, vec![log(1, "You have been disconnected. Bye!")]);

    // the pending game is gone: bob opens a fresh one instead of joining
    let (effects, r) = process_message(&mut st, 2, Message::Command(Command::Play));
    assert!(r.is_ok());
    assert_eq!(effects, vec![log(2, "You're in a game now!")]);
}

#[test]
fn anonymous_disconnect_is_silent() {
    let mut st = ServerState::new(Vec::new());
    st.attach_anon(9);
    let effects = handle_disconnect(&mut st, 9);
    assert_eq!(effects, Vec::new());
}

#[test]
fn chat_reaches_the_opponent_only() {
    let mut st = ServerState::new(Vec::new());
    fresh_match(&mut st);
    let (effects, r) = process_message(&mut st, 1, Message::Text("good luck".to_string()));
    assert!(r.is_ok());
    assert_eq!(effects, vec![send(2, Message::Text("good luck".to_string()))]);

    // without a game there is nobody to talk to
    let mut st2 = ServerState::new(Vec::new());
    login(&mut st2, 1, "alice");
    let (effects, r) = process_message(&mut st2, 1, Message::Text("anyone?".to_string()));
    assert!(r.is_err());
    assert_eq!(effects, vec![error(1, "You have no opponent to chat with")]);
}

#[test]
fn stats_and_protocol_violations() {
    let mut st = ServerState::new(Vec::new());
    login(&mut st, 1, "alice");
    let (effects, r) = process_message(&mut st, 1, Message::Command(Command::Stats));
    assert!(r.is_ok());
    assert_eq!(effects, vec![log(1, "Stats not yet available")]);

    let (effects, r) = process_message(&mut st, 1, Message::Board("x".to_string()));
    assert_eq!(
        r,
        Err(ChessError::MessageHandlingError(
            "Expected Command, Move or Text, received Board".to_string()
        ))
    );
    assert_eq!(effects, vec![Effect::Close { dest: 1 }]);
    let (effects, r) = process_message(&mut st, 1, Message::Log("x".to_string()));
    assert!(r.is_err());
    assert_eq!(effects, vec![Effect::Close { dest: 1 }]);
}

#[test]
fn login_with_invalid_name_is_refused() {
    let mut st = ServerState::new(Vec::new());
    st.attach_anon(1);
    let (effects, r) = process_message(
        &mut st,
        1,
        Message::Command(Command::LogIn("a\nb".to_string())),
    );
    assert_eq!(
        r,
        Err(ChessError::AuthenticationError("Invalid username.".to_string()))
    );
    assert_eq!(effects, vec![error(1, "Invalid username.")]);
    let (effects, r) = process_message(
        &mut st,
        1,
        Message::Command(Command::LogIn(String::new())),
    );
    assert!(r.is_err());
    assert_eq!(effects, vec![error(1, "Invalid username.")]);
    assert!(st.lookup_user_by_addr(1).is_none());
}

#[test]
fn returning_user_is_not_reregistered() {
    let mut st = ServerState::new(vec!["alice".to_string()]);
    st.attach_anon(1);
    let (effects, r) = process_message(
        &mut st,
        1,
        Message::Command(Command::LogIn("alice".to_string())),
    );
    assert!(r.is_ok());
    assert_eq!(
        effects,
        vec![log(1, "Authenticated successfully. Welcome back, alice.")]
    );
}

#[test]
fn move_without_a_game_names_the_user() {
    let mut st = ServerState::new(Vec::new());
    login(&mut st, 1, "alice");
    let (effects, r) = process_message(&mut st, 1, Message::Move("e2e4".to_string()));
    assert_eq!(
        r,
        Err(ChessError::GameStateError(
            "User alice is not currently in a game".to_string()
        ))
    );
    assert_eq!(
        effects,
        vec![error(1, "You are not in a game. Start a game using /play.")]
    );
}

#[test]
fn login_from_unknown_connection_is_refused() {
    let mut st = ServerState::new(Vec::new());
    let (effects, r) = process_message(
        &mut st,
        5,
        Message::Command(Command::LogIn("alice".to_string())),
    );
    assert_eq!(
        r,
        Err(ChessError::SenderNotFoundError(
            "no live connection for this address".to_string()
        ))
    );
    assert_eq!(effects, Vec::new());
}

use chess_server::client::{
    classify_input, is_move_shaped, piece_to_unicode, tokenize, ClientInput, GameState, Piece,
};
use chess_server::game::Color;
use chess_server::messages::{Command, Message};
use chess_server::registry::ServerState;
use chess_server::store::{parse_lines, registration_line, user_in_file};

#[test]
fn glyphs_for_every_piece() {
    assert_eq!(piece_to_unicode(Some((Piece::Pawn, Color::White))), '\u{2659}');
    assert_eq!(piece_to_unicode(Some((Piece::Knight, Color::White))), '\u{2658}');
    assert_eq!(piece_to_unicode(Some((Piece::Bishop, Color::White))), '\u{2657}');
    assert_eq!(piece_to_unicode(Some((Piece::Rook, Color::White))), '\u{2656}');
    assert_eq!(piece_to_unicode(Some((Piece::Queen, Color::White))), '\u{2655}');
    assert_eq!(piece_to_unicode(Some((Piece::King, Color::White))), '\u{2654}');
    assert_eq!(piece_to_unicode(Some((Piece::Pawn, Color::Black))), '\u{265f}');
    assert_eq!(piece_to_unicode(Some((Piece::Knight, Color::Black))), '\u{265e}');
    assert_eq!(piece_to_unicode(Some((Piece::Bishop, Color::Black))), '\u{265d}');
    assert_eq!(piece_to_unicode(Some((Piece::Rook, Color::Black))), '\u{265c}');
    assert_eq!(piece_to_unicode(Some((Piece::Queen, Color::Black))), '\u{265b}');
    assert_eq!(piece_to_unicode(Some((Piece::King, Color::Black))), '\u{265a}');
    assert_eq!(piece_to_unicode(None), ' ');
}

#[test]
fn fresh_client_state() {
    let s = GameState::new();
    assert_eq!(s.my_username, "");
    assert_eq!(s.opponent_username, "opponent");
}

#[test]
fn commands_classify() {
    assert_eq!(classify_input("/help"), ClientInput::Help);
    assert_eq!(
        classify_input("/log in alice"),
        ClientInput::Send(Message::Command(Command::LogIn("alice".to_string())))
    );
    assert_eq!(classify_input("/log in"), ClientInput::BadLogIn);
    assert_eq!(classify_input("/log in two words"), ClientInput::BadLogIn);
    assert_eq!(
        classify_input("/play"),
        ClientInput::Send(Message::Command(Command::Play))
    );
    assert_eq!(
        classify_input("/stats"),
        ClientInput::Send(Message::Command(Command::Stats))
    );
    assert_eq!(
        classify_input("/concede"),
        ClientInput::Send(Message::Command(Command::Concede))
    );
    assert_eq!(classify_input("/quit"), ClientInput::UnknownCommand);
}

#[test]
fn chat_moves_and_rejects_classify() {
    assert_eq!(
        classify_input(":hello there"),
        ClientInput::Send(Message::Text("hello there".to_string()))
    );
    assert_eq!(
        classify_input("e2e4"),
        ClientInput::Send(Message::Move("e2e4".to_string()))
    );
    assert_eq!(
        classify_input("O-O"),
        ClientInput::Send(Message::Move("O-O".to_string()))
    );
    assert_eq!(
        classify_input("O-O-O"),
        ClientInput::Send(Message::Move("O-O-O".to_string()))
    );
    assert_eq!(
        classify_input("Nf3"),
        ClientInput::Send(Message::Move("Nf3".to_string()))
    );
    assert_eq!(classify_input("hello"), ClientInput::NotAMove);
    assert_eq!(classify_input(""), ClientInput::NotAMove);
}

#[test]
fn move_shape_is_a_square_or_castle() {
    assert!(is_move_shaped("e2e4"));
    assert!(is_move_shaped("Qxe7+"));
    assert!(is_move_shaped("O-O"));
    assert!(!is_move_shaped("zzz"));
    assert!(!is_move_shaped("O-"));
    assert!(!is_move_shaped("a9"));
    assert!(!is_move_shaped("i1"));
}

#[test]
fn tokenizer_splits_on_blanks() {
    let t = tokenize("/log  in\talice ");
    assert_eq!(t, vec!["/log".to_string(), "in".to_string(), "alice".to_string()]);
    assert_eq!(tokenize(""), Vec::<String>::new());
    assert_eq!(tokenize("   "), Vec::<String>::new());
}

#[test]
fn store_lines_round_about() {
    let lines = parse_lines("alice\nbob\n");
    assert_eq!(lines, vec!["alice".to_string(), "bob".to_string()]);
    // a file without the final break still yields its last name
    assert_eq!(parse_lines("alice\nbob"), vec!["alice".to_string(), "bob".to_string()]);
    assert_eq!(parse_lines(""), Vec::<String>::new());
    // empty lines are kept as empty names, which never match a valid name
    assert_eq!(parse_lines("\na\n"), vec!["".to_string(), "a".to_string()]);

    assert!(user_in_file("alice\nbob\n", &"alice".to_string()));
    assert!(user_in_file("alice\nbob\n", &"bob".to_string()));
    assert!(!user_in_file("alice\nbob\n", &"ali".to_string()));
    assert!(!user_in_file("", &"alice".to_string()));

    assert_eq!(registration_line(&"carol".to_string()), "carol\n");
}

#[test]
fn registry_mirror_lookup() {
    let st = ServerState::new(parse_lines("alice\nbob\n"));
    assert!(st.is_registered(&"alice".to_string()));
    assert!(st.is_registered(&"bob".to_string()));
    assert!(!st.is_registered(&"carol".to_string()));
}

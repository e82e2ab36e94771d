use chess_server::codec::{
    decode_message, encode_frame, encode_message, frame_len_acceptable, parse_frame_len,
    MAX_FRAME_BYTES,
};
use chess_server::messages::{Command, Message};

use std::collections::BTreeMap;
use serde_cbor::value::Value;

fn cbor_map(key: &str, val: Value) -> Value {
    let mut m: BTreeMap<Value, Value> = BTreeMap::new();
    m.insert(Value::Text(key.to_string()), val);
    Value::Map(m)
}

#[test]
fn encode_move_exact_bytes() {
    let m = Message::Move("e2e4".to_string());
    let b = encode_message(&m);
    assert_eq!(
        b,
        vec![0xa1, 0x64, b'M', b'o', b'v', b'e', 0x64, b'e', b'2', b'e', b'4']
    );
}

#[test]
fn encode_login_exact_bytes() {
    let m = Message::Command(Command::LogIn("alice".to_string()));
    let b = encode_message(&m);
    let mut expected = vec![0xa1, 0x67];
    expected.extend_from_slice(b"Command");
    expected.push(0xa1);
    expected.push(0x65);
    expected.extend_from_slice(b"LogIn");
    expected.push(0x65);
    expected.extend_from_slice(b"alice");
    assert_eq!(b, expected);
}

#[test]
fn encode_matches_serde_cbor_for_every_variant() {
    let cases: Vec<(Message, Value)> = vec![
        (
            Message::Command(Command::LogIn("alice".to_string())),
            cbor_map("Command", cbor_map("LogIn", Value::Text("alice".to_string()))),
        ),
        (
            Message::Command(Command::Play),
            cbor_map("Command", Value::Text("Play".to_string())),
        ),
        (
            Message::Command(Command::Concede),
            cbor_map("Command", Value::Text("Concede".to_string())),
        ),
        (
            Message::Command(Command::Stats),
            cbor_map("Command", Value::Text("Stats".to_string())),
        ),
        (
            Message::Move("e2e4".to_string()),
            cbor_map("Move", Value::Text("e2e4".to_string())),
        ),
        (
            Message::Text("hi there".to_string()),
            cbor_map("Text", Value::Text("hi there".to_string())),
        ),
        (
            Message::Board("rnbqkbnr/pppppppp/8/8/8/8/PPPPPPPP/RNBQKBNR w KQkq - 0 1".to_string()),
            cbor_map(
                "Board",
                Value::Text(
                    "rnbqkbnr/pppppppp/8/8/8/8/PPPPPPPP/RNBQKBNR w KQkq - 0 1".to_string(),
                ),
            ),
        ),
        (
            Message::Error("boom".to_string()),
            cbor_map("Error", Value::Text("boom".to_string())),
        ),
        (
            Message::Log("hello".to_string()),
            cbor_map("Log", Value::Text("hello".to_string())),
        ),
    ];
    for (m, v) in cases {
        let mine = encode_message(&m);
        let theirs = serde_cbor::to_vec(&v).expect("serde_cbor encodes");
        assert_eq!(mine, theirs, "encodings differ for {:?}", m);
    }
}

#[test]
fn round_trip_every_variant() {
    let cases = vec![
        Message::Command(Command::LogIn("alice".to_string())),
        Message::Command(Command::LogIn("".to_string())),
        Message::Command(Command::Play),
        Message::Command(Command::Concede),
        Message::Command(Command::Stats),
        Message::Move("e2e4".to_string()),
        Message::Move("O-O".to_string()),
        Message::Text("tea?".to_string()),
        Message::Board("8/8/8/8/8/8/8/8 w - - 0 1".to_string()),
        Message::Error("no".to_string()),
        Message::Log("welcome".to_string()),
    ];
    for m in cases {
        let b = encode_message(&m);
        let back = decode_message(&b).expect("own encoding decodes");
        assert_eq!(back, m);
    }
}

#[test]
fn round_trip_long_and_unicode_payloads() {
    let long = "x".repeat(300);
    let cases = vec![
        Message::Text("na\u{ef}ve \u{265e} text".to_string()),
        Message::Log("y".repeat(24)),
        Message::Log(long),
    ];
    for m in cases {
        let b = encode_message(&m);
        assert_eq!(decode_message(&b).expect("decodes"), m);
    }
}

#[test]
fn decode_rejects_garbage() {
    assert_eq!(
        decode_message(&vec![]),
        Err(chess_server::messages::ChessError::DeserializationError(
            "not a message encoding".to_string()
        ))
    );
    assert!(decode_message(&vec![0x00]).is_err());
    // an array instead of a map
    assert!(decode_message(&vec![0x81, 0x64, b'M', b'o', b'v', b'e']).is_err());
    // a valid map with an unknown key
    assert!(decode_message(&vec![0xa1, 0x64, b'N', b'o', b'p', b'e', 0x60]).is_err());
    // truncated payload
    assert!(decode_message(&vec![0xa1, 0x64, b'M', b'o', b'v', b'e', 0x62, b'e']).is_err());
    // trailing junk after the payload
    assert!(
        decode_message(&vec![0xa1, 0x64, b'M', b'o', b'v', b'e', 0x61, b'e', 0x00]).is_err()
    );
    // a non-shortest length header is not what the encoder writes
    assert!(decode_message(&vec![0xa1, 0x64, b'M', b'o', b'v', b'e', 0x78, 0x01, b'e']).is_err());
    // an invalid UTF-8 payload
    assert!(decode_message(&vec![0xa1, 0x64, b'M', b'o', b'v', b'e', 0x61, 0xff]).is_err());
}

#[test]
fn frame_carries_length_then_body() {
    let m = Message::Move("e2e4".to_string());
    let body = encode_message(&m);
    let framed = encode_frame(&m).expect("small message frames");
    assert_eq!(framed.len(), body.len() + 4);
    assert_eq!(&framed[0..4], &[0, 0, 0, body.len() as u8]);
    assert_eq!(&framed[4..], &body[..]);
    let l = parse_frame_len(&[framed[0], framed[1], framed[2], framed[3]]);
    assert_eq!(l as usize, body.len());
}

#[test]
fn frame_length_limit_is_ten_mebibytes() {
    assert_eq!(MAX_FRAME_BYTES, 10 * 1024 * 1024);
    assert!(frame_len_acceptable(0));
    assert!(frame_len_acceptable(10 * 1024 * 1024));
    assert!(!frame_len_acceptable(10 * 1024 * 1024 + 1));
    assert!(!frame_len_acceptable(u32::MAX));
    assert_eq!(parse_frame_len(&[0xff, 0xff, 0xff, 0xff]), u32::MAX);
}

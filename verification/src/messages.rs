//! The message taxonomy of the wire protocol, and the error taxonomy of the
//! server.
//!
//! A `Message` is what travels on the wire in both directions; a `Command` is
//! the technical client-to-server sub-language.  `ChessError` classifies every
//! failure the server reports or logs.

use vstd::prelude::*;

verus! {

/// One protocol message.
#[derive(Debug, Clone, PartialEq, Eq)]
pub enum Message {
    /// Technical client-to-server commands.
    Command(Command),
    /// A chess move in long algebraic notation, such as `e2e4`.
    Move(String),
    /// A chat message, relayed verbatim to the opponent.
    Text(String),
    /// The server's serialization of the current board, sent to clients.
    Board(String),
    /// A user-visible error, server to client.
    Error(String),
    /// Any other user-visible notification, server to client.
    Log(String),
}

/// The technical client-to-server commands.
#[derive(Debug, Clone, PartialEq, Eq)]
pub enum Command {
    /// `/log in <name>`
    LogIn(String),
    /// `/play`
    Play,
    /// `/concede`
    Concede,
    /// `/stats`
    Stats,
}

impl Command {
    /// The human-readable rendering of a command, as the logs show it.
    pub fn describe(&self) -> (r: String)
        ensures
            r@ == self.spec_describe(),
    {
        match self {
            Command::LogIn(username) => {
                let mut s = String::from_str("LogIn(");
                s.append(username.as_str());
                s.append(")");
                proof {
                    assert(s@ =~= self.spec_describe());
                }
                s
            },
            Command::Play => String::from_str("Play"),
            Command::Concede => String::from_str("Concede"),
            Command::Stats => String::from_str("Stats"),
        }
    }

    /// What `describe` returns.
    pub open spec fn spec_describe(&self) -> Seq<char> {
        match self {
            Command::LogIn(username) => "LogIn("@ + username@ + ")"@,
            Command::Play => "Play"@,
            Command::Concede => "Concede"@,
            Command::Stats => "Stats"@,
        }
    }
}

/// Every failure the server distinguishes.
///
/// The first field of `IoError` carries the text of the underlying
/// input/output error, which only the unverified edge of the program can
/// produce.
#[derive(Debug, Clone, PartialEq, Eq)]
pub enum ChessError {
    IoError { main: String, context: String },
    NetworkError(String),
    SerializationError(String),
    DeserializationError(String),
    MessageHandlingError(String),
    AuthenticationError(String),
    DatabaseError(String),
    GameStateError(String),
    UserStateError(String),
    UserNotFoundError,
    SenderNotFoundError(String),
    Unknown,
}

impl ChessError {
    /// The human-readable rendering of an error, one line.
    pub fn describe(&self) -> (r: String)
        ensures
            r@ == self.spec_describe(),
    {
        match self {
            ChessError::IoError { main, context } => {
                let mut s = String::from_str("I/O error: ");
                s.append(main.as_str());
                s.append(", additional info: ");
                s.append(context.as_str());
                proof {
                    assert(s@ =~= self.spec_describe());
                }
                s
            },
            ChessError::NetworkError(m) => prefixed("network error: ", m),
            ChessError::SerializationError(m) => prefixed("serialization error: ", m),
            ChessError::DeserializationError(m) => prefixed("deserialization error: ", m),
            ChessError::MessageHandlingError(m) => prefixed("message handling error: ", m),
            ChessError::AuthenticationError(m) => prefixed("user authentication error: ", m),
            ChessError::DatabaseError(m) => prefixed("database error: ", m),
            ChessError::GameStateError(m) => prefixed("game state error: ", m),
            ChessError::UserStateError(m) => prefixed("user state error: ", m),
            ChessError::UserNotFoundError => String::from_str("user not found"),
            ChessError::SenderNotFoundError(m) => prefixed(
                "sender not found for socket address: ",
                m,
            ),
            ChessError::Unknown => String::from_str("unknown error"),
        }
    }

    /// What `describe` returns.
    pub open spec fn spec_describe(&self) -> Seq<char> {
        match self {
            ChessError::IoError { main, context } => "I/O error: "@ + main@
                + ", additional info: "@ + context@,
            ChessError::NetworkError(m) => "network error: "@ + m@,
            ChessError::SerializationError(m) => "serialization error: "@ + m@,
            ChessError::DeserializationError(m) => "deserialization error: "@ + m@,
            ChessError::MessageHandlingError(m) => "message handling error: "@ + m@,
            ChessError::AuthenticationError(m) => "user authentication error: "@ + m@,
            ChessError::DatabaseError(m) => "database error: "@ + m@,
            ChessError::GameStateError(m) => "game state error: "@ + m@,
            ChessError::UserStateError(m) => "user state error: "@ + m@,
            ChessError::UserNotFoundError => "user not found"@,
            ChessError::SenderNotFoundError(m) => "sender not found for socket address: "@ + m@,
            ChessError::Unknown => "unknown error"@,
        }
    }
}

/// `prefix` followed by `rest`, in one fresh string.
fn prefixed(prefix: &str, rest: &String) -> (r: String)
    ensures
        r@ == prefix@ + rest@,
{
    let mut s = String::from_str(prefix);
    s.append(rest.as_str());
    s
}

} // verus!

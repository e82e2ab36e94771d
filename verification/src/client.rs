//! The client's share of the logic: board glyphs and the reading of one
//! input line.
//!
//! The prompt loop itself and all drawing stay outside; the library decides
//! what a line of input means, exactly as the command surface defines it:
//! `/help`, `/log in <name>`, `/play`, `/stats`, `/concede`, chat after a
//! leading `:`, and otherwise a chess move if the line looks like one.

use vstd::prelude::*;
use vstd::string::StrSliceExecFns;
use vstd::string::StringExecFns;
use crate::messages::{Command, Message};

verus! {

/// A chess piece kind, for rendering.
#[derive(Debug, Clone, Copy, PartialEq, Eq, Structural)]
pub enum Piece {
    Pawn,
    Knight,
    Bishop,
    Rook,
    Queen,
    King,
}

/// The board glyph of a piece of a side, or a blank for an empty square.
pub fn piece_to_unicode(piece: Option<(Piece, crate::game::Color)>) -> (r: char)
    ensures
        r == spec_piece_glyph(piece),
{
    match piece {
        Some((Piece::Pawn, crate::game::Color::White)) => '\u{2659}',
        Some((Piece::Knight, crate::game::Color::White)) => '\u{2658}',
        Some((Piece::Bishop, crate::game::Color::White)) => '\u{2657}',
        Some((Piece::Rook, crate::game::Color::White)) => '\u{2656}',
        Some((Piece::Queen, crate::game::Color::White)) => '\u{2655}',
        Some((Piece::King, crate::game::Color::White)) => '\u{2654}',
        Some((Piece::Pawn, crate::game::Color::Black)) => '\u{265f}',
        Some((Piece::Knight, crate::game::Color::Black)) => '\u{265e}',
        Some((Piece::Bishop, crate::game::Color::Black)) => '\u{265d}',
        Some((Piece::Rook, crate::game::Color::Black)) => '\u{265c}',
        Some((Piece::Queen, crate::game::Color::Black)) => '\u{265b}',
        Some((Piece::King, crate::game::Color::Black)) => '\u{265a}',
        None => ' ',
    }
}

/// What `piece_to_unicode` returns.
pub open spec fn spec_piece_glyph(piece: Option<(Piece, crate::game::Color)>) -> char {
    match piece {
        Some((Piece::Pawn, crate::game::Color::White)) => '\u{2659}',
        Some((Piece::Knight, crate::game::Color::White)) => '\u{2658}',
        Some((Piece::Bishop, crate::game::Color::White)) => '\u{2657}',
        Some((Piece::Rook, crate::game::Color::White)) => '\u{2656}',
        Some((Piece::Queen, crate::game::Color::White)) => '\u{2655}',
        Some((Piece::King, crate::game::Color::White)) => '\u{2654}',
        Some((Piece::Pawn, crate::game::Color::Black)) => '\u{265f}',
        Some((Piece::Knight, crate::game::Color::Black)) => '\u{265e}',
        Some((Piece::Bishop, crate::game::Color::Black)) => '\u{265d}',
        Some((Piece::Rook, crate::game::Color::Black)) => '\u{265c}',
        Some((Piece::Queen, crate::game::Color::Black)) => '\u{265b}',
        Some((Piece::King, crate::game::Color::Black)) => '\u{265a}',
        None => ' ',
    }
}

/// The client's own running state: who it is, who it faces.
pub struct GameState {
    pub my_username: String,
    pub opponent_username: String,
}

impl GameState {
    /// A fresh client: no name yet, a placeholder opponent.
    pub fn new() -> (s: GameState)
        ensures
            s.my_username@ == Seq::<char>::empty(),
            s.opponent_username@ == "opponent"@,
    {
        GameState {
            my_username: String::new(),
            opponent_username: String::from_str("opponent"),
        }
    }
}

/// What one line of client input asks for.
#[derive(Debug, Clone, PartialEq, Eq)]
pub enum ClientInput {
    /// Show the command help.
    Help,
    /// Send this message to the server.
    Send(Message),
    /// `/log` without exactly two more words: show the log-in usage.
    BadLogIn,
    /// An unrecognized `/` command: point at the help.
    UnknownCommand,
    /// Neither a command, a chat line, nor anything shaped like a move.
    NotAMove,
}

/// A blank as the tokenizer sees it.
pub open spec fn spec_is_blank(c: char) -> bool {
    c == ' ' || c == '\t' || c == '\r' || c == '\n'
}

/// Whether `c` names a file, `a` through `h`.
pub open spec fn spec_is_file(c: char) -> bool {
    'a' <= c <= 'h'
}

/// Whether `c` names a rank, `1` through `8`.
pub open spec fn spec_is_rank(c: char) -> bool {
    '1' <= c <= '8'
}

/// Whether some two neighbouring characters name a square, as the move
/// patterns ask.
pub open spec fn spec_has_square(s: Seq<char>) -> bool {
    exists|i: int|
        #![trigger s[i]]
        0 <= i && i + 2 <= s.len() && spec_is_file(s[i]) && spec_is_rank(s[i + 1])
}

/// Whether `O-O` occurs, the castling shape.
pub open spec fn spec_has_castle(s: Seq<char>) -> bool {
    exists|i: int|
        #![trigger s[i]]
        0 <= i && i + 3 <= s.len() && s[i] == 'O' && s[i + 1] == '-' && s[i + 2] == 'O'
}

/// What counts as a move-shaped line: some square is named, or a castling
/// mark occurs.  This is exactly what the long-algebraic and standard
/// patterns accept somewhere in the line, since every other part of a
/// standard move mark is optional.
pub open spec fn spec_move_shaped(s: Seq<char>) -> bool {
    spec_has_square(s) || spec_has_castle(s)
}

/// The blanks-split tokens still to come.
pub open spec fn spec_tokens_from(cur: Seq<char>, rest: Seq<char>) -> Seq<Seq<char>>
    decreases rest.len(),
{
    if rest.len() == 0 {
        if cur.len() == 0 {
            Seq::empty()
        } else {
            seq![cur]
        }
    } else if spec_is_blank(rest[0]) {
        if cur.len() == 0 {
            spec_tokens_from(Seq::empty(), rest.drop_first())
        } else {
            seq![cur] + spec_tokens_from(Seq::empty(), rest.drop_first())
        }
    } else {
        spec_tokens_from(cur.push(rest[0]), rest.drop_first())
    }
}

/// The blanks-split tokens of a line.
pub open spec fn spec_tokens(s: Seq<char>) -> Seq<Seq<char>> {
    spec_tokens_from(Seq::empty(), s)
}

/// Split a line at blanks, dropping empty pieces.
pub fn tokenize(s: &str) -> (r: Vec<String>)
    ensures
        crate::store::spec_views(r@) == spec_tokens(s@),
{
    let mut r: Vec<String> = Vec::new();
    let n = s.unicode_len();
    let mut start: usize = 0;
    let mut i: usize = 0;
    proof {
        assert(s@.subrange(0, 0) =~= Seq::<char>::empty());
        assert(s@.skip(0) =~= s@);
        assert(crate::store::spec_views(r@) =~= Seq::<Seq<char>>::empty());
    }
    while i < n
        invariant
            start <= i <= n,
            n == s@.len(),
            crate::store::spec_views(r@) + spec_tokens_from(
                s@.subrange(start as int, i as int),
                s@.skip(i as int),
            ) =~= spec_tokens(s@),
        decreases n - i,
    {
        let c = s.get_char(i);
        let blank = c == ' ' || c == '\t' || c == '\r' || c == '\n';
        if blank {
            proof {
                assert(s@.skip(i as int)[0] == c);
                assert(s@.skip(i as int).drop_first() =~= s@.skip(i as int + 1));
                assert(s@.subrange(i as int + 1, i as int + 1) =~= Seq::<char>::empty());
            }
            if start < i {
                let tok = s.substring_char(start, i);
                let ghost pre = r@;
                r.push(String::from_str(tok));
                proof {
                    assert(crate::store::spec_views(r@) =~= crate::store::spec_views(pre).push(
                        tok@,
                    ));
                    assert(crate::store::spec_views(pre) + (seq![
                        s@.subrange(start as int, i as int),
                    ] + spec_tokens_from(Seq::empty(), s@.skip(i as int + 1)))
                        =~= crate::store::spec_views(r@) + spec_tokens_from(
                        Seq::empty(),
                        s@.skip(i as int + 1),
                    ));
                }
            } else {
                proof {
                    assert(s@.subrange(start as int, i as int) =~= Seq::<char>::empty());
                }
            }
            start = i + 1;
        } else {
            proof {
                assert(s@.skip(i as int)[0] == c);
                assert(s@.skip(i as int).drop_first() =~= s@.skip(i as int + 1));
                assert(s@.subrange(start as int, i as int).push(c) =~= s@.subrange(
                    start as int,
                    i as int + 1,
                ));
            }
        }
        i = i + 1;
    }
    if start < n {
        let tok = s.substring_char(start, n);
        let ghost pre = r@;
        r.push(String::from_str(tok));
        proof {
            assert(s@.skip(n as int) =~= Seq::<char>::empty());
            assert(crate::store::spec_views(r@) =~= crate::store::spec_views(pre).push(tok@));
            assert(crate::store::spec_views(r@) =~= spec_tokens(s@));
        }
    } else {
        proof {
            assert(s@.skip(n as int) =~= Seq::<char>::empty());
            assert(s@.subrange(start as int, n as int) =~= Seq::<char>::empty());
            assert(crate::store::spec_views(r@) =~= spec_tokens(s@));
        }
    }
    r
}

/// Whether `s` opens with `prefix`.
pub fn str_starts_with(s: &str, prefix: &str) -> (r: bool)
    ensures
        r == (prefix@.len() <= s@.len() && s@.subrange(0, prefix@.len() as int) == prefix@),
{
    let pl = prefix.unicode_len();
    let n = s.unicode_len();
    if pl > n {
        return false;
    }
    let mut i: usize = 0;
    while i < pl
        invariant
            i <= pl,
            pl <= n,
            pl == prefix@.len(),
            n == s@.len(),
            forall|j: int| 0 <= j < i ==> s@[j] == prefix@[j],
        decreases pl - i,
    {
        if s.get_char(i) != prefix.get_char(i) {
            proof {
                assert(s@.subrange(0, pl as int)[i as int] != prefix@[i as int]);
            }
            return false;
        }
        i = i + 1;
    }
    proof {
        assert(s@.subrange(0, pl as int) =~= prefix@);
    }
    true
}

/// Whether the line is move-shaped: it names a square somewhere, or holds a
/// castling mark.
pub fn is_move_shaped(s: &str) -> (r: bool)
    ensures
        r == spec_move_shaped(s@),
{
    let n = s.unicode_len();
    let mut i: usize = 0;
    while i < n
        invariant
            i <= n,
            n == s@.len(),
            forall|j: int|
                #![trigger s@[j]]
                0 <= j < i && j + 2 <= n ==> !(spec_is_file(s@[j]) && spec_is_rank(s@[j + 1])),
            forall|j: int|
                #![trigger s@[j]]
                0 <= j < i && j + 3 <= n ==> !(s@[j] == 'O' && s@[j + 1] == '-' && s@[j + 2]
                    == 'O'),
        decreases n - i,
    {
        if n - i >= 2 {
            let a = s.get_char(i);
            let b = s.get_char(i + 1);
            if 'a' <= a && a <= 'h' && '1' <= b && b <= '8' {
                return true;
            }
            if n - i >= 3 {
                let c = s.get_char(i + 2);
                if a == 'O' && b == '-' && c == 'O' {
                    return true;
                }
            }
        }
        i = i + 1;
    }
    proof {
        if spec_has_square(s@) {
            let j = choose|j: int|
                #![trigger s@[j]]
                0 <= j && j + 2 <= s@.len() && spec_is_file(s@[j]) && spec_is_rank(s@[j + 1]);
            assert(s@[j] == s@[j]);
        }
        if spec_has_castle(s@) {
            let j = choose|j: int|
                #![trigger s@[j]]
                0 <= j && j + 3 <= s@.len() && s@[j] == 'O' && s@[j + 1] == '-' && s@[j + 2]
                    == 'O';
            assert(s@[j] == s@[j]);
        }
    }
    false
}

/// Read one trimmed line of client input.
///
/// `/help` first; then the slash commands, `/log` demanding exactly two
/// more words, the last of which is the name; then chat after `:`; then a
/// move-shaped line; the rest is no move.
pub fn classify_input(trimmed: &str) -> (r: ClientInput)
    ensures
        ({
            let t = trimmed@;
            if spec_starts_with(t, "/help"@) {
                r == ClientInput::Help
            } else if spec_starts_with(t, "/"@) {
                if spec_starts_with(t, "/log"@) {
                    if spec_tokens(t).len() != 3 {
                        r == ClientInput::BadLogIn
                    } else {
                        r matches ClientInput::Send(Message::Command(Command::LogIn(u))) && u@
                            == spec_tokens(t)[2]
                    }
                } else if spec_starts_with(t, "/play"@) {
                    r == ClientInput::Send(Message::Command(Command::Play))
                } else if spec_starts_with(t, "/stat"@) {
                    r == ClientInput::Send(Message::Command(Command::Stats))
                } else if spec_starts_with(t, "/concede"@) {
                    r == ClientInput::Send(Message::Command(Command::Concede))
                } else {
                    r == ClientInput::UnknownCommand
                }
            } else if spec_starts_with(t, ":"@) {
                r matches ClientInput::Send(Message::Text(s)) && s@ == t.subrange(
                    1,
                    t.len() as int,
                )
            } else if spec_move_shaped(t) {
                r matches ClientInput::Send(Message::Move(s)) && s@ == t
            } else {
                r == ClientInput::NotAMove
            }
        }),
{
    let n = trimmed.unicode_len();
    if str_starts_with(trimmed, "/help") {
        return ClientInput::Help;
    }
    if str_starts_with(trimmed, "/") {
        if str_starts_with(trimmed, "/log") {
            let parts = tokenize(trimmed);
            if parts.len() != 3 {
                return ClientInput::BadLogIn;
            }
            let username = &parts[2];
            proof {
                assert(crate::store::spec_views(parts@)[2] == parts@[2]@);
            }
            return ClientInput::Send(
                Message::Command(Command::LogIn(username.clone())),
            );
        }
        if str_starts_with(trimmed, "/play") {
            return ClientInput::Send(Message::Command(Command::Play));
        }
        if str_starts_with(trimmed, "/stat") {
            return ClientInput::Send(Message::Command(Command::Stats));
        }
        if str_starts_with(trimmed, "/concede") {
            return ClientInput::Send(Message::Command(Command::Concede));
        }
        return ClientInput::UnknownCommand;
    }
    if str_starts_with(trimmed, ":") {
        proof {
            reveal_strlit(":");
        }
        let rest = trimmed.substring_char(1, n);
        return ClientInput::Send(Message::Text(String::from_str(rest)));
    }
    if is_move_shaped(trimmed) {
        return ClientInput::Send(Message::Move(String::from_str(trimmed)));
    }
    ClientInput::NotAMove
}

/// Whether `p` is a prefix of `s`.
pub open spec fn spec_starts_with(s: Seq<char>, p: Seq<char>) -> bool {
    p.len() <= s.len() && s.subrange(0, p.len() as int) == p
}

} // verus!

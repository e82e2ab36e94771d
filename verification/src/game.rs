//! One chess game as the server tracks it: the opaque board, the side to
//! move, the two seats, the status and the recorded result.

use vstd::prelude::*;
use crate::engine;
use crate::messages::ChessError;

verus! {

/// A side of the board.
#[derive(Debug, Clone, Copy, PartialEq, Eq, Structural)]
pub enum Color {
    White,
    Black,
}

impl Color {
    /// The opposing side.
    pub fn other(self) -> (r: Color)
        ensures
            r == self.spec_other(),
    {
        match self {
            Color::White => Color::Black,
            Color::Black => Color::White,
        }
    }

    /// What `other` returns.
    pub open spec fn spec_other(self) -> Color {
        match self {
            Color::White => Color::Black,
            Color::Black => Color::White,
        }
    }
}

/// Where a game stands in its lifecycle.  `Finished` and `Cancelled` are
/// terminal: no further moves are accepted.
#[derive(Debug, Clone, Copy, PartialEq, Eq, Structural)]
pub enum GameStatus {
    Pending,
    InProgress,
    Finished,
    Cancelled,
}

/// How a finished game ended.
#[derive(Debug, Clone, Copy, PartialEq, Eq, Structural)]
pub enum GameResult {
    WhiteWinsMate,
    BlackWinsMate,
    WhiteResigns,
    BlackResigns,
    Draw,
}

impl GameResult {
    /// The rendering used in the final `Game finished: <result>` log line.
    pub fn describe(&self) -> (r: String)
        ensures
            r@ == self.spec_describe(),
    {
        match self {
            GameResult::WhiteWinsMate => String::from_str("WhiteWinsMate"),
            GameResult::BlackWinsMate => String::from_str("BlackWinsMate"),
            GameResult::WhiteResigns => String::from_str("WhiteResigns"),
            GameResult::BlackResigns => String::from_str("BlackResigns"),
            GameResult::Draw => String::from_str("Draw"),
        }
    }

    /// What `describe` returns.
    pub open spec fn spec_describe(&self) -> Seq<char> {
        match self {
            GameResult::WhiteWinsMate => "WhiteWinsMate"@,
            GameResult::BlackWinsMate => "BlackWinsMate"@,
            GameResult::WhiteResigns => "WhiteResigns"@,
            GameResult::BlackResigns => "BlackResigns"@,
            GameResult::Draw => "Draw"@,
        }
    }
}

/// Mutable per-game state.
///
/// The board itself is opaque to the library; the mirror `current_turn` is
/// kept strictly alternating by `make_move`, starting from White on a fresh
/// game.
#[derive(Debug)]
pub struct Game {
    pub board: chess::Board,
    pub current_turn: Color,
    pub white: Option<String>,
    pub black: Option<String>,
    pub status: GameStatus,
    pub result: Option<GameResult>,
}

/// The seat `name` occupies in `g`, if any; White is checked first.
pub open spec fn spec_seat_of(g: &Game, name: Seq<char>) -> Option<Color> {
    if g.white matches Some(w) && w@ == name {
        Some(Color::White)
    } else if g.black matches Some(b) && b@ == name {
        Some(Color::Black)
    } else {
        None
    }
}

/// Whether `name` occupies a seat of `g`.
pub open spec fn spec_seated(g: &Game, name: Seq<char>) -> bool {
    spec_seat_of(g, name) is Some
}

impl Game {
    /// A fresh game: initial position, White to move, no seats, `Pending`,
    /// no result.
    pub fn new() -> (g: Game)
        ensures
            g.current_turn == Color::White,
            g.white is None,
            g.black is None,
            g.status == GameStatus::Pending,
            g.result is None,
    {
        Game {
            board: engine::new_board(),
            current_turn: Color::White,
            white: None,
            black: None,
            status: GameStatus::Pending,
            result: None,
        }
    }

    /// An equal copy of the game.
    pub fn duplicate(&self) -> (g: Game)
        ensures
            g == *self,
    {
        Game {
            board: self.board,
            current_turn: self.current_turn,
            white: match &self.white {
                Some(w) => Some(w.clone()),
                None => None,
            },
            black: match &self.black {
                Some(b) => Some(b.clone()),
                None => None,
            },
            status: self.status,
            result: self.result,
        }
    }

    /// Parse `move_str` and, when the engine accepts it as legal in the
    /// current position, apply it and pass the turn to the other side.
    ///
    /// The move is applied exactly when the engine parses the notation and
    /// finds the move legal here.  On any rejection nothing changes; seats,
    /// status and result are never touched here.
    pub fn make_move(&mut self, move_str: &str) -> (r: Result<(), ChessError>)
        ensures
            final(self).white == old(self).white,
            final(self).black == old(self).black,
            final(self).status == old(self).status,
            final(self).result == old(self).result,
            r is Ok <==> (engine::spec_parse_of(move_str@) matches Some(m)
                && engine::spec_apply_of(old(self).board, m) is Some),
            match r {
                Ok(()) => {
                    &&& final(self).current_turn == old(self).current_turn.spec_other()
                    &&& final(self).board == engine::spec_apply_of(
                        old(self).board,
                        engine::spec_parse_of(move_str@).unwrap(),
                    ).unwrap()
                },
                Err(e) => {
                    let t = if engine::spec_parse_of(move_str@) is None {
                        "Couldn't parse move."@
                    } else {
                        "Invalid move."@
                    };
                    &&& *final(self) == *old(self)
                    &&& e matches ChessError::GameStateError(m) && m@ == t
                },
            },
    {
        match engine::parse_move(move_str) {
            Some(mov) => {
                match engine::apply_if_legal(&self.board, mov) {
                    Some(next) => {
                        self.board = next;
                        self.current_turn = self.current_turn.other();
                        Ok(())
                    },
                    None => Err(
                        ChessError::GameStateError(String::from_str("Invalid move.")),
                    ),
                }
            },
            None => Err(ChessError::GameStateError(String::from_str("Couldn't parse move."))),
        }
    }

    /// Record that `player` gives up: their side resigns and the game is
    /// finished.  A caller who occupies no seat changes nothing and is
    /// reported unknown.
    pub fn concede(&mut self, player: &String) -> (r: Result<(), ChessError>)
        ensures
            final(self).board == old(self).board,
            final(self).current_turn == old(self).current_turn,
            final(self).white == old(self).white,
            final(self).black == old(self).black,
            match spec_seat_of(old(self), player@) {
                Some(Color::White) => {
                    &&& r is Ok
                    &&& final(self).result == Some(GameResult::WhiteResigns)
                    &&& final(self).status == GameStatus::Finished
                },
                Some(Color::Black) => {
                    &&& r is Ok
                    &&& final(self).result == Some(GameResult::BlackResigns)
                    &&& final(self).status == GameStatus::Finished
                },
                None => {
                    &&& r == Err::<(), ChessError>(ChessError::UserNotFoundError)
                    &&& *final(self) == *old(self)
                },
            },
    {
        let seated_white = match &self.white {
            Some(w) => *w == *player,
            None => false,
        };
        let seated_black = match &self.black {
            Some(b) => *b == *player,
            None => false,
        };
        if seated_white {
            self.result = Some(GameResult::WhiteResigns);
        } else if seated_black {
            self.result = Some(GameResult::BlackResigns);
        } else {
            return Err(ChessError::UserNotFoundError);
        }
        self.status = GameStatus::Finished;
        Ok(())
    }

    /// Whether the side to move stands in check.  The answer is the
    /// engine's; the game itself is untouched.
    pub fn is_check(&mut self) -> (r: bool)
        ensures
            *final(self) == *old(self),
            r == (engine::spec_checkers_of(old(self).board) > 0),
    {
        engine::checkers_count(&self.board) > 0
    }

    /// Whether the side to move is checkmated: no legal move while in check.
    /// If so, the game finishes with a mate win for the other side; a
    /// stalemate or a live position changes nothing.
    pub fn is_mate(&mut self) -> (r: bool)
        ensures
            r == (engine::spec_legal_count_of(old(self).board) == 0
                && engine::spec_checkers_of(old(self).board) > 0),
            final(self).board == old(self).board,
            final(self).current_turn == old(self).current_turn,
            final(self).white == old(self).white,
            final(self).black == old(self).black,
            if r {
                &&& final(self).status == GameStatus::Finished
                &&& final(self).result == Some(
                    if old(self).current_turn == Color::White {
                        GameResult::BlackWinsMate
                    } else {
                        GameResult::WhiteWinsMate
                    },
                )
            } else {
                *final(self) == *old(self)
            },
    {
        let no_moves = engine::legal_move_count(&self.board) == 0;
        let in_check = engine::checkers_count(&self.board) > 0;
        if no_moves && in_check {
            if self.current_turn == Color::White {
                self.result = Some(GameResult::BlackWinsMate);
            } else {
                self.result = Some(GameResult::WhiteWinsMate);
            }
            self.status = GameStatus::Finished;
            true
        } else {
            false
        }
    }

    /// Whether the position may be declared drawn where it stands.  Only
    /// stalemate is recognized; repetition, the fifty-move rule and bare
    /// material are not tracked.  The answer comes from the engine; the
    /// game itself is untouched.
    pub fn is_drawable(&mut self) -> (r: bool)
        ensures
            *final(self) == *old(self),
            r == (engine::spec_legal_count_of(old(self).board) == 0
                && engine::spec_checkers_of(old(self).board) == 0),
    {
        let no_moves = engine::legal_move_count(&self.board) == 0;
        let in_check = engine::checkers_count(&self.board) > 0;
        no_moves && !in_check
    }

    /// The outcome on record, once one is.
    pub fn check_result(&self) -> (r: Option<GameResult>)
        ensures
            r == self.result,
    {
        self.result
    }

    /// Whether the side to move is stalemated: no legal move, not in check.
    /// If so, the game finishes as a draw; otherwise nothing changes.
    pub fn is_stalemate(&mut self) -> (r: bool)
        ensures
            r == (engine::spec_legal_count_of(old(self).board) == 0
                && engine::spec_checkers_of(old(self).board) == 0),
            final(self).board == old(self).board,
            final(self).current_turn == old(self).current_turn,
            final(self).white == old(self).white,
            final(self).black == old(self).black,
            if r {
                &&& final(self).status == GameStatus::Finished
                &&& final(self).result == Some(GameResult::Draw)
            } else {
                *final(self) == *old(self)
            },
    {
        let no_moves = engine::legal_move_count(&self.board) == 0;
        let in_check = engine::checkers_count(&self.board) > 0;
        if no_moves && !in_check {
            self.result = Some(GameResult::Draw);
            self.status = GameStatus::Finished;
            true
        } else {
            false
        }
    }
}

} // verus!

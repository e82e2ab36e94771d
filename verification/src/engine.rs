//! The rule-engine adapter: the library's only gate to the `chess` crate.
//!
//! The chess rules themselves are outside the scope of this library: a board
//! and a parsed move are opaque values.  What the engine answers about them
//! is deterministic in its arguments, so each answer carries a name —
//! `spec_parse_of`, `spec_apply_of`, `spec_checkers_of`,
//! `spec_legal_count_of`, `spec_fen_of` — and every wrapper's contract says
//! it returns the named result.  The names are never defined; everything
//! the server decides *about* those answers is verified against them.

use vstd::prelude::*;

verus! {

/// The `chess` crate's board: an opaque position value.
#[verifier::external_type_specification]
#[verifier::external_body]
pub struct ExBoard(chess::Board);

/// The `chess` crate's parsed move: an opaque move value.
#[verifier::external_type_specification]
#[verifier::external_body]
pub struct ExChessMove(chess::ChessMove);

/// What `chess::ChessMove::from_str` makes of a text.
pub uninterp spec fn spec_parse_of(s: Seq<char>) -> Option<chess::ChessMove>;

/// The position after a move, when the move is legal there.
pub uninterp spec fn spec_apply_of(b: chess::Board, m: chess::ChessMove) -> Option<chess::Board>;

/// How many pieces give check to the side to move.
pub uninterp spec fn spec_checkers_of(b: chess::Board) -> u32;

/// How many legal moves the side to move has.
pub uninterp spec fn spec_legal_count_of(b: chess::Board) -> usize;

/// The FEN rendering of a position.
pub uninterp spec fn spec_fen_of(b: chess::Board) -> Seq<char>;

/// Relies on `chess::Board::default`: the standard initial position, with
/// White to move.
#[verifier::external_body]
pub fn new_board() -> chess::Board {
    chess::Board::default()
}

/// Relies on `chess::ChessMove::from_str`: parses a move written in long
/// algebraic (UCI) notation.  The first four characters must name the
/// source and destination squares; a text of exactly five characters must
/// end in a promotion letter; a longer tail is ignored.  `None` when the
/// text is not of that shape.
#[verifier::external_body]
pub fn parse_move(s: &str) -> (r: Option<chess::ChessMove>)
    ensures
        r == spec_parse_of(s@),
{
    <chess::ChessMove as core::str::FromStr>::from_str(s).ok()
}

/// Relies on `chess::Board::legal` and `chess::Board::make_move_new`: the
/// position after the move when the move is legal in the given position,
/// `None` otherwise.  `make_move_new` is reached only for a legal move, on
/// which it does not panic.
#[verifier::external_body]
pub fn apply_if_legal(board: &chess::Board, m: chess::ChessMove) -> (r: Option<chess::Board>)
    ensures
        r == spec_apply_of(*board, m),
{
    if board.legal(m) {
        Some(board.make_move_new(m))
    } else {
        None
    }
}

/// Relies on `chess::Board::checkers` and `chess::BitBoard::popcnt`: how
/// many pieces give check to the side to move.
#[verifier::external_body]
pub fn checkers_count(board: &chess::Board) -> (r: u32)
    ensures
        r == spec_checkers_of(*board),
{
    board.checkers().popcnt()
}

/// Relies on `chess::MoveGen::new_legal`: how many legal moves the side to
/// move has in the given position.
#[verifier::external_body]
pub fn legal_move_count(board: &chess::Board) -> (r: usize)
    ensures
        r == spec_legal_count_of(*board),
{
    chess::MoveGen::new_legal(board).count()
}

/// Relies on the `Display` impl of `chess::Board`: the FEN rendering of the
/// position, which `chess::Board::from_str` parses back.
#[verifier::external_body]
pub fn board_fen(board: &chess::Board) -> (r: String)
    ensures
        r@ == spec_fen_of(*board),
{
    format!("{}", board)
}

} // verus!

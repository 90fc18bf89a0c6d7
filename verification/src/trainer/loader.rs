//! Training positions: what is read of one, and the batches made of them.

use bulletformat::ChessBoard;
use vstd::prelude::*;

verus! {

/// How a game ended, seen from the side to move.
#[derive(Clone, Copy, Debug, PartialEq, Eq, Structural, Hash)]
pub enum GameResult {
    Loss,
    Draw,
    Win,
}

impl GameResult {
    /// The number of the result: 0 for a loss, 1 for a draw, 2 for a win.
    pub open spec fn spec_index(self) -> u8 {
        match self {
            GameResult::Loss => 0,
            GameResult::Draw => 1,
            GameResult::Win => 2,
        }
    }

    /// The number of the result: 0 for a loss, 1 for a draw, 2 for a win.
    #[verifier::when_used_as_spec(spec_index)]
    pub fn index(self) -> (i: u8)
        ensures
            i == self.spec_index(),
    {
        match self {
            GameResult::Loss => 0,
            GameResult::Draw => 1,
            GameResult::Win => 2,
        }
    }

    /// The result with the given number, if it is the number of one.
    pub fn from_index(index: usize) -> (r: Option<GameResult>)
        ensures
            match r {
                Some(result) => result.spec_index() == index,
                None => index > 2,
            },
    {
        if index == 0 {
            Some(GameResult::Loss)
        } else if index == 1 {
            Some(GameResult::Draw)
        } else if index == 2 {
            Some(GameResult::Win)
        } else {
            None
        }
    }
}

/// A position that training data can be made of.
pub trait LoadableDataType: Sized {
    /// The evaluation of the position.
    fn score(&self) -> i16;

    /// How the game ended; none if the position records a result that
    /// [`GameResult`] does not know.
    fn result(&self) -> Option<GameResult>;
}

/// A chess position in the 32-byte training format.
#[verifier::external_type_specification]
#[verifier::external_body]
pub struct ExChessBoard(ChessBoard);

/// The number that a chess position records as the game's result.
pub uninterp spec fn chess_board_result(board: ChessBoard) -> usize;

/// The evaluation that a chess position records.
pub uninterp spec fn chess_board_score(board: ChessBoard) -> i16;

/// `BulletFormat::result_idx` of a chess position: the stored result as a
/// number. The position is only read, so the same position always gives
/// the same number.
#[verifier::external_body]
fn chess_board_result_idx(board: &ChessBoard) -> (idx: usize)
    ensures
        idx == chess_board_result(*board),
{
    bulletformat::BulletFormat::result_idx(board)
}

/// `BulletFormat::score` of a chess position: the stored evaluation. The
/// position is only read, so the same position always gives the same
/// evaluation.
#[verifier::external_body]
fn chess_board_stored_score(board: &ChessBoard) -> (score: i16)
    ensures
        score == chess_board_score(*board),
{
    bulletformat::BulletFormat::score(board)
}

impl LoadableDataType for ChessBoard {
    /// The stored evaluation.
    fn score(&self) -> (score: i16)
        ensures
            score == chess_board_score(*self),
    {
        chess_board_stored_score(self)
    }

    /// The result with the stored number: a loss for 0, a draw for 1, a
    /// win for 2, none for any other number.
    fn result(&self) -> (result: Option<GameResult>)
        ensures
            match result {
                Some(r) => r.spec_index() == chess_board_result(*self),
                None => chess_board_result(*self) > 2,
            },
    {
        GameResult::from_index(chess_board_result_idx(self))
    }
}

/// A source of positions of type `T`: it knows its files and reads them
/// batch by batch, whatever the layout of the files is.
pub trait DataLoader<T>: Clone + Send + Sync + 'static {
    /// The files the data is read from.
    fn data_file_paths(&self) -> &[String];

    /// The number of positions in the files, where it is known.
    fn count_positions(&self) -> Option<u64> {
        None
    }

    /// Reads the files batch by batch and hands each batch to `f`, until
    /// `f` returns `true` or the data ends.
    fn map_batches<F: FnMut(&[T]) -> bool>(&self, batch_size: usize, f: F);
}

} // verus!

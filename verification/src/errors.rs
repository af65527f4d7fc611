use vstd::prelude::*;

verus! {

/// A failure reported by the puzzle engine. Every error is fatal: the engine
/// stops at the first one and returns it to the caller unchanged.
#[derive(Debug, PartialEq, Eq)]
pub enum PuzzleError {
    /// A whitespace separated token of the input is not a base-10 integer
    /// that fits the height type. Carries the offending token.
    ParseError { token: String },
    /// The clue sequence length is not a multiple of four.
    InvalidRuleCount,
    /// The grid length is not the square of a quarter of the clue count.
    InvalidGridSize,
    /// A line of sight repeats a height. Carries the line.
    DuplicateValue { line: Vec<i32> },
    /// A line of sight holds a height outside `1..=N`. Carries the line.
    OutOfRangeValue { line: Vec<i32> },
    /// A line's visibility count disagrees with its clue. Carries the clue,
    /// the computed count and the line, for diagnostics.
    RuleMismatch { expected: i32, actual: i32, line: Vec<i32> },
    /// A clue index outside the driving loop's range was used; unreachable
    /// from correct driving logic.
    InternalIndexError,
}

/// The mathematical model of a [`PuzzleError`]: the same variants over
/// `Seq` and `int` instead of `Vec` and the machine integers.
pub enum ErrorModel {
    ParseError { token: Seq<char> },
    InvalidRuleCount,
    InvalidGridSize,
    DuplicateValue { line: Seq<i32> },
    OutOfRangeValue { line: Seq<i32> },
    RuleMismatch { expected: int, actual: int, line: Seq<i32> },
    InternalIndexError,
}

impl View for PuzzleError {
    type V = ErrorModel;

    open spec fn view(&self) -> ErrorModel {
        match self {
            PuzzleError::ParseError { token } => ErrorModel::ParseError { token: token@ },
            PuzzleError::InvalidRuleCount => ErrorModel::InvalidRuleCount,
            PuzzleError::InvalidGridSize => ErrorModel::InvalidGridSize,
            PuzzleError::DuplicateValue { line } => ErrorModel::DuplicateValue { line: line@ },
            PuzzleError::OutOfRangeValue { line } => ErrorModel::OutOfRangeValue { line: line@ },
            PuzzleError::RuleMismatch { expected, actual, line } => ErrorModel::RuleMismatch {
                expected: *expected as int,
                actual: *actual as int,
                line: line@,
            },
            PuzzleError::InternalIndexError => ErrorModel::InternalIndexError,
        }
    }
}

/// Lifts a plain verdict to its mathematical model.
pub open spec fn outcome_model(r: Result<(), PuzzleError>) -> Result<(), ErrorModel> {
    match r {
        Ok(()) => Ok(()),
        Err(e) => Err(e@),
    }
}

/// Model of a verdict that carries a line on success.
pub open spec fn line_outcome_model(r: Result<Vec<i32>, PuzzleError>) -> Result<
    Seq<i32>,
    ErrorModel,
> {
    match r {
        Ok(line) => Ok(line@),
        Err(e) => Err(e@),
    }
}

} // verus!

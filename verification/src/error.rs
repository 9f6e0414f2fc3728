//! The errors J reports.

use vstd::prelude::*;

verus! {

/// The kinds of error the interpreter reports, named as J names them.
#[derive(Clone, Debug, PartialEq, Eq)]
pub enum JError {
    AssertionFailure,
    Break,
    ControlError,
    DomainError,
    FileNameError,
    FileNumberError,
    FoldLimit,
    IllFormedName,
    IllFormedNumber,
    IndexError,
    InterfaceError,
    LengthError,
    LocaleError,
    LimitError,
    NaNError,
    NonceError,
    NonUniqueSparseElements,
    NounResultWasRequired,
    OpenQuote,
    OutOfMemory,
    RankError,
    SecurityViolation,
    SpellingError,
    StackError,
    SyntaxError,
    TimeLimit,
    UncaughtThrow,
    ValueError,
    /// An error known only by its message.
    Legacy(String),
}

} // verus!

//! Errors of a parse run and of schema construction.
use vstd::prelude::*;

verus! {

/// Why a token could not be read as an integer.
#[derive(Clone, Copy, Debug, PartialEq, Eq, Structural)]
pub enum IntErrorKind {
    /// The token is empty.
    Empty,
    /// The token is not an optional sign followed by one or more decimal digits.
    InvalidDigit,
    /// The value is above the largest value of the target width.
    PosOverflow,
    /// The value is below the smallest value of the target width.
    NegOverflow,
}

/// Argument parsing errors. Each names the argument it concerns, as it was
/// spelled, and carries the offending token where there is one.
#[derive(Clone, Debug, PartialEq, Eq)]
pub enum CliError {
    /// An option was the last token, with no value after it.
    MissingValue(String),
    /// A mandatory argument ended the run unset or empty.
    MissingRequired(String),
    /// A value could not be read as a floating-point number.
    ParseFloatError(String, Vec<u8>),
    /// A value could not be read as an integer of the option's width.
    ParseIntError(String, Vec<u8>, IntErrorKind),
    /// A value is not valid UTF-8 where text was required.
    ParseStrError(String, Vec<u8>),
    /// A token matched no flag or option, and there is no positional sink.
    Unknown(Vec<u8>),
}

/// The mathematical content of a [`CliError`].
pub enum ErrorView {
    MissingValue(Seq<char>),
    MissingRequired(Seq<char>),
    ParseFloatError(Seq<char>, Seq<u8>),
    ParseIntError(Seq<char>, Seq<u8>, IntErrorKind),
    ParseStrError(Seq<char>, Seq<u8>),
    Unknown(Seq<u8>),
}

impl View for CliError {
    type V = ErrorView;

    open spec fn view(&self) -> ErrorView {
        match self {
            CliError::MissingValue(a) => ErrorView::MissingValue(a@),
            CliError::MissingRequired(a) => ErrorView::MissingRequired(a@),
            CliError::ParseFloatError(a, t) => ErrorView::ParseFloatError(a@, t@),
            CliError::ParseIntError(a, t, k) => ErrorView::ParseIntError(a@, t@, *k),
            CliError::ParseStrError(a, t) => ErrorView::ParseStrError(a@, t@),
            CliError::Unknown(t) => ErrorView::Unknown(t@),
        }
    }
}

} // verus!

//! The failures of the parser.
use crate::primitives::same_bytes;
use vstd::prelude::*;

verus! {

/// Why a parse step failed.
///
/// The set is closed: every fallible step of the tokenizer and of the record
/// grammar reports exactly one of these kinds, together with the bytes needed
/// to describe the failure.
#[derive(Debug, Eq)]
pub enum ErrorKind {
    /// The given literal was required at the cursor and is not there.
    ExpectedLiteral(Vec<u8>),
    /// The input ended before the given delimiter was found.
    DelimiterNotFound(Vec<u8>),
    /// A line feed was required at the cursor and is not there.
    ExpectedNewline,
    /// The given token is not a decimal number that fits its integer type.
    InvalidNumber(Vec<u8>),
    /// None of the alternative literals is at the cursor.
    NoAlternativeMatched,
}

/// The mathematical value of an [`ErrorKind`]: the same kinds over sequences.
pub enum ErrorKindView {
    ExpectedLiteral(Seq<u8>),
    DelimiterNotFound(Seq<u8>),
    ExpectedNewline,
    InvalidNumber(Seq<u8>),
    NoAlternativeMatched,
}

impl View for ErrorKind {
    type V = ErrorKindView;

    open spec fn view(&self) -> ErrorKindView {
        match self {
            ErrorKind::ExpectedLiteral(lit) => ErrorKindView::ExpectedLiteral(lit@),
            ErrorKind::DelimiterNotFound(delimiter) => ErrorKindView::DelimiterNotFound(
                delimiter@,
            ),
            ErrorKind::ExpectedNewline => ErrorKindView::ExpectedNewline,
            ErrorKind::InvalidNumber(text) => ErrorKindView::InvalidNumber(text@),
            ErrorKind::NoAlternativeMatched => ErrorKindView::NoAlternativeMatched,
        }
    }
}

impl PartialEq for ErrorKind {
    /// Failures are equal where they are of the same kind and hold the same
    /// bytes.
    fn eq(&self, other: &ErrorKind) -> (equal: bool) {
        match (self, other) {
            (ErrorKind::ExpectedLiteral(a), ErrorKind::ExpectedLiteral(b)) => same_bytes(
                a.as_slice(),
                b.as_slice(),
            ),
            (ErrorKind::DelimiterNotFound(a), ErrorKind::DelimiterNotFound(b)) => same_bytes(
                a.as_slice(),
                b.as_slice(),
            ),
            (ErrorKind::ExpectedNewline, ErrorKind::ExpectedNewline) => true,
            (ErrorKind::InvalidNumber(a), ErrorKind::InvalidNumber(b)) => same_bytes(
                a.as_slice(),
                b.as_slice(),
            ),
            (ErrorKind::NoAlternativeMatched, ErrorKind::NoAlternativeMatched) => true,
            _ => false,
        }
    }
}

impl vstd::std_specs::cmp::PartialEqSpecImpl for ErrorKind {
    open spec fn obeys_eq_spec() -> bool {
        true
    }

    open spec fn eq_spec(&self, other: &ErrorKind) -> bool {
        self@ == other@
    }
}

/// The mathematical value of a step's outcome: the view of what it produced,
/// or the view of the failure.
pub open spec fn result_view<T: View>(res: Result<T, ErrorKind>) -> Result<T::V, ErrorKindView> {
    match res {
        Ok(value) => Ok(value@),
        Err(e) => Err(e@),
    }
}

} // verus!

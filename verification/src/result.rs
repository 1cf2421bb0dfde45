//! The error taxonomy shared by every operation of the crate.

use vstd::prelude::*;

verus! {

/// The six shapes a representation node can take.
#[derive(Clone, Copy, Debug, PartialEq, Eq, Structural)]
pub enum Shape {
    Number,
    String,
    Boolean,
    List,
    Mapping,
    Unit,
}

/// Why an operation failed.
#[derive(Clone, Debug, PartialEq, Eq)]
pub enum DataError {
    /// A destructor was applied to a node of another shape.
    ShapeMismatch { expected: Shape, actual: Shape },
    /// A map lookup or removal missed.
    KeyNotFound(String),
    /// A list access beyond the end.
    IndexOutOfBounds { index: usize, length: usize },
    /// A combinator rejected a value.
    ValidationFailed(String),
}

/// The mathematical reading of a [`DataError`].
pub enum ErrorView {
    ShapeMismatch { expected: Shape, actual: Shape },
    KeyNotFound(Seq<char>),
    IndexOutOfBounds { index: nat, length: nat },
    ValidationFailed(Seq<char>),
}

impl View for DataError {
    type V = ErrorView;

    open spec fn view(&self) -> ErrorView {
        match *self {
            DataError::ShapeMismatch { expected, actual } => ErrorView::ShapeMismatch {
                expected,
                actual,
            },
            DataError::KeyNotFound(key) => ErrorView::KeyNotFound(key@),
            DataError::IndexOutOfBounds { index, length } => ErrorView::IndexOutOfBounds {
                index: index as nat,
                length: length as nat,
            },
            DataError::ValidationFailed(message) => ErrorView::ValidationFailed(message@),
        }
    }
}

pub type DataResult<T> = Result<T, DataError>;

impl DataError {
    /// A shape mismatch: `expected` was asked for, `actual` was found.
    pub fn new_shape_mismatch(expected: Shape, actual: Shape) -> (e: DataError)
        ensures
            e@ == (ErrorView::ShapeMismatch { expected, actual }),
    {
        DataError::ShapeMismatch { expected, actual }
    }

    /// A missing key.
    pub fn new_key_not_found(key: &str) -> (e: DataError)
        ensures
            e@ == ErrorView::KeyNotFound(key@),
    {
        DataError::KeyNotFound(key.to_owned())
    }

    /// An index at or beyond `length`.
    pub fn new_index_out_of_bounds(index: usize, length: usize) -> (e: DataError)
        ensures
            e@ == (ErrorView::IndexOutOfBounds { index: index as nat, length: length as nat }),
    {
        DataError::IndexOutOfBounds { index, length }
    }

    /// A combinator-level rejection carrying `message`.
    pub fn new_custom(message: &str) -> (e: DataError)
        ensures
            e@ == ErrorView::ValidationFailed(message@),
    {
        DataError::ValidationFailed(message.to_owned())
    }

    /// A short human-readable account of the error.
    pub fn describe(&self) -> (s: String)
        ensures
            s@ == describe_spec(self@),
    {
        match self {
            DataError::ShapeMismatch { .. } => "shape mismatch".to_owned(),
            DataError::KeyNotFound(key) => key.clone(),
            DataError::IndexOutOfBounds { .. } => "index out of bounds".to_owned(),
            DataError::ValidationFailed(message) => message.clone(),
        }
    }
}

/// The text that [`DataError::describe`] returns.
pub open spec fn describe_spec(e: ErrorView) -> Seq<char> {
    match e {
        ErrorView::ShapeMismatch { .. } => "shape mismatch"@,
        ErrorView::KeyNotFound(key) => key,
        ErrorView::IndexOutOfBounds { .. } => "index out of bounds"@,
        ErrorView::ValidationFailed(message) => message,
    }
}

} // verus!

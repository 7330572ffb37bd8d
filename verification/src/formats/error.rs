//! Why bytes are no message of a format.

use vstd::prelude::*;

verus! {

/// Why bytes are no message of a format.
#[derive(Debug)]
pub enum FormatError {
    /// They are no JSON.
    Json(serde_json::Error),
    /// They are JSON, and no object.
    NotAnObject,
    /// They are too short.
    TooShort,
    /// They end within a number of variable length.
    TruncatedVarint,
    /// A number of variable length does not fit 64 bits, or a field has no number.
    InvalidVarint,
    /// They are no UTF-8.
    NotUtf8,
    /// A column's text is no number of its type.
    NotANumber(String),
    /// They hold no row.
    Empty,
}

/// The mathematical value of such an error.
#[verifier::ext_equal]
pub enum FormatErrorV {
    Json,
    NotAnObject,
    TooShort,
    TruncatedVarint,
    InvalidVarint,
    NotUtf8,
    NotANumber(Seq<char>),
    Empty,
}

impl View for FormatError {
    type V = FormatErrorV;

    open spec fn view(&self) -> FormatErrorV {
        match self {
            FormatError::Json(_) => FormatErrorV::Json,
            FormatError::NotAnObject => FormatErrorV::NotAnObject,
            FormatError::TooShort => FormatErrorV::TooShort,
            FormatError::TruncatedVarint => FormatErrorV::TruncatedVarint,
            FormatError::InvalidVarint => FormatErrorV::InvalidVarint,
            FormatError::NotUtf8 => FormatErrorV::NotUtf8,
            FormatError::NotANumber(s) => FormatErrorV::NotANumber(s@),
            FormatError::Empty => FormatErrorV::Empty,
        }
    }
}

} // verus!

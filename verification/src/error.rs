use vstd::prelude::*;

verus! {

/// The error taxonomy of the engine. Every failure carries a message.
#[derive(Debug, Clone, PartialEq)]
pub enum ZakuError {
    /// Bad SQL text, an unsupported clause or operator.
    ParseError(String),
    /// An unknown column, a type mismatch during resolution, an aggregate in
    /// `WHERE`, or a sort key that is not a column.
    ResolutionError(String),
    /// A runtime operand mismatch or a division by zero.
    TypeError(String),
    /// A file could not be opened, read or written.
    IoError(String),
    /// Malformed delimited input.
    CsvError(String),
    /// A number or date failed to parse.
    ValueParseError(String),
    /// An internal invariant was broken.
    InternalError(String),
}

impl ZakuError {
    /// An internal error with the given message.
    pub fn new(msg: &str) -> (r: ZakuError)
        ensures
            r is InternalError,
            r.msg_view() == msg@,
    {
        ZakuError::InternalError(msg.to_owned())
    }

    /// The message carried by the error.
    pub fn message(&self) -> (r: &String)
        ensures
            r@ == self.msg_view(),
    {
        match self {
            ZakuError::ParseError(m) => m,
            ZakuError::ResolutionError(m) => m,
            ZakuError::TypeError(m) => m,
            ZakuError::IoError(m) => m,
            ZakuError::CsvError(m) => m,
            ZakuError::ValueParseError(m) => m,
            ZakuError::InternalError(m) => m,
        }
    }

    /// The message as a spec-level character sequence.
    pub open spec fn msg_view(self) -> Seq<char> {
        match self {
            ZakuError::ParseError(m) => m@,
            ZakuError::ResolutionError(m) => m@,
            ZakuError::TypeError(m) => m@,
            ZakuError::IoError(m) => m@,
            ZakuError::CsvError(m) => m@,
            ZakuError::ValueParseError(m) => m@,
            ZakuError::InternalError(m) => m@,
        }
    }
}

} // verus!

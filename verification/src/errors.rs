//! Error type returned by [`Parser::parse`](crate::Parser::parse).
use vstd::prelude::*;

verus! {

/// Errors that can be returned by [`Parser::parse`](crate::Parser::parse).
#[derive(Debug, Clone, Copy, PartialEq, Eq, Structural)]
pub enum ParsingError {
    /// The filename string is empty after stripping the extension.
    StringIsEmpty,
    /// No file extension could be found. Reserved for future use.
    NoExtension,
}

/// The message that describes an error.
pub open spec fn message_of(e: ParsingError) -> Seq<char> {
    match e {
        ParsingError::StringIsEmpty => "Parsing Error : nothing to parse"@,
        ParsingError::NoExtension => "Parsing Error : no extension"@,
    }
}

impl ParsingError {
    /// The message that describes this error.
    pub fn to_string(&self) -> (r: String)
        ensures
            r@ == message_of(*self),
    {
        match self {
            ParsingError::StringIsEmpty => "Parsing Error : nothing to parse".to_string(),
            ParsingError::NoExtension => "Parsing Error : no extension".to_string(),
        }
    }
}

} // verus!

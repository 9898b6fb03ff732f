//! What can go wrong.

use crate::text;
use vstd::prelude::*;

verus! {

/// `std::io::Error` is carried, never looked into.
#[verifier::external_type_specification]
#[verifier::external_body]
pub struct ExIoError(std::io::Error);

/// An error of this crate.
#[derive(Debug)]
pub enum ParseError {
    /// A TEL pattern, or a regular expression made from one, cannot be used.
    InvalidPattern(String),
    /// A token model cannot be used.
    InvalidModel(String),
    /// Reading a token model failed.
    Io(std::io::Error),
    /// The regular expression of a token definition cannot be used.
    InvalidTokenDefinition(String),
}

/// Whether `error` is an `InvalidPattern` with the given text.
pub open spec fn is_invalid_pattern(error: ParseError, message: Seq<char>) -> bool {
    error matches ParseError::InvalidPattern(m) && m@ == message
}

/// Whether `error` is an `InvalidTokenDefinition` whose text begins with `message`.
pub open spec fn is_invalid_definition(error: ParseError, message: Seq<char>) -> bool {
    error matches ParseError::InvalidTokenDefinition(m) && message.is_prefix_of(m@)
}

impl ParseError {
    /// The error in words.
    #[must_use]
    pub fn message(&self) -> (r: String)
        ensures
            match self {
                ParseError::InvalidPattern(m) => r@ == "Invalid pattern: "@ + m@,
                ParseError::InvalidModel(m) => r@ == "Invalid model: "@ + m@,
                ParseError::Io(e) => exists|t: String|
                    #[trigger] vstd::string::to_string_from_display_ensures(e, t) && r@
                        == "IO error: "@ + t@,
                ParseError::InvalidTokenDefinition(m) => r@ == "Invalid token definition: "@ + m@,
            },
    {
        match self {
            ParseError::InvalidPattern(m) => text::glue("Invalid pattern: ", m.as_str()),
            ParseError::InvalidModel(m) => text::glue("Invalid model: ", m.as_str()),
            ParseError::Io(e) => {
                let t = e.to_string();
                text::glue("IO error: ", t.as_str())
            },
            ParseError::InvalidTokenDefinition(m) => text::glue(
                "Invalid token definition: ",
                m.as_str(),
            ),
        }
    }
}

impl From<std::io::Error> for ParseError {
    fn from(error: std::io::Error) -> (r: ParseError) {
        ParseError::Io(error)
    }
}

impl vstd::std_specs::convert::FromSpecImpl<std::io::Error> for ParseError {
    open spec fn obeys_from_spec() -> bool {
        true
    }

    open spec fn from_spec(error: std::io::Error) -> ParseError {
        ParseError::Io(error)
    }
}

} // verus!

//! The library's error type.
use vstd::prelude::*;
use crate::text::concat2;

verus! {

/// An error of the library, with its message.
#[derive(Debug, Clone)]
pub enum YamamvaError {
    /// A scenario document or reference could not be read.
    Parse(String),
    /// The engine met a reference it could not follow.
    Runtime(String),
    /// A file could not be read.
    Io(String),
}

/// The text by which an error presents itself: its kind, a colon, and its message.
pub open spec fn error_text(e: YamamvaError) -> Seq<char> {
    match e {
        YamamvaError::Parse(m) => "parse error: "@ + m@,
        YamamvaError::Runtime(m) => "runtime error: "@ + m@,
        YamamvaError::Io(m) => "io error: "@ + m@,
    }
}

impl YamamvaError {
    /// The text by which the error presents itself, such as `parse error: ...`.
    pub fn to_display_string(&self) -> (s: String)
        ensures
            s@ == error_text(*self),
    {
        match self {
            YamamvaError::Parse(m) => concat2("parse error: ", m.as_str()),
            YamamvaError::Runtime(m) => concat2("runtime error: ", m.as_str()),
            YamamvaError::Io(m) => concat2("io error: ", m.as_str()),
        }
    }
}

/// An error in a scenario document.
#[derive(Debug, Clone)]
pub struct ParseError {
    pub message: String,
}

impl ParseError {
    /// The text by which the error presents itself: `YamAMVA parse error: ` and the message.
    pub fn to_display_string(&self) -> (s: String)
        ensures
            s@ == "YamAMVA parse error: "@ + self.message@,
    {
        concat2("YamAMVA parse error: ", self.message.as_str())
    }
}

impl From<ParseError> for YamamvaError {
    /// The library error that carries a document error's message as a parse error.
    fn from(e: ParseError) -> (r: Self) {
        YamamvaError::Parse(e.message)
    }
}

impl vstd::std_specs::convert::FromSpecImpl<ParseError> for YamamvaError {
    open spec fn obeys_from_spec() -> bool {
        true
    }

    open spec fn from_spec(e: ParseError) -> Self {
        YamamvaError::Parse(e.message)
    }
}

} // verus!

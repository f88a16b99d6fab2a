use vstd::prelude::*;

pub mod de;
pub mod number;
pub mod value;

use crate::value::{Json, Value};

verus! {

/// Decoding errors.
#[derive(Debug, PartialEq)]
pub enum Error {
    /// A message from the target type, or a number that does not fit it.
    Custom(String),
    /// Decoding must go into a struct, from an object.
    UnsupportedType,
    /// The node does not hold the type tag that the target asks for.
    UnexpectedType(&'static str),
    /// The tag holds something other than a string.
    UnexpectedValue(Value),
}

/// What an `Error` says, in mathematical terms.
pub enum Failure {
    Custom(Seq<char>),
    UnsupportedType,
    UnexpectedType(Seq<char>),
    UnexpectedValue(Json),
}

impl Error {
    pub open spec fn model(&self) -> Failure {
        match self {
            Error::Custom(m) => Failure::Custom(m@),
            Error::UnsupportedType => Failure::UnsupportedType,
            Error::UnexpectedType(t) => Failure::UnexpectedType(t@),
            Error::UnexpectedValue(v) => Failure::UnexpectedValue(v.model()),
        }
    }
}

} // verus!

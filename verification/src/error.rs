use vstd::prelude::*;
use vstd::string::StringExecFns;

verus! {

/// What a fallible operation of this crate reports.
#[derive(Debug)]
pub enum Error {
    /// A field or a computed value lies outside its valid domain.
    RangeError,
    /// Anything else, with a description.
    General(String),
}

impl Error {
    /// The text that describes the error.
    pub fn message(&self) -> (text: String)
        ensures
            text@ == (match *self {
                Error::RangeError => "Value out of range"@,
                Error::General(s) => s@,
            }),
    {
        match self {
            Error::RangeError => String::from_str("Value out of range"),
            Error::General(s) => s.clone(),
        }
    }
}

} // verus!

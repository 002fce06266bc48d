//! An error that carries a message.

use vstd::prelude::*;

verus! {

/// An error that is nothing but its message.
#[derive(Debug)]
pub struct CustomError(pub String);

impl CustomError {
    /// The error whose message is a copy of `description`.
    pub fn new(description: &str) -> (e: Self)
        ensures
            e.0@ == description@,
    {
        CustomError(description.to_owned())
    }

    /// The error whose message is `s`.
    pub fn from_string(s: String) -> (e: Self)
        ensures
            e.0 == s,
    {
        CustomError(s)
    }

    /// The message.
    pub fn message(&self) -> (s: &str)
        ensures
            s@ == self.0@,
    {
        self.0.as_str()
    }
}

} // verus!

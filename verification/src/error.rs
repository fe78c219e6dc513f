//! The error that parsing can end in.

use vstd::prelude::*;
use vstd::string::StringExecFns;

verus! {

/// A syntax error with a message for the user.
#[derive(Debug, PartialEq)]
pub struct SyntaxError {
    pub error: String,
}

/// The message of the one error that the parser reports.
pub open spec fn unmatched_parentheses() -> Seq<char> {
    "Unmatched Parentheses!"@
}

impl SyntaxError {
    /// An error with the given message.
    pub fn new(message: &str) -> (e: SyntaxError)
        ensures
            e.error@ == message@,
    {
        SyntaxError { error: String::from_str(message) }
    }

    /// The error as a line for the user: the words `Syntax error: ` and the
    /// message.
    pub fn to_string(&self) -> (line: String)
        ensures
            line@ == "Syntax error: "@ + self.error@,
    {
        String::from_str("Syntax error: ").concat(self.error.as_str())
    }
}

} // verus!

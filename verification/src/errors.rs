//! The error that signature generation reports to its caller.

use vstd::prelude::*;
use vstd::string::StringExecFns;

verus! {

/// A failure of signature generation, carried as a message.
#[derive(Debug, Clone)]
pub struct SignatureError {
    message: String,
}

impl SignatureError {
    /// The message this error carries.
    pub closed spec fn spec_message(&self) -> Seq<char> {
        self.message@
    }

    /// Wraps a message.
    pub fn new(message: String) -> (error: Self)
        ensures
            error.spec_message() == message@,
    {
        SignatureError { message }
    }

    /// The message, as given to `new`.
    pub fn message(&self) -> (message: &String)
        ensures
            message@ == self.spec_message(),
    {
        &self.message
    }

    /// The error as it is shown: its name with the message in round brackets.
    pub open spec fn spec_describe(&self) -> Seq<char> {
        "SignatureError("@ + self.spec_message() + ")"@
    }

    /// The error as it is shown: its name with the message in round brackets.
    pub fn describe(&self) -> (text: String)
        ensures
            text@ == self.spec_describe(),
    {
        let mut text = String::from_str("SignatureError(");
        text.append(self.message.as_str());
        text.append(")");
        text
    }
}

} // verus!

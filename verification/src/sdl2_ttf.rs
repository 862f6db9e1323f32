//! Errors reported by the text rendering library.
use vstd::prelude::*;
use crate::text::joined;

verus! {

/// An error message from the text rendering library.
#[derive(Clone, Debug, Hash)]
pub struct ErrorMessage(pub String);

impl PartialEq for ErrorMessage {
    fn eq(&self, other: &ErrorMessage) -> (r: bool) {
        self.0 == other.0
    }
}

impl vstd::std_specs::cmp::PartialEqSpecImpl for ErrorMessage {
    open spec fn obeys_eq_spec() -> bool {
        true
    }

    open spec fn eq_spec(&self, other: &ErrorMessage) -> bool {
        self.0@ == other.0@
    }
}

impl Eq for ErrorMessage {
}

impl From<String> for ErrorMessage {
    fn from(src: String) -> (r: ErrorMessage) {
        ErrorMessage(src)
    }
}

impl vstd::std_specs::convert::FromSpecImpl<String> for ErrorMessage {
    open spec fn obeys_from_spec() -> bool {
        true
    }

    open spec fn from_spec(src: String) -> ErrorMessage {
        ErrorMessage(src)
    }
}

impl ErrorMessage {
    /// The message as shown to a user: `SDL error: ` and the text.
    pub fn message(&self) -> (r: String)
        ensures
            r@ == "SDL error: "@ + self.0@,
    {
        joined("SDL error: ", self.0.as_str())
    }

    /// A short description of the error.
    pub fn description(&self) -> (r: &'static str)
        ensures
            r@ == "SDL error"@,
    {
        "SDL error"
    }
}

} // verus!

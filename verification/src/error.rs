use vstd::prelude::*;

verus! {

/// Error carried out of a failed driver or sensor operation, with a
/// human-readable message.
#[derive(Debug)]
pub struct Error {
    pub message: String,
}

impl Error {
    /// The message describing the failure.
    pub fn message_text(&self) -> (m: String)
        ensures
            m@ == self.message@,
    {
        self.message.clone()
    }
}

} // verus!

use vstd::prelude::*;

verus! {

/// A deserialization error as reported to Python: the message, the
/// position it refers to, and the part of the document around it.
#[derive(Debug, Clone)]
pub struct DeError {
    pub message: String,
    pub line: usize,
    pub column: usize,
    pub jpart: String,
}

impl DeError {
    /// The text shown for this error: its message alone.
    pub fn to_string(&self) -> (s: String)
        ensures
            s@ == self.message@,
    {
        self.message.clone()
    }
}

} // verus!

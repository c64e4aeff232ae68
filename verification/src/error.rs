use vstd::prelude::*;

verus! {

/// The single failure an index-addressed frame operation can report:
/// the chain has no frame at the requested index.
///
/// A missing key or a missing child is never an error; those outcomes are
/// reported as `None`.
#[derive(Debug, Clone, Copy, PartialEq, Eq, Structural)]
pub enum Error {
    IndexOutOfRange,
}

impl Error {
    /// A human-readable description of the error.
    pub fn message(&self) -> (r: &'static str)
        ensures
            r@ == "Index out of range"@,
    {
        "Index out of range"
    }
}

} // verus!

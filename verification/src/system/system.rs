use vstd::prelude::*;

verus! {

/// Why building a system from its configuration failed.
#[derive(Debug, PartialEq, Eq)]
pub enum SystemFabricError {
    /// The fabric reported an error; the text is its message.
    Other(String),
}

impl Clone for SystemFabricError {
    fn clone(&self) -> (r: Self)
        ensures
            r == *self,
    {
        match self {
            SystemFabricError::Other(message) => SystemFabricError::Other(message.clone()),
        }
    }
}

} // verus!

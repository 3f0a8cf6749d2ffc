use vstd::prelude::*;

verus! {

/// Why an allocation request was turned down.
#[derive(Clone, Copy, Debug, PartialEq, Eq, Structural)]
pub enum AllocError {
    /// The alignment argument is not acceptable.
    InvalidParam,
    /// The free area cannot hold the request.
    NoMemory,
}

} // verus!

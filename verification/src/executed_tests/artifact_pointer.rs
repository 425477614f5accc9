//! Where an artifact is to be found.

use vstd::prelude::*;

verus! {

/// A pointer to an artifact.
#[derive(Debug, PartialEq, Eq, Hash)]
pub enum Pointer {
    /// The artifact is a file at this path.
    Path(String),
}

} // verus!

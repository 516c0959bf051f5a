//! The one way in which an edit can fail.

use vstd::prelude::*;

verus! {

/// A child index that is not below the number of children.
#[derive(Clone, Copy, Debug, PartialEq, Eq, Structural)]
pub struct OutOfRange {
    /// The index that was asked for.
    pub index: usize,
    /// The number of children of the node that was asked.
    pub len: usize,
}

} // verus!

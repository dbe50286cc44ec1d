//! Positions in a JSON source.

use vstd::prelude::*;

verus! {

/// A position in the source: 0-based line and column.
#[derive(Debug, Clone, Copy, PartialEq, Eq, Structural)]
pub struct Mark {
    pub line: usize,
    pub column: usize,
}

} // verus!

verus! {

impl Default for Mark {
    /// The start of the source.
    fn default() -> (r: Self)
        ensures
            r == (Mark { line: 0, column: 0 }),
    {
        Mark { line: 0, column: 0 }
    }
}

} // verus!

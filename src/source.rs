//! Where a record was made.
use vstd::prelude::*;

verus! {

/// Source position of the call that made a record.
#[derive(Debug, Default, Clone, Copy)]
pub struct Source {
    /// File in which the record was made
    pub file: &'static str,
    /// Line of the call
    pub line: u32,
    /// Column of the call
    pub column: u32,
}

} // verus!

//! The Target trait.
use vstd::prelude::*;

verus! {

/// The Target Trait
///
/// A target receives the bytes of every finished record and puts them
/// somewhere. It is best-effort: it reports nothing back, and a target that
/// owns a shared resource serialises its own writers.
pub trait Target: Send + Sync {
    /// Write the bytes of one finished record.
    fn write(&self, buf: &[u8]);
}

} // verus!

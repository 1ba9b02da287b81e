//! The reasons for which the engine refuses what it is asked.

use vstd::prelude::*;

verus! {

/// Why an operation was refused.
#[derive(Debug, Clone, Copy, PartialEq, Eq)]
pub enum Error {
    /// An identifier names a position outside the universe.
    OutOfRange,
    /// The arrays handed over are not those of an engine in which every
    /// element is alone.
    InvalidData,
    /// An array handed over has not the length that the engine's type asks
    /// for.
    SizeMismatch,
}

} // verus!

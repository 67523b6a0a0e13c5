//! Why a checked operation was refused.

use vstd::prelude::*;

verus! {

/// The reason for which a checked operation left the buffer untouched.
#[derive(Clone, Copy, Debug, PartialEq, Eq, Structural)]
pub enum RingBufferError {
    /// The source range of a self-copy reaches past the live bytes.
    OutOfRange,
    /// The store would have to outgrow the signed address range.
    CapacityOverflow,
}

} // verus!

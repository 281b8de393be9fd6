//! The errors of the store.

use vstd::prelude::*;

verus! {

/// What can go wrong in the store.
#[derive(Debug, Clone, Copy, PartialEq, Eq)]
pub enum StoreError {
    /// A parameter is out of range, such as a base that is not positive.
    InvalidParameter,
    /// No packet has the signature.
    NotFound,
    /// The log ends inside a record.
    Truncated,
    /// A whole record does not hold a packet.
    Corrupt,
    /// The storage under the log failed.
    IoFailure,
    /// The payload is not text.
    InvalidText,
}

} // verus!

//! The recoverable failures that the library reports to its host.

use vstd::prelude::*;

verus! {

/// Why an operation declined to produce a buffer.
///
/// Each condition is local and recoverable: the host decides how to show it.
#[derive(Clone, Copy, Debug, PartialEq, Eq, Structural)]
pub enum ChladniError {
    /// A dimension or an extent lies outside the range the operation accepts.
    InvalidInput,
    /// Rejection sampling used up its attempts before enough candidates were
    /// accepted.
    SamplingExceeded,
    /// A flat coordinate buffer does not hold a whole number of (x, y) pairs,
    /// or a mask does not match the grid it is painted on.
    LengthMismatch,
}

} // verus!

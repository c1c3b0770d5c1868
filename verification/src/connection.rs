//! The outcome of connecting to an external event source.

use vstd::prelude::*;

verus! {

/// A connection to an external source could not be established. The
/// failure is transient: whether and when to try again is the caller's
/// policy.
#[derive(Clone, Copy, Debug, PartialEq, Eq, Structural)]
pub enum ConnectionError {
    /// The source refused the connection or could not be reached.
    Refused,
}

} // verus!

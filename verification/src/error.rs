//! The error that the registration steps report.

use vstd::prelude::*;

verus! {

/// The one failure a caller can cause and detect: point sets that are empty,
/// that do not pair up index by index, or an answer that does not fit the
/// question it was given for.
#[derive(Clone, Copy, Debug, PartialEq, Eq, Structural)]
pub enum IcpError {
    InvalidInput,
}

} // verus!

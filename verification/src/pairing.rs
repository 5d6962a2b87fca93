//! Index-wise pairing of two point sets.

use vstd::prelude::*;
use crate::error::IcpError;

verus! {

/// The number of pairs that two point sets of these sizes form index by
/// index. That number is what a mean over either set divides by, so it fails
/// exactly when the sizes differ or the sets are empty.
pub fn paired_len(first: usize, second: usize) -> (pairs: Result<usize, IcpError>)
    ensures
        (first == second && first > 0) <==> pairs == Ok::<usize, IcpError>(first),
        (first != second || first == 0) <==> pairs == Err::<usize, IcpError>(
            IcpError::InvalidInput,
        ),
{
    if first != second || first == 0 {
        Err(IcpError::InvalidInput)
    } else {
        Ok(first)
    }
}

} // verus!

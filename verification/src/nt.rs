//! Results that pass through the network-table layer.
use vstd::prelude::*;

verus! {

/// The error type of the network-table layer.
#[verifier::external_type_specification]
#[verifier::external_body]
pub struct ExAnyhowError(anyhow::Error);

/// Passes a result through unchanged. The error, when there is one, is
/// reported by the caller's logger; nothing here depends on what it holds.
pub fn log_result<T>(result: anyhow::Result<T>) -> (r: anyhow::Result<T>)
    ensures
        r == result,
{
    result
}

} // verus!

//! Error taxonomy of the subsystem and its collapse to the syscall boundary.

use vstd::prelude::*;

verus! {

/// Typed failure kinds reported by every internal operation.
///
/// - `InvalidArgument`: malformed command or record, unknown map type, bad
///   key size, bad target-spec syntax, array-map delete attempt, array-map
///   index out of range.
/// - `NotFound`: unknown fd, unknown hash-map key, unresolved symbol,
///   detach of an unattached program.
/// - `AlreadyAttached`: the same program attached twice to one tracepoint.
/// - `CapacityExceeded`: hash-map insertion beyond `max_entries`.
/// - `EndOfIteration`: next-key past the last key; an expected outcome of
///   enumeration, not a true failure.
#[derive(Clone, Copy, Debug, PartialEq, Eq, Structural)]
pub enum BpfErrorCode {
    InvalidArgument,
    NotFound,
    AlreadyAttached,
    CapacityExceeded,
    EndOfIteration,
}

/// Result of every internal operation: a non-negative value on success,
/// a typed failure kind otherwise.
pub type BpfResult = Result<usize, BpfErrorCode>;

/// What the syscall boundary reports for an internal result: the success
/// value truncated to `i32`, or `-1` for every failure kind alike.
pub open spec fn spec_boundary_code(result: BpfResult) -> i32 {
    match result {
        Ok(val) => val as i32,
        Err(_) => -1i32,
    }
}

/// Collapses a typed result to the single success/failure signal of the
/// syscall boundary, discarding the failure kind.
pub fn convert_result(result: BpfResult) -> (r: i32)
    ensures
        r == spec_boundary_code(result),
{
    match result {
        Ok(val) => val as i32,
        Err(_) => -1,
    }
}

} // verus!

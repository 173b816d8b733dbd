//! When the context of a model must be compacted.
use vstd::prelude::*;
use crate::protocol::ErrorCode;

verus! {

/// The model refused a request because its context window is full: compact and
/// try again.
pub fn is_context_overflow(code: ErrorCode) -> (r: bool)
    ensures
        r == (code == ErrorCode::ContextWindowExceeded),
{
    matches!(code, ErrorCode::ContextWindowExceeded)
}

/// Whether a cut after position `cut` keeps a call and its result on one side.
pub fn is_tool_pair_boundary(call_seq: u64, result_seq: u64, cut: u64) -> (r: bool)
    ensures
        r == !(call_seq <= cut < result_seq),
{
    !(call_seq <= cut && cut < result_seq)
}

/// Whether a use of `total` tokens has reached the threshold for compaction.
pub fn pressure_reached(total: u64, threshold: u64) -> (r: bool)
    ensures
        r == (total >= threshold),
{
    total >= threshold
}

} // verus!

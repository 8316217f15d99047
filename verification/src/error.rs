//! The ways in which planning can fail.

use vstd::prelude::*;

verus! {

/// Why the planner gave no plan. Every failure ends the call; the planner never hands
/// back part of a plan.
#[derive(Clone, Copy, Debug, PartialEq, Eq, Structural)]
pub enum PlanError {
    /// The compaction budget cannot hold two files of the desired size, or the
    /// desired size is zero, so that splitting could never make progress.
    ConfigInvalid {
        /// The budget that was configured.
        max_compact_size: usize,
        /// The desired file size that was configured.
        max_desired_file_size: u64,
    },
    /// A file has an inverted time range or a size of zero.
    MalformedFile,
    /// The sizes of the files do not add up within 64 bits.
    InternalArithmetic,
}

/// The budget holds at least two files of the desired size, and that size is not zero.
pub open spec fn config_valid(max_compact_size: usize, max_desired_file_size: u64) -> bool {
    max_desired_file_size > 0 && max_compact_size >= 2 * max_desired_file_size
}

/// Tells whether the budget holds at least two files of a desired size that is not
/// zero.
pub fn is_config_valid(max_compact_size: usize, max_desired_file_size: u64) -> (valid: bool)
    ensures
        valid == config_valid(max_compact_size, max_desired_file_size),
{
    max_desired_file_size > 0 && max_compact_size as u128 >= 2 * (max_desired_file_size as u128)
}

} // verus!

//! What the planner is told about the partition that the files belong to.

use vstd::prelude::*;

verus! {

/// Identifies the partition whose files are planned. The planner does not read it;
/// it is part of the interface so that a policy for single partitions can be added.
#[derive(Clone, Copy, Debug, PartialEq, Eq, Structural)]
pub struct PartitionInfo {
    /// Identifier of the partition.
    pub partition_id: i64,
}

impl PartitionInfo {
    /// Describes the partition with the given identifier.
    pub fn new(partition_id: i64) -> (info: PartitionInfo)
        ensures
            info.partition_id == partition_id,
    {
        PartitionInfo { partition_id }
    }
}

} // verus!

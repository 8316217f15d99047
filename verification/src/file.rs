//! File descriptors: the immutable metadata that the planner reads.

use vstd::prelude::*;
use crate::level::CompactionLevel;

verus! {

/// Metadata of one stored file. A descriptor is a plain value; the planner copies it
/// freely and never looks at the file's contents.
#[derive(Clone, Copy, Debug, PartialEq, Eq, Structural, Hash)]
pub struct ParquetFile {
    /// Identifier of the file, unique within a partition.
    pub id: i64,
    /// Compaction level that the file belongs to.
    pub level: CompactionLevel,
    /// Smallest timestamp in the file, in nanoseconds.
    pub min_time: i64,
    /// Largest timestamp in the file, in nanoseconds.
    pub max_time: i64,
    /// Size of the file in bytes.
    pub size_bytes: u64,
    /// Number of rows in the file.
    pub row_count: u64,
}

impl ParquetFile {
    /// A descriptor is well formed when its time range is not inverted and the file
    /// is not empty.
    pub open spec fn well_formed(self) -> bool {
        self.min_time <= self.max_time && self.size_bytes > 0
    }

    /// Two files overlap when their closed time ranges intersect.
    pub open spec fn spec_overlaps(self, other: ParquetFile) -> bool {
        self.min_time <= other.max_time && other.min_time <= self.max_time
    }

    /// Width of the time range, `max_time - min_time`.
    pub open spec fn time_width(self) -> int {
        self.max_time - self.min_time
    }

    /// Builds a descriptor from its parts.
    pub fn new(
        id: i64,
        level: CompactionLevel,
        min_time: i64,
        max_time: i64,
        size_bytes: u64,
        row_count: u64,
    ) -> (file: ParquetFile)
        ensures
            file == (ParquetFile { id, level, min_time, max_time, size_bytes, row_count }),
    {
        ParquetFile { id, level, min_time, max_time, size_bytes, row_count }
    }

    /// Tells whether the descriptor is well formed.
    pub fn is_well_formed(&self) -> (ok: bool)
        ensures
            ok == self.well_formed(),
    {
        self.min_time <= self.max_time && self.size_bytes > 0
    }

    /// Tells whether the closed time ranges of the two files intersect.
    pub fn overlaps(&self, other: &ParquetFile) -> (hit: bool)
        ensures
            hit == self.spec_overlaps(*other),
    {
        self.min_time <= other.max_time && other.min_time <= self.max_time
    }
}

/// Every file of the sequence is well formed.
pub open spec fn all_well_formed(files: Seq<ParquetFile>) -> bool {
    forall|i: int| 0 <= i < files.len() ==> (#[trigger] files[i]).well_formed()
}

/// Sum of the sizes of the files, as an unbounded integer.
pub open spec fn total_size(files: Seq<ParquetFile>) -> int
    decreases files.len(),
{
    if files.len() == 0 {
        0
    } else {
        total_size(files.drop_last()) + files.last().size_bytes
    }
}

/// A sum of sizes is never negative, and a prefix never weighs more than the whole.
pub proof fn lemma_total_size_prefix(files: Seq<ParquetFile>, n: int)
    requires
        0 <= n <= files.len(),
    ensures
        0 <= total_size(files.take(n)) <= total_size(files),
    decreases files.len() - n,
{
    if n == files.len() {
        assert(files.take(n) =~= files);
        lemma_total_size_nonnegative(files);
    } else {
        lemma_total_size_prefix(files, n + 1);
        assert(files.take(n + 1).drop_last() =~= files.take(n));
        lemma_total_size_nonnegative(files.take(n));
    }
}

/// A sum of sizes is never negative.
pub proof fn lemma_total_size_nonnegative(files: Seq<ParquetFile>)
    ensures
        0 <= total_size(files),
    decreases files.len(),
{
    if files.len() > 0 {
        lemma_total_size_nonnegative(files.drop_last());
    }
}

} // verus!

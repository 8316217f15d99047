//! Compaction levels: the tiers that files move through as they are compacted.

use vstd::prelude::*;

verus! {

/// The tier of a stored file. Levels are totally ordered:
/// `Initial < FileNonOverlapped < Final`.
#[derive(Clone, Copy, Debug, PartialEq, Eq, Structural, Hash)]
pub enum CompactionLevel {
    /// Freshly ingested files; they may overlap each other arbitrarily.
    Initial,
    /// Files that do not overlap any other file of the same level.
    FileNonOverlapped,
    /// Fully compacted files.
    Final,
}

impl CompactionLevel {
    /// Position of the level in the total order, starting at zero.
    pub open spec fn rank(self) -> int {
        match self {
            CompactionLevel::Initial => 0,
            CompactionLevel::FileNonOverlapped => 1,
            CompactionLevel::Final => 2,
        }
    }

    /// The level immediately below `self`; `Initial` is its own predecessor.
    pub open spec fn spec_prev(self) -> CompactionLevel {
        match self {
            CompactionLevel::Initial => CompactionLevel::Initial,
            CompactionLevel::FileNonOverlapped => CompactionLevel::Initial,
            CompactionLevel::Final => CompactionLevel::FileNonOverlapped,
        }
    }

    /// Position of the level in the total order, as a machine integer.
    pub fn as_rank(self) -> (r: u8)
        ensures
            r as int == self.rank(),
    {
        match self {
            CompactionLevel::Initial => 0,
            CompactionLevel::FileNonOverlapped => 1,
            CompactionLevel::Final => 2,
        }
    }

    /// The level that compaction into `self` reads from: the level immediately
    /// below, or `Initial` itself when `self` is `Initial`.
    #[verifier::when_used_as_spec(spec_prev)]
    pub fn prev(self) -> (start: CompactionLevel)
        ensures
            start == self.spec_prev(),
    {
        match self {
            CompactionLevel::Initial => CompactionLevel::Initial,
            CompactionLevel::FileNonOverlapped => CompactionLevel::Initial,
            CompactionLevel::Final => CompactionLevel::FileNonOverlapped,
        }
    }
}

} // verus!

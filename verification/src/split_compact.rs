//! The planner entry: decides, for the files of one partition, whether to compact
//! them, which of them to compact, or which of them to split first.
//!
//! The decision is a cascade that stops at the first step that yields a plan:
//!
//! 1. Files that together fit the budget are all compacted.
//! 2. Start-level files that straddle two or more target-level files are split at
//!    the middle of their time range.
//! 3. The groups of overlapping files at the front of the walking order that fit the
//!    budget are compacted.
//! 4. The files of the first group that are too large are split into pieces of about
//!    the desired size.

use vstd::prelude::*;
use vstd::seq_lib::*;
use crate::error::{config_valid, PlanError};
use crate::file::{
    all_well_formed, lemma_total_size_prefix, total_size, ParquetFile,
};
use crate::file_classification::{job_files, FilesToCompactOrSplit, Plan};
use crate::files_to_compact::{
    lemma_limit_conserves, lemma_limit_overlap_closed, lemma_limit_within_budget,
    limit_files_to_compact, limited_compact, limited_further_split, limited_keep,
};
use crate::large_files_to_split::{
    compute_split_times_for_large_files, is_split, large_file_rest, large_file_splits,
    lemma_large_file_split_conserves, lemma_large_file_splits_members,
    PERCENTAGE_OF_SOFT_EXCEEDED,
};
use crate::level::CompactionLevel;
use crate::partition_info::PartitionInfo;
use crate::start_level_files_to_split::{
    identify_start_level_files_to_split, lemma_midpoint_job_legal,
    lemma_start_level_split_conserves, lemma_start_level_splits_members, start_level_rest,
    start_level_splits, straddles, straddling,
};

verus! {

/// The planner and its configuration.
#[derive(Clone, Copy, Debug, PartialEq, Eq, Structural)]
pub struct SplitCompact {
    /// The most bytes that one compaction run may read.
    pub max_compact_size: usize,
    /// The size that compacted files should have.
    pub max_desired_file_size: u64,
    /// By how many percent a file may exceed the desired size before it is split.
    pub soft_exceeded_percent: u32,
}

/// A plan together with the files that it leaves for a later round, or the reason
/// why there is no plan.
pub type Outcome = Result<(Plan, Seq<ParquetFile>), PlanError>;

impl SplitCompact {
    /// The budget as an unbounded integer.
    pub open spec fn budget(self) -> int {
        self.max_compact_size as int
    }

    /// All files are well formed and their sizes add up within 64 bits.
    pub open spec fn accepts(self, files: Seq<ParquetFile>) -> bool {
        all_well_formed(files) && total_size(files) <= u64::MAX
    }

    /// The files do not fit the budget, and no start-level file straddles two
    /// target-level files: the cascade gets to the budget limiter.
    pub open spec fn reaches_limiter(
        self,
        files: Seq<ParquetFile>,
        target: CompactionLevel,
    ) -> bool {
        &&& self.accepts(files)
        &&& total_size(files) > self.budget()
        &&& start_level_splits(files, target).len() == 0
    }

    /// The cascade gets past the budget limiter: not even the first group of
    /// overlapping files fits the budget.
    pub open spec fn reaches_splitter(
        self,
        files: Seq<ParquetFile>,
        target: CompactionLevel,
    ) -> bool {
        &&& self.reaches_limiter(files, target)
        &&& limited_compact(start_level_rest(files, target), self.budget()).len() == 0
    }

    /// The files that the cascade hands to the large-file splitter.
    pub open spec fn too_large(self, files: Seq<ParquetFile>, target: CompactionLevel) -> Seq<
        ParquetFile,
    > {
        limited_further_split(
            start_level_rest(files, target),
            self.budget(),
            self.max_desired_file_size,
        )
    }

    /// What the planner decides for `files` and the target level `target`.
    pub open spec fn planned(self, files: Seq<ParquetFile>, target: CompactionLevel) -> Outcome {
        let rest = start_level_rest(files, target);
        if !all_well_formed(files) {
            Err(PlanError::MalformedFile)
        } else if total_size(files) > u64::MAX {
            Err(PlanError::InternalArithmetic)
        } else if total_size(files) <= self.budget() {
            Ok((Plan::Compact(files), Seq::empty()))
        } else if start_level_splits(files, target).len() > 0 {
            Ok((Plan::Split(start_level_splits(files, target)), rest))
        } else if limited_compact(rest, self.budget()).len() > 0 {
            Ok(
                (
                    Plan::Compact(limited_compact(rest, self.budget())),
                    limited_keep(rest, self.budget(), self.max_desired_file_size),
                ),
            )
        } else if !config_valid(self.max_compact_size, self.max_desired_file_size) {
            Err(
                PlanError::ConfigInvalid {
                    max_compact_size: self.max_compact_size,
                    max_desired_file_size: self.max_desired_file_size,
                },
            )
        } else {
            Ok(
                (
                    Plan::Split(
                        large_file_splits(
                            self.too_large(files, target),
                            self.max_desired_file_size,
                            self.max_compact_size,
                            self.soft_exceeded_percent,
                        ),
                    ),
                    limited_keep(rest, self.budget(), self.max_desired_file_size)
                        + large_file_rest(
                        self.too_large(files, target),
                        self.max_desired_file_size,
                        self.soft_exceeded_percent,
                    ),
                ),
            )
        }
    }

    /// A start-level file that must be split at its midpoint is too narrow for the
    /// midpoint to lie strictly inside its time range.
    pub open spec fn has_narrow_straddler(
        files: Seq<ParquetFile>,
        target: CompactionLevel,
    ) -> bool {
        exists|file: ParquetFile|
            files.contains(file) && #[trigger] straddles(file, files, target) && file.max_time
                - file.min_time < 2
    }

    /// The cascade gets to the large-file splitter and finds nothing to split there:
    /// no file of the first group exceeds the soft limit over more than one instant.
    pub open spec fn is_stuck(self, files: Seq<ParquetFile>, target: CompactionLevel) -> bool {
        &&& self.reaches_splitter(files, target)
        &&& forall|file: ParquetFile| #[trigger]
            self.too_large(files, target).contains(file) ==> !is_split(
                file,
                self.max_desired_file_size,
                self.soft_exceeded_percent,
            )
    }

    /// A planner with the given budget and desired file size, and the default
    /// tolerance for files that exceed the desired size.
    pub fn new(max_compact_size: usize, max_desired_file_size: u64) -> (planner: SplitCompact)
        ensures
            planner == (SplitCompact {
                max_compact_size,
                max_desired_file_size,
                soft_exceeded_percent: PERCENTAGE_OF_SOFT_EXCEEDED,
            }),
    {
        SplitCompact {
            max_compact_size,
            max_desired_file_size,
            soft_exceeded_percent: PERCENTAGE_OF_SOFT_EXCEEDED,
        }
    }

    /// The same planner with another tolerance for files that exceed the desired
    /// size, in percent of that size.
    pub fn with_soft_exceeded_percent(self, soft_exceeded_percent: u32) -> (planner: SplitCompact)
        ensures
            planner == (SplitCompact { soft_exceeded_percent, ..self }),
    {
        SplitCompact {
            max_compact_size: self.max_compact_size,
            max_desired_file_size: self.max_desired_file_size,
            soft_exceeded_percent,
        }
    }

    /// Plans one round of compaction for `files`.
    ///
    /// Returns the files to act on, as files to compact or as files to split, and
    /// the files to keep for a later round. The result is a function of the
    /// arguments alone: the same files in the same order give the same plan.
    ///
    /// Fails with `MalformedFile` when a file has an inverted time range or no bytes,
    /// with `InternalArithmetic` when the sizes do not add up within 64 bits, and
    /// with `ConfigInvalid` when the files can neither be compacted within the budget
    /// nor split at a target-level boundary while the budget is less than twice the
    /// desired file size.
    pub fn apply(
        &self,
        _partition_info: &PartitionInfo,
        files: Vec<ParquetFile>,
        target_level: CompactionLevel,
    ) -> (out: Result<(FilesToCompactOrSplit, Vec<ParquetFile>), PlanError>)
        ensures
            outcome_of(out) == self.planned(files@, target_level),
            out matches Err(PlanError::MalformedFile) <==> !all_well_formed(files@),
            out matches Err(PlanError::InternalArithmetic) <==> all_well_formed(files@)
                && total_size(files@) > u64::MAX,
            out matches Err(PlanError::ConfigInvalid { .. }) <==> self.reaches_splitter(
                files@,
                target_level,
            ) && !config_valid(self.max_compact_size, self.max_desired_file_size),
            out matches Ok((plan, keep)) ==> plan@.acted_on().to_multiset().add(
                keep@.to_multiset(),
            ) == files@.to_multiset(),
            out matches Ok((plan, _)) ==> (plan@ matches Plan::Compact(compact) ==> total_size(
                compact,
            ) <= self.max_compact_size),
    {
        proof {
            lemma_plan_conserves_files(*self, files@, target_level);
            lemma_compact_plan_within_budget(*self, files@, target_level);
        }
        if !are_well_formed(&files) {
            return Err(PlanError::MalformedFile);
        }
        let total = match checked_total_size(&files) {
            Some(total) => total,
            None => {
                return Err(PlanError::InternalArithmetic);
            },
        };
        if total as u128 <= self.max_compact_size as u128 {
            return Ok((FilesToCompactOrSplit::FilesToCompact(files), Vec::new()));
        }
        let (files_to_split, files_not_to_split) = identify_start_level_files_to_split(
            files,
            target_level,
        );
        if !files_to_split.is_empty() {
            return Ok((FilesToCompactOrSplit::FilesToSplit(files_to_split), files_not_to_split));
        }
        let limited = limit_files_to_compact(
            self.max_compact_size,
            self.max_desired_file_size,
            files_not_to_split,
        );
        if !limited.files_to_compact.is_empty() {
            return Ok(
                (
                    FilesToCompactOrSplit::FilesToCompact(limited.files_to_compact),
                    limited.files_to_keep,
                ),
            );
        }
        let mut files_to_keep = limited.files_to_keep;
        match compute_split_times_for_large_files(
            limited.files_to_further_split,
            self.max_desired_file_size,
            self.max_compact_size,
            self.soft_exceeded_percent,
        ) {
            Err(e) => Err(e),
            Ok((files_to_split, mut files_not_to_split)) => {
                files_to_keep.append(&mut files_not_to_split);
                Ok((FilesToCompactOrSplit::FilesToSplit(files_to_split), files_to_keep))
            },
        }
    }
}

/// The mathematical model of what `apply` returns.
pub open spec fn outcome_of(
    out: Result<(FilesToCompactOrSplit, Vec<ParquetFile>), PlanError>,
) -> Outcome {
    match out {
        Ok((plan, keep)) => Ok((plan@, keep@)),
        Err(e) => Err(e),
    }
}

/// Tells whether every file is well formed.
pub fn are_well_formed(files: &Vec<ParquetFile>) -> (ok: bool)
    ensures
        ok == all_well_formed(files@),
{
    let mut i: usize = 0;
    while i < files.len()
        invariant
            i <= files.len(),
            forall|j: int| 0 <= j < i ==> (#[trigger] files@[j]).well_formed(),
        decreases files.len() - i,
    {
        if !files[i].is_well_formed() {
            return false;
        }
        i += 1;
    }
    true
}

/// Adds up the sizes of the files, or returns `None` when the sum does not fit 64
/// bits.
pub fn checked_total_size(files: &Vec<ParquetFile>) -> (total: Option<u64>)
    ensures
        total matches Some(sum) ==> sum == total_size(files@),
        total is None <==> total_size(files@) > u64::MAX,
{
    let mut sum: u64 = 0;
    let mut i: usize = 0;
    assert(files@.take(0) =~= Seq::<ParquetFile>::empty());
    while i < files.len()
        invariant
            i <= files.len(),
            sum == total_size(files@.take(i as int)),
        decreases files.len() - i,
    {
        proof {
            assert(files@.take(i + 1).drop_last() =~= files@.take(i as int));
            lemma_total_size_prefix(files@, i + 1);
        }
        match sum.checked_add(files[i].size_bytes) {
            Some(next) => {
                sum = next;
            },
            None => {
                return None;
            },
        }
        i += 1;
    }
    assert(files@.take(files.len() as int) =~= files@);
    Some(sum)
}

/// A sequence whose multiset is empty is empty, and the other way round.
proof fn lemma_same_files_same_members(a: Seq<ParquetFile>, b: Seq<ParquetFile>, file: ParquetFile)
    requires
        a.to_multiset() == b.to_multiset(),
    ensures
        a.contains(file) <==> b.contains(file),
{
    to_multiset_contains(a, file);
    to_multiset_contains(b, file);
}

/// Where the analyzer finds nothing to split, it hands on all files.
proof fn lemma_rest_is_everything(files: Seq<ParquetFile>, target: CompactionLevel)
    requires
        start_level_splits(files, target).len() == 0,
    ensures
        start_level_rest(files, target).to_multiset() == files.to_multiset(),
{
    broadcast use vstd::multiset::group_multiset_axioms;

    lemma_start_level_split_conserves(files, target);
    let none = job_files(start_level_splits(files, target));
    assert(none =~= Seq::<ParquetFile>::empty());
    none.to_multiset_ensures();
    assert(none.to_multiset().add(start_level_rest(files, target).to_multiset())
        =~= start_level_rest(files, target).to_multiset());
}

/// Conservation: a plan never drops or duplicates a file. The files acted on and the
/// files kept are together exactly the input, each as often as it occurs there.
pub proof fn lemma_plan_conserves_files(
    planner: SplitCompact,
    files: Seq<ParquetFile>,
    target: CompactionLevel,
)
    ensures
        planner.planned(files, target) matches Ok((plan, keep))
            ==> plan.acted_on().to_multiset().add(keep.to_multiset()) == files.to_multiset(),
{
    broadcast use vstd::multiset::group_multiset_axioms;

    match planner.planned(files, target) {
        Err(_) => {},
        Ok((plan, keep)) => {
            if total_size(files) <= planner.budget() {
                keep.to_multiset_ensures();
                assert(files.to_multiset().add(keep.to_multiset()) =~= files.to_multiset());
            } else if start_level_splits(files, target).len() > 0 {
                lemma_start_level_split_conserves(files, target);
            } else {
                let rest = start_level_rest(files, target);
                lemma_rest_is_everything(files, target);
                lemma_limit_conserves(rest, planner.budget(), planner.max_desired_file_size);
                let compact = limited_compact(rest, planner.budget());
                let further = planner.too_large(files, target);
                let kept = limited_keep(rest, planner.budget(), planner.max_desired_file_size);
                if compact.len() > 0 {
                    assert(further =~= Seq::<ParquetFile>::empty());
                    further.to_multiset_ensures();
                    assert(compact.to_multiset().add(kept.to_multiset()) =~= files.to_multiset());
                } else {
                    assert(compact =~= Seq::<ParquetFile>::empty());
                    compact.to_multiset_ensures();
                    lemma_large_file_split_conserves(
                        further,
                        planner.max_desired_file_size,
                        planner.max_compact_size,
                        planner.soft_exceeded_percent,
                    );
                    let whole = large_file_rest(
                        further,
                        planner.max_desired_file_size,
                        planner.soft_exceeded_percent,
                    );
                    lemma_multiset_commutative(kept, whole);
                    assert(plan.acted_on().to_multiset().add(keep.to_multiset())
                        =~= files.to_multiset());
                }
            }
        },
    }
}

/// Budget: the files of a compact plan weigh no more than the budget.
pub proof fn lemma_compact_plan_within_budget(
    planner: SplitCompact,
    files: Seq<ParquetFile>,
    target: CompactionLevel,
)
    ensures
        planner.planned(files, target) matches Ok((Plan::Compact(compact), _)) ==> total_size(
            compact,
        ) <= planner.max_compact_size,
{
    lemma_limit_within_budget(start_level_rest(files, target), planner.budget());
}

/// Small-case totality: well-formed files that together fit the budget are all
/// compacted, in their given order, and none is kept.
pub proof fn lemma_small_input_compacts_all(
    planner: SplitCompact,
    files: Seq<ParquetFile>,
    target: CompactionLevel,
)
    requires
        all_well_formed(files),
        total_size(files) <= planner.max_compact_size,
    ensures
        planner.planned(files, target) == Ok::<(Plan, Seq<ParquetFile>), PlanError>(
            (Plan::Compact(files), Seq::empty()),
        ),
{
}

/// Split legality: the split times of every job are strictly ascending and lie
/// strictly inside the time range of the file, unless the plan splits a start-level
/// file whose time range is less than two wide at its midpoint.
pub proof fn lemma_split_plan_legal(
    planner: SplitCompact,
    files: Seq<ParquetFile>,
    target: CompactionLevel,
)
    requires
        planner.planned(files, target) is Ok,
    ensures
        planner.planned(files, target)->Ok_0.0.legal() <==> !(total_size(files) > planner.budget()
            && SplitCompact::has_narrow_straddler(files, target)),
{
    let plan = planner.planned(files, target)->Ok_0.0;
    if total_size(files) <= planner.budget() {
    } else if start_level_splits(files, target).len() > 0 {
        let jobs = start_level_splits(files, target);
        if SplitCompact::has_narrow_straddler(files, target) {
            let narrow = choose|file: ParquetFile|
                files.contains(file) && #[trigger] straddles(file, files, target) && file.max_time
                    - file.min_time < 2;
            let chosen = files.filter(straddling(files, target));
            let at = choose|at: int| 0 <= at < files.len() && files[at] == narrow;
            files.lemma_filter_contains(straddling(files, target), at);
            let k = choose|k: int| 0 <= k < chosen.len() && chosen[k] == narrow;
            lemma_start_level_splits_members(files, target, k);
            lemma_midpoint_job_legal(narrow);
            assert(jobs[k].file == narrow);
            assert(!(plan->Split_0[k]).legal());
        } else {
            assert forall|i: int| 0 <= i < jobs.len() implies (#[trigger] jobs[i]).legal() by {
                lemma_start_level_splits_members(files, target, i);
                lemma_midpoint_job_legal(jobs[i].file);
            }
        }
    } else {
        if SplitCompact::has_narrow_straddler(files, target) {
            let narrow = choose|file: ParquetFile|
                files.contains(file) && #[trigger] straddles(file, files, target) && file.max_time
                    - file.min_time < 2;
            let at = choose|at: int| 0 <= at < files.len() && files[at] == narrow;
            files.lemma_filter_contains(straddling(files, target), at);
            assert(false);
        }
        if limited_compact(start_level_rest(files, target), planner.budget()).len() == 0 {
            let jobs = large_file_splits(
                planner.too_large(files, target),
                planner.max_desired_file_size,
                planner.max_compact_size,
                planner.soft_exceeded_percent,
            );
            assert forall|i: int| 0 <= i < jobs.len() implies (#[trigger] jobs[i]).legal() by {
                lemma_large_file_splits_members(
                    planner.too_large(files, target),
                    planner.max_desired_file_size,
                    planner.max_compact_size,
                    planner.soft_exceeded_percent,
                    i,
                );
            }
        }
    }
}

/// Overlap closure: a compact plan never takes part of a set of overlapping files.
/// Every file of the input that overlaps a file to compact is itself compacted.
pub proof fn lemma_compact_plan_overlap_closed(
    planner: SplitCompact,
    files: Seq<ParquetFile>,
    target: CompactionLevel,
    inside: ParquetFile,
    other: ParquetFile,
)
    requires
        planner.planned(files, target) matches Ok((Plan::Compact(compact), _))
            && compact.contains(inside),
        files.contains(other),
        inside.spec_overlaps(other),
    ensures
        planner.planned(files, target) matches Ok((Plan::Compact(compact), _))
            && compact.contains(other),
{
    if total_size(files) <= planner.budget() {
    } else {
        let rest = start_level_rest(files, target);
        lemma_rest_is_everything(files, target);
        lemma_same_files_same_members(rest, files, other);
        lemma_limit_overlap_closed(rest, planner.budget(), inside, other);
    }
}

/// Progress: when the files do not fit the budget, the plan acts on at least one
/// file, unless the planner is stuck: the first group of overlapping files is too
/// large for the budget and none of its files can be split.
pub proof fn lemma_plan_makes_progress(
    planner: SplitCompact,
    files: Seq<ParquetFile>,
    target: CompactionLevel,
)
    requires
        planner.planned(files, target) is Ok,
        total_size(files) > planner.max_compact_size,
    ensures
        planner.planned(files, target)->Ok_0.0.acted_on().len() > 0 <==> !planner.is_stuck(
            files,
            target,
        ),
{
    let rest = start_level_rest(files, target);
    if start_level_splits(files, target).len() > 0 {
    } else if limited_compact(rest, planner.budget()).len() > 0 {
    } else {
        let further = planner.too_large(files, target);
        let split = crate::large_files_to_split::split_here(
            planner.max_desired_file_size,
            planner.soft_exceeded_percent,
        );
        let jobs = large_file_splits(
            further,
            planner.max_desired_file_size,
            planner.max_compact_size,
            planner.soft_exceeded_percent,
        );
        assert(jobs.len() == further.filter(split).len());
        assert(job_files(jobs).len() == jobs.len());
        if planner.is_stuck(files, target) {
            if further.filter(split).len() > 0 {
                further.lemma_filter_pred(split, 0);
                further.lemma_filter_contains_rev(split, further.filter(split)[0]);
                assert(false);
            }
        } else {
            let file = choose|file: ParquetFile| #[trigger]
                further.contains(file) && is_split(
                    file,
                    planner.max_desired_file_size,
                    planner.soft_exceeded_percent,
                );
            let at = choose|at: int| 0 <= at < further.len() && further[at] == file;
            further.lemma_filter_contains(split, at);
        }
    }
}

/// An invalid configuration fails: when the cascade gets to the large-file splitter
/// with a budget of less than twice the desired file size, there is no plan.
pub proof fn lemma_invalid_config_fails(
    planner: SplitCompact,
    files: Seq<ParquetFile>,
    target: CompactionLevel,
)
    ensures
        planner.planned(files, target) == Err::<(Plan, Seq<ParquetFile>), PlanError>(
            PlanError::ConfigInvalid {
                max_compact_size: planner.max_compact_size,
                max_desired_file_size: planner.max_desired_file_size,
            },
        ) <==> planner.reaches_splitter(files, target) && !config_valid(
            planner.max_compact_size,
            planner.max_desired_file_size,
        ),
        planner.max_compact_size < 2 * planner.max_desired_file_size && planner.reaches_splitter(
            files,
            target,
        ) ==> planner.planned(files, target) is Err,
{
}

} // verus!

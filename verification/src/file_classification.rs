//! What the planner hands back: the files to act on in this round, either by
//! compacting them together or by splitting each of them at given times.

use vstd::prelude::*;
use crate::file::ParquetFile;

verus! {

/// A file that must be split, and the times at which to split it. Splitting at `n`
/// times turns the file into `n + 1` files of the same level.
#[derive(Debug, Clone, PartialEq, Eq)]
pub struct FileToSplit {
    /// The file to split.
    pub file: ParquetFile,
    /// The times at which to split it.
    pub split_times: Vec<i64>,
}

/// Mathematical model of a [`FileToSplit`].
pub struct SplitJob {
    /// The file to split.
    pub file: ParquetFile,
    /// The times at which to split it.
    pub split_times: Seq<i64>,
}

/// The times are strictly ascending and lie strictly inside the time range of the
/// file.
pub open spec fn legal_split_times(file: ParquetFile, times: Seq<i64>) -> bool {
    &&& forall|i: int| 0 <= i < times.len() ==> file.min_time < #[trigger] times[i] < file.max_time
    &&& forall|i: int, j: int| 0 <= i < j < times.len() ==> times[i] < times[j]
}

impl SplitJob {
    /// The split times are strictly ascending and lie strictly inside the time range
    /// of the file.
    pub open spec fn legal(self) -> bool {
        legal_split_times(self.file, self.split_times)
    }
}

impl View for FileToSplit {
    type V = SplitJob;

    open spec fn view(&self) -> SplitJob {
        SplitJob { file: self.file, split_times: self.split_times@ }
    }
}

impl DeepView for FileToSplit {
    type V = SplitJob;

    open spec fn deep_view(&self) -> SplitJob {
        self@
    }
}

/// The files that the planner acts on in one round.
#[derive(Debug, Clone, PartialEq, Eq)]
pub enum FilesToCompactOrSplit {
    /// Files to merge in one run; the output is written at the target level.
    FilesToCompact(Vec<ParquetFile>),
    /// Files to split, each with its split times.
    FilesToSplit(Vec<FileToSplit>),
}

/// Mathematical model of a [`FilesToCompactOrSplit`].
pub enum Plan {
    /// Files to merge in one run.
    Compact(Seq<ParquetFile>),
    /// Files to split, each with its split times.
    Split(Seq<SplitJob>),
}

/// The files of the split jobs, in order.
pub open spec fn job_files(jobs: Seq<SplitJob>) -> Seq<ParquetFile> {
    jobs.map_values(|job: SplitJob| job.file)
}

/// The split times of the split jobs, in order.
pub open spec fn job_times(jobs: Seq<SplitJob>) -> Seq<Seq<i64>> {
    jobs.map_values(|job: SplitJob| job.split_times)
}

impl Plan {
    /// The files to compact; empty for a split plan.
    pub open spec fn files_to_compact(self) -> Seq<ParquetFile> {
        match self {
            Plan::Compact(files) => files,
            Plan::Split(_) => Seq::empty(),
        }
    }

    /// The files to split; empty for a compact plan.
    pub open spec fn files_to_split(self) -> Seq<ParquetFile> {
        match self {
            Plan::Compact(_) => Seq::empty(),
            Plan::Split(jobs) => job_files(jobs),
        }
    }

    /// The split times, one sequence for each file to split; empty for a compact plan.
    pub open spec fn split_times(self) -> Seq<Seq<i64>> {
        match self {
            Plan::Compact(_) => Seq::empty(),
            Plan::Split(jobs) => job_times(jobs),
        }
    }

    /// The files that the plan acts on, whichever shape it has.
    pub open spec fn acted_on(self) -> Seq<ParquetFile> {
        match self {
            Plan::Compact(files) => files,
            Plan::Split(jobs) => job_files(jobs),
        }
    }

    /// Every split job of the plan is legal.
    pub open spec fn legal(self) -> bool {
        match self {
            Plan::Compact(_) => true,
            Plan::Split(jobs) => forall|i: int|
                0 <= i < jobs.len() ==> (#[trigger] jobs[i]).legal(),
        }
    }
}

impl View for FilesToCompactOrSplit {
    type V = Plan;

    open spec fn view(&self) -> Plan {
        match self {
            FilesToCompactOrSplit::FilesToCompact(files) => Plan::Compact(files@),
            FilesToCompactOrSplit::FilesToSplit(jobs) => Plan::Split(jobs.deep_view()),
        }
    }
}

/// Copies a vector of files.
pub fn copy_files(files: &Vec<ParquetFile>) -> (out: Vec<ParquetFile>)
    ensures
        out@ == files@,
{
    let mut out: Vec<ParquetFile> = Vec::new();
    let mut i: usize = 0;
    while i < files.len()
        invariant
            i <= files.len(),
            out@ == files@.take(i as int),
        decreases files.len() - i,
    {
        out.push(files[i]);
        assert(files@.take(i + 1) =~= files@.take(i as int).push(files@[i as int]));
        i += 1;
    }
    assert(files@.take(files.len() as int) =~= files@);
    out
}

/// Copies a vector of split times.
pub fn copy_times(times: &Vec<i64>) -> (out: Vec<i64>)
    ensures
        out@ == times@,
{
    let mut out: Vec<i64> = Vec::new();
    let mut i: usize = 0;
    while i < times.len()
        invariant
            i <= times.len(),
            out@ == times@.take(i as int),
        decreases times.len() - i,
    {
        out.push(times[i]);
        assert(times@.take(i + 1) =~= times@.take(i as int).push(times@[i as int]));
        i += 1;
    }
    assert(times@.take(times.len() as int) =~= times@);
    out
}

impl FileToSplit {
    /// A split job for `file` at the given times.
    pub fn new(file: ParquetFile, split_times: Vec<i64>) -> (job: FileToSplit)
        ensures
            job@ == (SplitJob { file, split_times: split_times@ }),
    {
        FileToSplit { file, split_times }
    }
}

impl FilesToCompactOrSplit {
    /// The files to compact; empty when the plan is to split.
    pub fn files_to_compact(&self) -> (files: Vec<ParquetFile>)
        ensures
            files@ == self@.files_to_compact(),
    {
        match self {
            FilesToCompactOrSplit::FilesToCompact(files) => copy_files(files),
            FilesToCompactOrSplit::FilesToSplit(_) => Vec::new(),
        }
    }

    /// The files to split; empty when the plan is to compact.
    pub fn files_to_split(&self) -> (files: Vec<ParquetFile>)
        ensures
            files@ == self@.files_to_split(),
    {
        match self {
            FilesToCompactOrSplit::FilesToCompact(_) => Vec::new(),
            FilesToCompactOrSplit::FilesToSplit(jobs) => {
                let mut out: Vec<ParquetFile> = Vec::new();
                let mut i: usize = 0;
                while i < jobs.len()
                    invariant
                        i <= jobs.len(),
                        out@ == job_files(jobs.deep_view()).take(i as int),
                    decreases jobs.len() - i,
                {
                    out.push(jobs[i].file);
                    assert(job_files(jobs.deep_view()).take(i + 1) =~= job_files(
                        jobs.deep_view(),
                    ).take(i as int).push(jobs@[i as int].file));
                    i += 1;
                }
                assert(job_files(jobs.deep_view()).take(jobs.len() as int) =~= job_files(
                    jobs.deep_view(),
                ));
                out
            },
        }
    }

    /// The split times, one vector for each file to split and in the same order;
    /// empty when the plan is to compact.
    pub fn split_times(&self) -> (times: Vec<Vec<i64>>)
        ensures
            times.deep_view() == self@.split_times(),
    {
        match self {
            FilesToCompactOrSplit::FilesToCompact(_) => {
                let out: Vec<Vec<i64>> = Vec::new();
                assert(out.deep_view() =~= Seq::<Seq<i64>>::empty());
                out
            },
            FilesToCompactOrSplit::FilesToSplit(jobs) => {
                let mut out: Vec<Vec<i64>> = Vec::new();
                let mut i: usize = 0;
                assert(out.deep_view() =~= job_times(jobs.deep_view()).take(0));
                while i < jobs.len()
                    invariant
                        i <= jobs.len(),
                        out.deep_view() == job_times(jobs.deep_view()).take(i as int),
                    decreases jobs.len() - i,
                {
                    let ghost before = out.deep_view();
                    let copy = copy_times(&jobs[i].split_times);
                    assert(copy.deep_view() =~= jobs@[i as int].split_times@);
                    out.push(copy);
                    assert(out.deep_view() =~= before.push(jobs@[i as int].split_times@)) by {
                        assert(out@.len() == before.len() + 1);
                        assert forall|k: int| 0 <= k < out@.len() implies out.deep_view()[k]
                            == before.push(jobs@[i as int].split_times@)[k] by {
                            if k < i {
                                assert(out@[k].deep_view() == before[k]);
                            }
                        }
                    }
                    assert(job_times(jobs.deep_view()).take(i + 1) =~= job_times(
                        jobs.deep_view(),
                    ).take(i as int).push(jobs@[i as int].split_times@));
                    i += 1;
                }
                assert(job_times(jobs.deep_view()).take(jobs.len() as int) =~= job_times(
                    jobs.deep_view(),
                ));
                out
            },
        }
    }

    /// The number of files to compact; zero when the plan is to split.
    pub fn files_to_compact_len(&self) -> (n: usize)
        ensures
            n == self@.files_to_compact().len(),
    {
        match self {
            FilesToCompactOrSplit::FilesToCompact(files) => files.len(),
            FilesToCompactOrSplit::FilesToSplit(_) => 0,
        }
    }

    /// The number of files to split; zero when the plan is to compact.
    pub fn files_to_split_len(&self) -> (n: usize)
        ensures
            n == self@.files_to_split().len(),
    {
        match self {
            FilesToCompactOrSplit::FilesToCompact(_) => 0,
            FilesToCompactOrSplit::FilesToSplit(jobs) => jobs.len(),
        }
    }

    /// Tells whether the plan acts on no file at all.
    pub fn is_empty(&self) -> (empty: bool)
        ensures
            empty == (self@.acted_on().len() == 0),
    {
        match self {
            FilesToCompactOrSplit::FilesToCompact(files) => files.is_empty(),
            FilesToCompactOrSplit::FilesToSplit(jobs) => jobs.is_empty(),
        }
    }
}

} // verus!

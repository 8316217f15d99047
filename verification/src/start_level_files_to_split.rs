//! The overlap analyzer: finds the start-level files that straddle two or more
//! target-level files. Such a file is split at the middle of its time range, so that
//! later rounds can compact each half with fewer target-level files.

use vstd::prelude::*;
use vstd::seq_lib::*;
use crate::file::ParquetFile;
use crate::file_classification::{job_files, FileToSplit, SplitJob};
use crate::level::CompactionLevel;
use crate::order::{lemma_sorted_files_is_sorted_permutation, sort_files, sorted_files};

verus! {

/// The file belongs to the level that compaction into `target` reads from. Every
/// other file counts as a target-level file.
pub open spec fn is_start_level(file: ParquetFile, target: CompactionLevel) -> bool {
    file.level == target.spec_prev()
}

/// Selects the target-level files.
pub open spec fn at_target_level(target: CompactionLevel) -> spec_fn(ParquetFile) -> bool {
    |file: ParquetFile| !is_start_level(file, target)
}

/// Selects the files whose time range intersects that of `file`.
pub open spec fn overlapping(file: ParquetFile) -> spec_fn(ParquetFile) -> bool {
    |other: ParquetFile| file.spec_overlaps(other)
}

/// The number of files among `others` that `file` overlaps.
pub open spec fn overlap_count(file: ParquetFile, others: Seq<ParquetFile>) -> nat {
    others.filter(overlapping(file)).len()
}

/// The file is a start-level file that overlaps two or more target-level files of
/// `files`.
pub open spec fn straddles(
    file: ParquetFile,
    files: Seq<ParquetFile>,
    target: CompactionLevel,
) -> bool {
    is_start_level(file, target) && overlap_count(file, files.filter(at_target_level(target))) >= 2
}

/// Selects the start-level files that must be split.
pub open spec fn straddling(files: Seq<ParquetFile>, target: CompactionLevel) -> spec_fn(
    ParquetFile,
) -> bool {
    |file: ParquetFile| straddles(file, files, target)
}

/// Selects the start-level files that need no split.
pub open spec fn settled(files: Seq<ParquetFile>, target: CompactionLevel) -> spec_fn(
    ParquetFile,
) -> bool {
    |file: ParquetFile| is_start_level(file, target) && !straddles(file, files, target)
}

/// Half of `width`, rounded toward zero.
pub open spec fn half_toward_zero(width: int) -> int {
    if width >= 0 {
        width / 2
    } else {
        -((-width) / 2)
    }
}

/// The middle of the file's time range: `min_time + (max_time - min_time) / 2`, the
/// quotient rounded toward zero.
pub open spec fn midpoint(file: ParquetFile) -> int {
    file.min_time + half_toward_zero(file.max_time - file.min_time)
}

/// The job that splits `file` once, at the middle of its time range.
pub open spec fn midpoint_job(file: ParquetFile) -> SplitJob {
    SplitJob { file, split_times: seq![midpoint(file) as i64] }
}

/// The split jobs that the analyzer emits: one for each straddling start-level file,
/// in the order of `files`.
pub open spec fn start_level_splits(files: Seq<ParquetFile>, target: CompactionLevel) -> Seq<
    SplitJob,
> {
    files.filter(straddling(files, target)).map_values(|file: ParquetFile| midpoint_job(file))
}

/// The files that the analyzer leaves alone: the other start-level files in the order
/// of `files`, then the target-level files in walking order.
pub open spec fn start_level_rest(files: Seq<ParquetFile>, target: CompactionLevel) -> Seq<
    ParquetFile,
> {
    files.filter(settled(files, target)) + sorted_files(files.filter(at_target_level(target)))
}

/// The middle of a time range lies within the range; it lies strictly inside when the
/// range is at least two wide.
pub proof fn lemma_midpoint_bounds(file: ParquetFile)
    ensures
        file.min_time <= file.max_time ==> file.min_time <= midpoint(file) <= file.max_time,
        file.min_time > file.max_time ==> file.max_time <= midpoint(file) <= file.min_time,
        file.max_time - file.min_time >= 2 ==> file.min_time < midpoint(file) < file.max_time,
        file.max_time - file.min_time == 1 ==> midpoint(file) == file.min_time,
{
}

/// A job that splits a file once at the middle of its time range is legal exactly
/// when the range is at least two wide.
pub proof fn lemma_midpoint_job_legal(file: ParquetFile)
    ensures
        midpoint_job(file).legal() <==> file.max_time - file.min_time >= 2,
{
    lemma_midpoint_bounds(file);
    let job = midpoint_job(file);
    assert(job.split_times.len() == 1);
    assert(job.split_times[0] == midpoint(file));
}

/// Three filters that sort every file into exactly one class split the sequence
/// without loss.
proof fn lemma_three_way_partition(
    files: Seq<ParquetFile>,
    first: spec_fn(ParquetFile) -> bool,
    second: spec_fn(ParquetFile) -> bool,
    third: spec_fn(ParquetFile) -> bool,
)
    requires
        forall|file: ParquetFile|
            (#[trigger] first(file) || second(file) || third(file)) && !(first(file) && second(
                file,
            )) && !(first(file) && third(file)) && !(second(file) && third(file)),
    ensures
        files.filter(first).to_multiset().add(files.filter(second).to_multiset()).add(
            files.filter(third).to_multiset(),
        ) == files.to_multiset(),
    decreases files.len(),
{
    broadcast use vstd::multiset::group_multiset_axioms;

    if files.len() == 0 {
        reveal(Seq::filter);
        assert(files.filter(first) =~= files);
        assert(files.filter(second) =~= files);
        assert(files.filter(third) =~= files);
        assert(files.to_multiset().add(files.to_multiset()).add(files.to_multiset())
            =~= files.to_multiset()) by {
            files.to_multiset_ensures();
        }
    } else {
        let init = files.drop_last();
        let last = files.last();
        lemma_three_way_partition(init, first, second, third);
        assert(init.push(last) =~= files);
        init.lemma_filter_push(last, first);
        init.lemma_filter_push(last, second);
        init.lemma_filter_push(last, third);
        to_multiset_build(init, last);
        to_multiset_build(init.filter(first), last);
        to_multiset_build(init.filter(second), last);
        to_multiset_build(init.filter(third), last);
        assert(first(last) || second(last) || third(last));
        assert(files.filter(first).to_multiset().add(files.filter(second).to_multiset()).add(
            files.filter(third).to_multiset(),
        ) =~= files.to_multiset());
    }
}

/// The files of the jobs made from a sequence of files are those files.
proof fn lemma_midpoint_jobs_files(files: Seq<ParquetFile>)
    ensures
        job_files(files.map_values(|file: ParquetFile| midpoint_job(file))) == files,
{
    assert(job_files(files.map_values(|file: ParquetFile| midpoint_job(file))) =~= files);
}

/// The analyzer neither drops nor duplicates a file: the files to split and the files
/// left alone are together exactly the input.
pub proof fn lemma_start_level_split_conserves(files: Seq<ParquetFile>, target: CompactionLevel)
    ensures
        job_files(start_level_splits(files, target)).to_multiset().add(
            start_level_rest(files, target).to_multiset(),
        ) == files.to_multiset(),
{
    broadcast use vstd::multiset::group_multiset_axioms;

    let split = files.filter(straddling(files, target));
    let kept = files.filter(settled(files, target));
    let targets = files.filter(at_target_level(target));
    lemma_midpoint_jobs_files(split);
    lemma_three_way_partition(
        files,
        straddling(files, target),
        settled(files, target),
        at_target_level(target),
    );
    lemma_sorted_files_is_sorted_permutation(targets);
    lemma_multiset_commutative(kept, sorted_files(targets));
    assert(split.to_multiset().add(kept.to_multiset().add(targets.to_multiset()))
        =~= split.to_multiset().add(kept.to_multiset()).add(targets.to_multiset()));
}

/// Every emitted job splits a straddling start-level file of the input once, at the
/// middle of its time range; no file that overlaps fewer than two target-level files
/// is ever split.
pub proof fn lemma_start_level_splits_members(
    files: Seq<ParquetFile>,
    target: CompactionLevel,
    i: int,
)
    requires
        0 <= i < start_level_splits(files, target).len(),
    ensures
        start_level_splits(files, target)[i] == midpoint_job(
            start_level_splits(files, target)[i].file,
        ),
        straddles(start_level_splits(files, target)[i].file, files, target),
        files.contains(start_level_splits(files, target)[i].file),
{
    let split = files.filter(straddling(files, target));
    files.lemma_filter_pred(straddling(files, target), i);
    files.lemma_filter_contains_rev(straddling(files, target), split[i]);
}

/// Counts the files among `others` that `file` overlaps.
pub fn count_overlaps(file: &ParquetFile, others: &Vec<ParquetFile>) -> (count: usize)
    ensures
        count == overlap_count(*file, others@),
{
    let mut count: usize = 0;
    let mut j: usize = 0;
    proof {
        reveal(Seq::filter);
        assert(others@.take(0).filter(overlapping(*file)) =~= Seq::<ParquetFile>::empty());
    }
    while j < others.len()
        invariant
            j <= others.len(),
            count <= j,
            count == others@.take(j as int).filter(overlapping(*file)).len(),
        decreases others.len() - j,
    {
        proof {
            others@.take(j as int).lemma_filter_push(others@[j as int], overlapping(*file));
            assert(others@.take(j + 1) =~= others@.take(j as int).push(others@[j as int]));
        }
        if file.overlaps(&others[j]) {
            count += 1;
        }
        j += 1;
    }
    assert(others@.take(others.len() as int) =~= others@);
    count
}

/// Computes the middle of the file's time range.
pub fn split_midpoint(file: &ParquetFile) -> (mid: i64)
    ensures
        mid == midpoint(*file),
{
    let low: i128 = file.min_time as i128;
    let high: i128 = file.max_time as i128;
    let half: i128 = if high >= low {
        (high - low) / 2
    } else {
        -((low - high) / 2)
    };
    (low + half) as i64
}

/// Sorts the files into those that must be split before any further compaction and
/// those that need not.
///
/// A start-level file is split when it overlaps two or more target-level files; it is
/// split once, at the middle of its time range. The second vector holds all other
/// files: the start-level files in their given order, then the target-level files in
/// walking order.
pub fn identify_start_level_files_to_split(
    files: Vec<ParquetFile>,
    target_level: CompactionLevel,
) -> (out: (Vec<FileToSplit>, Vec<ParquetFile>))
    ensures
        out.0.deep_view() == start_level_splits(files@, target_level),
        out.1@ == start_level_rest(files@, target_level),
        job_files(out.0.deep_view()).to_multiset().add(out.1@.to_multiset())
            == files@.to_multiset(),
{
    let start_level = target_level.prev();
    let mut targets: Vec<ParquetFile> = Vec::new();
    let mut i: usize = 0;
    proof {
        reveal(Seq::filter);
        assert(files@.take(0).filter(at_target_level(target_level)) =~= Seq::<ParquetFile>::empty());
    }
    while i < files.len()
        invariant
            i <= files.len(),
            start_level == target_level.spec_prev(),
            targets@ == files@.take(i as int).filter(at_target_level(target_level)),
        decreases files.len() - i,
    {
        proof {
            files@.take(i as int).lemma_filter_push(files@[i as int], at_target_level(target_level));
            assert(files@.take(i + 1) =~= files@.take(i as int).push(files@[i as int]));
        }
        if files[i].level != start_level {
            targets.push(files[i]);
        }
        i += 1;
    }
    assert(files@.take(files.len() as int) =~= files@);

    let mut to_split: Vec<FileToSplit> = Vec::new();
    let mut rest: Vec<ParquetFile> = Vec::new();
    let ghost job = |file: ParquetFile| midpoint_job(file);
    let mut k: usize = 0;
    proof {
        reveal(Seq::filter);
        assert(files@.take(0).filter(straddling(files@, target_level)) =~= Seq::<
            ParquetFile,
        >::empty());
        assert(files@.take(0).filter(settled(files@, target_level)) =~= Seq::<
            ParquetFile,
        >::empty());
        assert(to_split.deep_view() =~= Seq::<ParquetFile>::empty().map_values(job));
    }
    while k < files.len()
        invariant
            k <= files.len(),
            start_level == target_level.spec_prev(),
            job == |file: ParquetFile| midpoint_job(file),
            targets@ == files@.filter(at_target_level(target_level)),
            to_split.deep_view() == files@.take(k as int).filter(
                straddling(files@, target_level),
            ).map_values(job),
            rest@ == files@.take(k as int).filter(settled(files@, target_level)),
        decreases files.len() - k,
    {
        let file = files[k];
        proof {
            files@.take(k as int).lemma_filter_push(file, straddling(files@, target_level));
            files@.take(k as int).lemma_filter_push(file, settled(files@, target_level));
            assert(files@.take(k + 1) =~= files@.take(k as int).push(file));
        }
        if file.level == start_level {
            let count = count_overlaps(&file, &targets);
            if count >= 2 {
                let ghost before = to_split.deep_view();
                let mut times: Vec<i64> = Vec::new();
                times.push(split_midpoint(&file));
                assert(times@ =~= midpoint_job(file).split_times);
                to_split.push(FileToSplit { file, split_times: times });
                assert(to_split.deep_view() =~= before.push(midpoint_job(file)));
                assert(files@.take(k as int).filter(straddling(files@, target_level)).push(
                    file,
                ).map_values(job) =~= before.push(midpoint_job(file)));
            } else {
                rest.push(file);
            }
        }
        k += 1;
    }
    let mut sorted_targets = sort_files(&targets);
    rest.append(&mut sorted_targets);
    proof {
        lemma_start_level_split_conserves(files@, target_level);
    }
    (to_split, rest)
}

} // verus!

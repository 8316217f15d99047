//! The large-file splitter: computes split times for files that are too large to be
//! compacted, so that each piece comes out close to the desired file size.
//!
//! Rows are taken to be spread evenly over the time range of a file. The estimate
//! only affects how large the pieces turn out, never whether the split is legal.

use vstd::prelude::*;
use vstd::seq_lib::*;
use crate::error::{config_valid, is_config_valid, PlanError};
use crate::file::ParquetFile;
use crate::file_classification::{job_files, legal_split_times, FileToSplit, SplitJob};

verus! {

/// By how many percent a file may exceed the desired file size before it is split,
/// unless the caller says otherwise.
pub const PERCENTAGE_OF_SOFT_EXCEEDED: u32 = 10;

/// The file is larger than the desired size by more than the tolerated percentage:
/// `size > desired * (1 + percent / 100)`.
pub open spec fn exceeds_soft_limit(
    file: ParquetFile,
    max_desired_file_size: u64,
    soft_exceeded_percent: u32,
) -> bool {
    file.size_bytes * 100 > max_desired_file_size * (100 + soft_exceeded_percent)
}

/// The file is split: it exceeds the soft limit and its time range is more than a
/// single instant.
pub open spec fn is_split(
    file: ParquetFile,
    max_desired_file_size: u64,
    soft_exceeded_percent: u32,
) -> bool {
    exceeds_soft_limit(file, max_desired_file_size, soft_exceeded_percent) && file.min_time
        < file.max_time
}

/// Selects the files that are split.
pub open spec fn split_here(max_desired_file_size: u64, soft_exceeded_percent: u32) -> spec_fn(
    ParquetFile,
) -> bool {
    |file: ParquetFile| is_split(file, max_desired_file_size, soft_exceeded_percent)
}

/// Selects the files that are not split.
pub open spec fn left_whole(max_desired_file_size: u64, soft_exceeded_percent: u32) -> spec_fn(
    ParquetFile,
) -> bool {
    |file: ParquetFile| !is_split(file, max_desired_file_size, soft_exceeded_percent)
}

/// `amount / unit`, rounded up.
pub open spec fn ceil_div(amount: int, unit: int) -> int {
    (amount + unit - 1) / unit
}

/// Into how many pieces a file of `size` bytes is split: enough for each piece to be
/// of the desired size, and never fewer than it takes for each piece to fit half the
/// compaction budget.
pub open spec fn piece_count(
    size: u64,
    max_desired_file_size: u64,
    max_compact_size: usize,
) -> int {
    let by_size = ceil_div(size as int, max_desired_file_size as int);
    let by_budget = ceil_div(size as int, max_compact_size as int / 2);
    if by_size >= by_budget {
        by_size
    } else {
        by_budget
    }
}

/// The `i`-th of the points that cut the time range into `pieces` equal parts.
pub open spec fn split_point(file: ParquetFile, i: int, pieces: int) -> int {
    file.min_time + ((file.max_time - file.min_time) * i) / pieces
}

/// The split times among the first `upto` cut points: each point that lies strictly
/// inside the time range and strictly behind the points before it.
pub open spec fn split_points(file: ParquetFile, pieces: int, upto: int) -> Seq<i64>
    decreases upto,
{
    if upto <= 0 {
        Seq::empty()
    } else {
        let before = split_points(file, pieces, upto - 1);
        let point = split_point(file, upto, pieces);
        if file.min_time < point < file.max_time && (before.len() == 0 || before.last() < point) {
            before.push(point as i64)
        } else {
            before
        }
    }
}

/// The job that splits a large file into pieces of about the desired size.
pub open spec fn even_split_job(
    file: ParquetFile,
    max_desired_file_size: u64,
    max_compact_size: usize,
) -> SplitJob {
    let pieces = piece_count(file.size_bytes, max_desired_file_size, max_compact_size);
    SplitJob { file, split_times: split_points(file, pieces, pieces - 1) }
}

/// Turns files into the jobs that split them evenly.
pub open spec fn evenly(max_desired_file_size: u64, max_compact_size: usize) -> spec_fn(
    ParquetFile,
) -> SplitJob {
    |file: ParquetFile| even_split_job(file, max_desired_file_size, max_compact_size)
}

/// The split jobs for the large files among `files`, in the order of `files`.
pub open spec fn large_file_splits(
    files: Seq<ParquetFile>,
    max_desired_file_size: u64,
    max_compact_size: usize,
    soft_exceeded_percent: u32,
) -> Seq<SplitJob> {
    files.filter(split_here(max_desired_file_size, soft_exceeded_percent)).map_values(
        evenly(max_desired_file_size, max_compact_size),
    )
}

/// The files that are not split, in the order of `files`.
pub open spec fn large_file_rest(
    files: Seq<ParquetFile>,
    max_desired_file_size: u64,
    soft_exceeded_percent: u32,
) -> Seq<ParquetFile> {
    files.filter(left_whole(max_desired_file_size, soft_exceeded_percent))
}

/// Rounding a quotient up never gives more than the dividend, and gives at least two
/// when the dividend is larger than the divisor.
pub proof fn lemma_ceil_div_bounds(amount: int, unit: int)
    requires
        0 <= amount,
        1 <= unit,
    ensures
        0 <= ceil_div(amount, unit) <= amount,
        amount >= 1 ==> ceil_div(amount, unit) >= 1,
        amount > unit ==> ceil_div(amount, unit) >= 2,
        unit * (ceil_div(amount, unit) - 1) < amount <= unit * ceil_div(amount, unit),
{
    let q = ceil_div(amount, unit);
    vstd::arithmetic::div_mod::lemma_fundamental_div_mod(amount + unit - 1, unit);
    vstd::arithmetic::div_mod::lemma_mod_bound(amount + unit - 1, unit);
    assert(unit * q <= amount + unit - 1 < unit * q + unit);
    assert(q <= amount) by (nonlinear_arith)
        requires
            unit * q <= amount + unit - 1,
            unit >= 1,
            amount >= 0,
    ;
    assert(q >= 0 && (amount >= 1 ==> q >= 1) && (amount > unit ==> q >= 2)
        && unit * (q - 1) < amount <= unit * q) by (nonlinear_arith)
        requires
            unit * q <= amount + unit - 1 < unit * q + unit,
            unit >= 1,
            amount >= 0,
    ;
}

/// A file that is split is cut into at least two pieces, and no more pieces than it
/// has bytes.
pub proof fn lemma_piece_count_bounds(
    file: ParquetFile,
    max_desired_file_size: u64,
    max_compact_size: usize,
    soft_exceeded_percent: u32,
)
    requires
        config_valid(max_compact_size, max_desired_file_size),
        exceeds_soft_limit(file, max_desired_file_size, soft_exceeded_percent),
    ensures
        2 <= piece_count(file.size_bytes, max_desired_file_size, max_compact_size)
            <= file.size_bytes,
        piece_count(file.size_bytes, max_desired_file_size, max_compact_size) == ceil_div(
            file.size_bytes as int,
            max_desired_file_size as int,
        ),
{
    let size = file.size_bytes as int;
    let desired = max_desired_file_size as int;
    let half = max_compact_size as int / 2;
    assert(size > desired) by (nonlinear_arith)
        requires
            size * 100 > desired * (100 + soft_exceeded_percent),
            desired >= 0,
            soft_exceeded_percent >= 0,
    ;
    lemma_ceil_div_bounds(size, desired);
    lemma_ceil_div_bounds(size, half);
    let by_size = ceil_div(size, desired);
    let by_budget = ceil_div(size, half);
    assert(by_budget <= by_size) by (nonlinear_arith)
        requires
            half * (by_budget - 1) < size <= desired * by_size,
            1 <= desired <= half,
            by_size >= 0,
    ;
}

/// Every cut point but the last lies before the end of the time range, and the cut
/// points never step backwards.
pub proof fn lemma_split_point_bounds(file: ParquetFile, i: int, pieces: int)
    requires
        file.min_time < file.max_time,
        0 <= i < pieces,
    ensures
        file.min_time <= split_point(file, i, pieces) < file.max_time,
        split_point(file, i, pieces) <= split_point(file, i + 1, pieces),
{
    let width = file.max_time - file.min_time;
    assert(0 <= (width * i) / pieces < width && (width * i) / pieces <= (width * (i + 1)) / pieces)
        by (nonlinear_arith)
        requires
            width > 0,
            0 <= i < pieces,
    ;
}

/// The split times are strictly ascending and lie strictly inside the time range.
pub proof fn lemma_split_points_legal(file: ParquetFile, pieces: int, upto: int)
    ensures
        legal_split_times(file, split_points(file, pieces, upto)),
        split_points(file, pieces, upto).len() <= if upto > 0 {
            upto
        } else {
            0
        },
    decreases upto,
{
    if upto > 0 {
        lemma_split_points_legal(file, pieces, upto - 1);
        let before = split_points(file, pieces, upto - 1);
        let all = split_points(file, pieces, upto);
        assert forall|i: int, j: int| 0 <= i < j < all.len() implies all[i] < all[j] by {
            if j < before.len() {
                assert(before[i] < before[j]);
            } else if i < before.len() - 1 {
                assert(before[i] < before[before.len() - 1]);
            }
        }
        assert forall|i: int| 0 <= i < all.len() implies file.min_time < #[trigger] all[i]
            < file.max_time by {
            if i < before.len() {
                assert(file.min_time < before[i] < file.max_time);
            }
        }
    }
}

/// A time range that is at least as wide as the number of pieces is cut at every cut
/// point: the file gets one split time less than it gets pieces.
pub proof fn lemma_wide_range_takes_every_point(file: ParquetFile, pieces: int, upto: int)
    requires
        0 <= upto < pieces <= file.max_time - file.min_time,
    ensures
        split_points(file, pieces, upto).len() == upto,
        forall|i: int|
            0 <= i < upto ==> #[trigger] split_points(file, pieces, upto)[i] == split_point(
                file,
                i + 1,
                pieces,
            ),
    decreases upto,
{
    if upto > 0 {
        lemma_wide_range_takes_every_point(file, pieces, upto - 1);
        let width = file.max_time - file.min_time;
        assert((width * (upto - 1)) / pieces < (width * upto) / pieces && 0 < (width * upto)
            / pieces < width) by (nonlinear_arith)
            requires
                0 < upto < pieces <= width,
        ;
        let before = split_points(file, pieces, upto - 1);
        if upto > 1 {
            assert(before[upto - 2] == split_point(file, upto - 1, pieces));
        }
    }
}

/// The splitter neither drops nor duplicates a file.
pub proof fn lemma_large_file_split_conserves(
    files: Seq<ParquetFile>,
    max_desired_file_size: u64,
    max_compact_size: usize,
    soft_exceeded_percent: u32,
)
    ensures
        job_files(
            large_file_splits(
                files,
                max_desired_file_size,
                max_compact_size,
                soft_exceeded_percent,
            ),
        ).to_multiset().add(
            large_file_rest(files, max_desired_file_size, soft_exceeded_percent).to_multiset(),
        ) == files.to_multiset(),
    decreases files.len(),
{
    broadcast use vstd::multiset::group_multiset_axioms;

    let split = split_here(max_desired_file_size, soft_exceeded_percent);
    let whole = left_whole(max_desired_file_size, soft_exceeded_percent);
    let job = evenly(max_desired_file_size, max_compact_size);
    assert forall|s: Seq<ParquetFile>| #[trigger] job_files(s.map_values(job)) == s by {
        assert(job_files(s.map_values(job)) =~= s);
    }
    if files.len() == 0 {
        reveal(Seq::filter);
        assert(files.filter(split) =~= files);
        assert(files.filter(whole) =~= files);
        files.to_multiset_ensures();
        assert(files.to_multiset().add(files.to_multiset()) =~= files.to_multiset());
    } else {
        let init = files.drop_last();
        let last = files.last();
        lemma_large_file_split_conserves(
            init,
            max_desired_file_size,
            max_compact_size,
            soft_exceeded_percent,
        );
        assert(init.push(last) =~= files);
        init.lemma_filter_push(last, split);
        init.lemma_filter_push(last, whole);
        to_multiset_build(init, last);
        to_multiset_build(init.filter(split), last);
        to_multiset_build(init.filter(whole), last);
        assert(job_files(files.filter(split).map_values(job)) == files.filter(split));
        assert(job_files(init.filter(split).map_values(job)) == init.filter(split));
        assert(files.filter(split).to_multiset().add(files.filter(whole).to_multiset())
            =~= files.to_multiset());
    }
}

/// Every job that the splitter emits is legal, splits a file of the input that
/// exceeds the soft limit, and cuts it into no more pieces than planned.
pub proof fn lemma_large_file_splits_members(
    files: Seq<ParquetFile>,
    max_desired_file_size: u64,
    max_compact_size: usize,
    soft_exceeded_percent: u32,
    i: int,
)
    requires
        0 <= i < large_file_splits(
            files,
            max_desired_file_size,
            max_compact_size,
            soft_exceeded_percent,
        ).len(),
    ensures
        ({
            let job = large_file_splits(
                files,
                max_desired_file_size,
                max_compact_size,
                soft_exceeded_percent,
            )[i];
            &&& job.legal()
            &&& job == even_split_job(job.file, max_desired_file_size, max_compact_size)
            &&& is_split(job.file, max_desired_file_size, soft_exceeded_percent)
            &&& files.contains(job.file)
        }),
{
    let split = split_here(max_desired_file_size, soft_exceeded_percent);
    let chosen = files.filter(split);
    files.lemma_filter_pred(split, i);
    files.lemma_filter_contains_rev(split, chosen[i]);
    let pieces = piece_count(chosen[i].size_bytes, max_desired_file_size, max_compact_size);
    lemma_split_points_legal(chosen[i], pieces, pieces - 1);
}

/// Tells whether the file exceeds the desired size by more than the tolerated
/// percentage.
pub fn file_exceeds_soft_limit(
    file: &ParquetFile,
    max_desired_file_size: u64,
    soft_exceeded_percent: u32,
) -> (exceeds: bool)
    ensures
        exceeds == exceeds_soft_limit(*file, max_desired_file_size, soft_exceeded_percent),
{
    let size: u128 = file.size_bytes as u128;
    let desired: u128 = max_desired_file_size as u128;
    let factor: u128 = 100 + soft_exceeded_percent as u128;
    assert(desired * factor <= 0xffff_ffff_ffff_ffff * 0x1_0000_0063) by (nonlinear_arith)
        requires
            0 <= desired <= 0xffff_ffff_ffff_ffff,
            0 <= factor <= 0x1_0000_0063,
    ;
    size * 100 > desired * factor
}

/// Computes the number of pieces that a file of `size` bytes is split into.
pub fn count_pieces(size: u64, max_desired_file_size: u64, max_compact_size: usize) -> (pieces: u64)
    requires
        config_valid(max_compact_size, max_desired_file_size),
    ensures
        pieces == piece_count(size, max_desired_file_size, max_compact_size),
{
    let amount: u128 = size as u128;
    let desired: u128 = max_desired_file_size as u128;
    let half: u128 = (max_compact_size / 2) as u128;
    proof {
        lemma_ceil_div_bounds(size as int, max_desired_file_size as int);
        lemma_ceil_div_bounds(size as int, max_compact_size as int / 2);
    }
    let by_size: u128 = (amount + desired - 1) / desired;
    let by_budget: u128 = (amount + half - 1) / half;
    if by_size >= by_budget {
        by_size as u64
    } else {
        by_budget as u64
    }
}

/// A time range of a single instant, or an inverted one, has no split times.
pub proof fn lemma_no_room_no_split_points(file: ParquetFile, pieces: int, upto: int)
    requires
        file.max_time - file.min_time <= 1,
    ensures
        split_points(file, pieces, upto) == Seq::<i64>::empty(),
    decreases upto,
{
    if upto > 0 {
        lemma_no_room_no_split_points(file, pieces, upto - 1);
    }
}

/// Computes the times at which to split `file` into `pieces` parts of equal duration.
/// Where the time range is too narrow for all cut points to differ, the points that
/// coincide are emitted once, and points on the edge of the range not at all.
pub fn compute_split_times(file: &ParquetFile, pieces: u64) -> (times: Vec<i64>)
    ensures
        times@ == split_points(*file, pieces as int, pieces - 1),
        legal_split_times(*file, times@),
        1 <= pieces <= file.max_time - file.min_time ==> times@.len() == pieces - 1,
{
    let mut times: Vec<i64> = Vec::new();
    if file.min_time >= file.max_time {
        proof {
            lemma_no_room_no_split_points(*file, pieces as int, pieces - 1);
        }
        return times;
    }
    let width: u128 = (file.max_time as i128 - file.min_time as i128) as u128;
    let mut i: u64 = 1;
    while i < pieces
        invariant
            1 <= i,
            i <= pieces || (pieces == 0 && i == 1),
            width == file.max_time - file.min_time,
            file.min_time < file.max_time,
            times@ == split_points(*file, pieces as int, i - 1),
        decreases pieces - i,
    {
        proof {
            lemma_split_point_bounds(*file, i as int, pieces as int);
            assert(width * i <= 0xffff_ffff_ffff_ffff * 0xffff_ffff_ffff_ffff) by (nonlinear_arith)
                requires
                    0 <= width <= 0xffff_ffff_ffff_ffff,
                    0 <= i <= 0xffff_ffff_ffff_ffff,
            ;
        }
        let offset: u128 = (width * (i as u128)) / (pieces as u128);
        let point: i64 = (file.min_time as i128 + offset as i128) as i64;
        let count = times.len();
        if point > file.min_time && (count == 0 || times[count - 1] < point) {
            times.push(point);
        }
        i += 1;
    }
    proof {
        if pieces == 0 {
            assert(split_points(*file, 0, 0) =~= Seq::<i64>::empty());
            assert(split_points(*file, 0, -1) =~= Seq::<i64>::empty());
        }
        lemma_split_points_legal(*file, pieces as int, pieces - 1);
        if 1 <= pieces <= file.max_time - file.min_time {
            lemma_wide_range_takes_every_point(*file, pieces as int, pieces - 1);
        }
    }
    times
}

/// Sorts the files into those that are split and those that are not, and computes
/// the split times of the former.
///
/// A file is split when it is larger than `max_desired_file_size` by more than
/// `soft_exceeded_percent` percent and its time range is more than one instant. Its
/// time range is cut into as many equal parts as it takes for each part to be of the
/// desired size. The configuration is rejected when `max_compact_size` is less than
/// twice `max_desired_file_size`, or when the latter is zero.
pub fn compute_split_times_for_large_files(
    files: Vec<ParquetFile>,
    max_desired_file_size: u64,
    max_compact_size: usize,
    soft_exceeded_percent: u32,
) -> (out: Result<(Vec<FileToSplit>, Vec<ParquetFile>), PlanError>)
    ensures
        out is Ok <==> config_valid(max_compact_size, max_desired_file_size),
        out matches Err(e) ==> e == (PlanError::ConfigInvalid {
            max_compact_size,
            max_desired_file_size,
        }),
        out matches Ok((to_split, rest)) ==> {
            &&& to_split.deep_view() == large_file_splits(
                files@,
                max_desired_file_size,
                max_compact_size,
                soft_exceeded_percent,
            )
            &&& rest@ == large_file_rest(files@, max_desired_file_size, soft_exceeded_percent)
            &&& job_files(to_split.deep_view()).to_multiset().add(rest@.to_multiset())
                == files@.to_multiset()
            &&& forall|i: int|
                0 <= i < to_split.len() ==> (#[trigger] to_split.deep_view()[i]).legal()
        },
{
    if !is_config_valid(max_compact_size, max_desired_file_size) {
        return Err(PlanError::ConfigInvalid { max_compact_size, max_desired_file_size });
    }
    let mut to_split: Vec<FileToSplit> = Vec::new();
    let mut rest: Vec<ParquetFile> = Vec::new();
    let ghost split = split_here(max_desired_file_size, soft_exceeded_percent);
    let ghost whole = left_whole(max_desired_file_size, soft_exceeded_percent);
    let ghost job = evenly(max_desired_file_size, max_compact_size);
    let mut i: usize = 0;
    proof {
        reveal(Seq::filter);
        assert(files@.take(0).filter(split) =~= Seq::<ParquetFile>::empty());
        assert(files@.take(0).filter(whole) =~= Seq::<ParquetFile>::empty());
        assert(to_split.deep_view() =~= Seq::<ParquetFile>::empty().map_values(job));
    }
    while i < files.len()
        invariant
            i <= files.len(),
            config_valid(max_compact_size, max_desired_file_size),
            split == split_here(max_desired_file_size, soft_exceeded_percent),
            whole == left_whole(max_desired_file_size, soft_exceeded_percent),
            job == evenly(max_desired_file_size, max_compact_size),
            to_split.deep_view() == files@.take(i as int).filter(split).map_values(job),
            rest@ == files@.take(i as int).filter(whole),
        decreases files.len() - i,
    {
        let file = files[i];
        proof {
            files@.take(i as int).lemma_filter_push(file, split);
            files@.take(i as int).lemma_filter_push(file, whole);
            assert(files@.take(i + 1) =~= files@.take(i as int).push(file));
        }
        if file_exceeds_soft_limit(&file, max_desired_file_size, soft_exceeded_percent)
            && file.min_time < file.max_time {
            let ghost before = to_split.deep_view();
            let pieces = count_pieces(file.size_bytes, max_desired_file_size, max_compact_size);
            let times = compute_split_times(&file, pieces);
            to_split.push(FileToSplit { file, split_times: times });
            assert(to_split.deep_view() =~= before.push(job(file)));
            assert(files@.take(i as int).filter(split).push(file).map_values(job)
                =~= before.push(job(file)));
        } else {
            rest.push(file);
        }
        i += 1;
    }
    proof {
        assert(files@.take(files.len() as int) =~= files@);
        lemma_large_file_split_conserves(
            files@,
            max_desired_file_size,
            max_compact_size,
            soft_exceeded_percent,
        );
        assert forall|i: int| 0 <= i < to_split.len() implies (#[trigger] to_split.deep_view()[
            i
        ]).legal() by {
            lemma_large_file_splits_members(
                files@,
                max_desired_file_size,
                max_compact_size,
                soft_exceeded_percent,
                i,
            );
        }
    }
    Ok((to_split, rest))
}

} // verus!

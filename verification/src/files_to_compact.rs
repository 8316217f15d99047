//! The budget limiter: chooses the files to compact in one run so that their total
//! size stays within the compaction budget.
//!
//! The files are walked in order of their start time. Files that overlap, directly or
//! through other files, form a group, and a group is compacted whole or not at all.
//! The limiter takes groups from the front for as long as the running total fits the
//! budget and stops at the first group that does not fit.

use vstd::prelude::*;
use vstd::seq_lib::*;
use crate::file::{total_size, ParquetFile};
use crate::file_classification::copy_files;
use crate::order::{
    is_sorted, lemma_sorted_files_is_sorted_permutation, lemma_sorted_min_times, sort_files,
    sorted_files,
};

verus! {

/// The latest end time among the first `n` files; below every timestamp when `n` is
/// not positive.
pub open spec fn reach(files: Seq<ParquetFile>, n: int) -> int
    decreases n,
{
    if n <= 0 {
        i64::MIN - 1
    } else if reach(files, n - 1) >= files[n - 1].max_time {
        reach(files, n - 1)
    } else {
        files[n - 1].max_time as int
    }
}

/// A group ends before position `n`: there is no file at `n`, or the file at `n`
/// starts after all files before it have ended.
pub open spec fn is_boundary(files: Seq<ParquetFile>, n: int) -> bool {
    0 <= n <= files.len() && (n == files.len() || reach(files, n) < files[n].min_time)
}

/// The largest boundary up to `n` before which the files weigh no more than `budget`
/// in total.
pub open spec fn last_fitting_boundary(files: Seq<ParquetFile>, budget: int, n: int) -> int
    decreases n,
{
    if n <= 0 {
        0
    } else if is_boundary(files, n) && total_size(files.take(n)) <= budget {
        n
    } else {
        last_fitting_boundary(files, budget, n - 1)
    }
}

/// The first boundary after position `n`.
pub open spec fn next_boundary(files: Seq<ParquetFile>, n: int) -> int
    decreases files.len() - n,
{
    if n >= files.len() {
        files.len() as int
    } else if is_boundary(files, n + 1) {
        n + 1
    } else {
        next_boundary(files, n + 1)
    }
}

/// Selects the files that are larger than `size`.
pub open spec fn larger_than(size: u64) -> spec_fn(ParquetFile) -> bool {
    |file: ParquetFile| file.size_bytes > size
}

/// Selects the files that are not larger than `size`.
pub open spec fn at_most(size: u64) -> spec_fn(ParquetFile) -> bool {
    |file: ParquetFile| file.size_bytes <= size
}

/// How many files, counted from the front of the walking order, are compacted.
pub open spec fn compact_len(files: Seq<ParquetFile>, max_compact_size: int) -> int {
    last_fitting_boundary(sorted_files(files), max_compact_size, files.len() as int)
}

/// The files to compact: the groups at the front of the walking order that together
/// fit the budget.
pub open spec fn limited_compact(files: Seq<ParquetFile>, max_compact_size: int) -> Seq<
    ParquetFile,
> {
    sorted_files(files).take(compact_len(files, max_compact_size))
}

/// The files to split further. When not even the first group fits the budget, these
/// are the files of that group that are larger than the desired file size; otherwise
/// there are none.
pub open spec fn limited_further_split(
    files: Seq<ParquetFile>,
    max_compact_size: int,
    max_desired_file_size: u64,
) -> Seq<ParquetFile> {
    let sorted = sorted_files(files);
    if compact_len(files, max_compact_size) == 0 {
        sorted.take(next_boundary(sorted, 0)).filter(larger_than(max_desired_file_size))
    } else {
        Seq::empty()
    }
}

/// The files to keep for a later round: all files that are neither compacted nor
/// split further, in walking order.
pub open spec fn limited_keep(
    files: Seq<ParquetFile>,
    max_compact_size: int,
    max_desired_file_size: u64,
) -> Seq<ParquetFile> {
    let sorted = sorted_files(files);
    let taken = compact_len(files, max_compact_size);
    if taken == 0 {
        let first = next_boundary(sorted, 0);
        sorted.take(first).filter(at_most(max_desired_file_size)) + sorted.skip(first)
    } else {
        sorted.skip(taken)
    }
}

/// What the limiter decides for a set of files.
#[derive(Debug, Clone, PartialEq, Eq)]
pub struct KeepAndCompactSplit {
    /// Files to compact in this round.
    pub files_to_compact: Vec<ParquetFile>,
    /// Files that are too large to compact and should be split first.
    pub files_to_further_split: Vec<ParquetFile>,
    /// Files to keep for a later round.
    pub files_to_keep: Vec<ParquetFile>,
}

impl KeepAndCompactSplit {
    /// The files to compact in this round.
    pub fn files_to_compact(&self) -> (files: Vec<ParquetFile>)
        ensures
            files@ == self.files_to_compact@,
    {
        copy_files(&self.files_to_compact)
    }

    /// The files that should be split before they are compacted.
    pub fn files_to_further_split(&self) -> (files: Vec<ParquetFile>)
        ensures
            files@ == self.files_to_further_split@,
    {
        copy_files(&self.files_to_further_split)
    }

    /// The files to keep for a later round.
    pub fn files_to_keep(&self) -> (files: Vec<ParquetFile>)
        ensures
            files@ == self.files_to_keep@,
    {
        copy_files(&self.files_to_keep)
    }
}

/// No file among the first `n` ends after `reach(files, n)`.
pub proof fn lemma_reach_covers(files: Seq<ParquetFile>, n: int, i: int)
    requires
        0 <= i < n <= files.len(),
    ensures
        files[i].max_time <= reach(files, n),
    decreases n,
{
    if i < n - 1 {
        lemma_reach_covers(files, n - 1, i);
    }
}

/// `reach(files, n)` is the end time of one of the first `n` files.
pub proof fn lemma_reach_is_attained(files: Seq<ParquetFile>, n: int) -> (i: int)
    requires
        0 < n <= files.len(),
    ensures
        0 <= i < n,
        files[i].max_time == reach(files, n),
    decreases n,
{
    assert(reach(files, 0) < files[0].max_time);
    if n == 1 || reach(files, n - 1) < files[n - 1].max_time {
        n - 1
    } else {
        lemma_reach_is_attained(files, n - 1)
    }
}

/// A boundary separates the files: in walking order, no file before a boundary
/// overlaps a file behind it.
pub proof fn lemma_boundary_separates(files: Seq<ParquetFile>, n: int, i: int, j: int)
    requires
        is_sorted(files),
        is_boundary(files, n),
        0 <= i < n <= j < files.len(),
    ensures
        !files[i].spec_overlaps(files[j]),
        !files[j].spec_overlaps(files[i]),
{
    lemma_reach_covers(files, n, i);
    lemma_sorted_min_times(files, n, j);
}

/// Groups cannot be cut any finer: where well-formed files in walking order have no
/// boundary, the file at that position overlaps a file before it.
pub proof fn lemma_group_is_connected(files: Seq<ParquetFile>, n: int) -> (i: int)
    requires
        is_sorted(files),
        files[n].min_time <= files[n].max_time,
        0 < n < files.len(),
        !is_boundary(files, n),
    ensures
        0 <= i < n,
        files[i].spec_overlaps(files[n]),
{
    let i = lemma_reach_is_attained(files, n);
    lemma_sorted_min_times(files, i, n);
    i
}

/// The properties that define `last_fitting_boundary`: it is a boundary, the files
/// before it fit the budget, and no later boundary up to `n` does.
pub proof fn lemma_last_fitting_boundary(files: Seq<ParquetFile>, budget: int, n: int)
    requires
        0 <= n <= files.len(),
        0 <= budget,
    ensures
        0 <= last_fitting_boundary(files, budget, n) <= n,
        is_boundary(files, last_fitting_boundary(files, budget, n)),
        total_size(files.take(last_fitting_boundary(files, budget, n))) <= budget,
        forall|b: int|
            last_fitting_boundary(files, budget, n) < b <= n && is_boundary(files, b)
                ==> total_size(#[trigger] files.take(b)) > budget,
    decreases n,
{
    if n > 0 {
        lemma_last_fitting_boundary(files, budget, n - 1);
    } else {
        assert(files.take(0) =~= Seq::<ParquetFile>::empty());
    }
}

/// The properties that define `next_boundary`: it is a boundary behind `n`, and no
/// position between `n` and it is one.
pub proof fn lemma_next_boundary(files: Seq<ParquetFile>, n: int)
    requires
        0 <= n < files.len(),
    ensures
        n < next_boundary(files, n) <= files.len(),
        is_boundary(files, next_boundary(files, n)),
        forall|b: int| n < b < next_boundary(files, n) ==> !is_boundary(files, b),
    decreases files.len() - n,
{
    if !is_boundary(files, n + 1) {
        lemma_next_boundary(files, n + 1);
    }
}

/// Two filters of which every file passes exactly one split a sequence without loss.
proof fn lemma_two_way_partition(
    files: Seq<ParquetFile>,
    first: spec_fn(ParquetFile) -> bool,
    second: spec_fn(ParquetFile) -> bool,
)
    requires
        forall|file: ParquetFile| #[trigger] first(file) != second(file),
    ensures
        files.filter(first).to_multiset().add(files.filter(second).to_multiset())
            == files.to_multiset(),
    decreases files.len(),
{
    broadcast use vstd::multiset::group_multiset_axioms;

    if files.len() == 0 {
        reveal(Seq::filter);
        assert(files.filter(first) =~= files);
        assert(files.filter(second) =~= files);
        files.to_multiset_ensures();
        assert(files.to_multiset().add(files.to_multiset()) =~= files.to_multiset());
    } else {
        let init = files.drop_last();
        let last = files.last();
        lemma_two_way_partition(init, first, second);
        assert(init.push(last) =~= files);
        init.lemma_filter_push(last, first);
        init.lemma_filter_push(last, second);
        to_multiset_build(init, last);
        to_multiset_build(init.filter(first), last);
        to_multiset_build(init.filter(second), last);
        assert(first(last) != second(last));
        assert(files.filter(first).to_multiset().add(files.filter(second).to_multiset())
            =~= files.to_multiset());
    }
}

/// The limiter neither drops nor duplicates a file: its three outputs are together
/// exactly the input.
pub proof fn lemma_limit_conserves(
    files: Seq<ParquetFile>,
    max_compact_size: int,
    max_desired_file_size: u64,
)
    requires
        0 <= max_compact_size,
    ensures
        limited_compact(files, max_compact_size).to_multiset().add(
            limited_further_split(files, max_compact_size, max_desired_file_size).to_multiset(),
        ).add(limited_keep(files, max_compact_size, max_desired_file_size).to_multiset())
            == files.to_multiset(),
{
    broadcast use vstd::multiset::group_multiset_axioms;

    let sorted = sorted_files(files);
    lemma_sorted_files_is_sorted_permutation(files);
    let taken = compact_len(files, max_compact_size);
    lemma_last_fitting_boundary(sorted, max_compact_size, sorted.len() as int);
    let compact = limited_compact(files, max_compact_size);
    let further = limited_further_split(files, max_compact_size, max_desired_file_size);
    let keep = limited_keep(files, max_compact_size, max_desired_file_size);
    if taken == 0 {
        assert(compact =~= Seq::<ParquetFile>::empty());
        compact.to_multiset_ensures();
        if sorted.len() > 0 {
            lemma_next_boundary(sorted, 0);
        }
        let first = next_boundary(sorted, 0);
        let head = sorted.take(first);
        let tail = sorted.skip(first);
        assert(head + tail =~= sorted);
        lemma_two_way_partition(
            head,
            larger_than(max_desired_file_size),
            at_most(max_desired_file_size),
        );
        lemma_multiset_commutative(head.filter(at_most(max_desired_file_size)), tail);
        lemma_multiset_commutative(head, tail);
        assert(compact.to_multiset().add(further.to_multiset()).add(keep.to_multiset())
            =~= files.to_multiset());
    } else {
        assert(further =~= Seq::<ParquetFile>::empty());
        further.to_multiset_ensures();
        assert(compact + keep =~= sorted);
        lemma_multiset_commutative(compact, keep);
        assert(compact.to_multiset().add(further.to_multiset()).add(keep.to_multiset())
            =~= files.to_multiset());
    }
}

/// The files to compact stay within the budget, and the selection is the longest one
/// that does: taking one more group would exceed the budget.
pub proof fn lemma_limit_within_budget(files: Seq<ParquetFile>, max_compact_size: int)
    requires
        0 <= max_compact_size,
    ensures
        total_size(limited_compact(files, max_compact_size)) <= max_compact_size,
        is_boundary(sorted_files(files), compact_len(files, max_compact_size)),
        forall|b: int|
            compact_len(files, max_compact_size) < b <= files.len() && is_boundary(
                sorted_files(files),
                b,
            ) ==> total_size(#[trigger] sorted_files(files).take(b)) > max_compact_size,
{
    lemma_sorted_files_is_sorted_permutation(files);
    lemma_last_fitting_boundary(sorted_files(files), max_compact_size, files.len() as int);
}

/// The selection is closed under overlap: an input file that overlaps a file to
/// compact is itself a file to compact.
pub proof fn lemma_limit_overlap_closed(
    files: Seq<ParquetFile>,
    max_compact_size: int,
    inside: ParquetFile,
    other: ParquetFile,
)
    requires
        0 <= max_compact_size,
        limited_compact(files, max_compact_size).contains(inside),
        files.contains(other),
        inside.spec_overlaps(other) || other.spec_overlaps(inside),
    ensures
        limited_compact(files, max_compact_size).contains(other),
{
    let sorted = sorted_files(files);
    let taken = compact_len(files, max_compact_size);
    lemma_sorted_files_is_sorted_permutation(files);
    lemma_last_fitting_boundary(sorted, max_compact_size, sorted.len() as int);
    crate::order::lemma_sorted_files_contains(files, other);
    let compact = limited_compact(files, max_compact_size);
    let i = choose|i: int| 0 <= i < compact.len() && compact[i] == inside;
    let j = choose|j: int| 0 <= j < sorted.len() && sorted[j] == other;
    assert(sorted[i] == inside);
    if j >= taken {
        lemma_boundary_separates(sorted, taken, i, j);
    } else {
        assert(compact[j] == other);
    }
}

/// Chooses the files to compact within the budget `max_compact_size`.
///
/// The files are put in walking order and taken group by group from the front, a
/// group being a run of files that overlap directly or through each other, for as
/// long as the total size stays within the budget. All files behind the last group
/// taken are kept for a later round, with one exception: when not even the first
/// group fits, its files that are larger than `max_desired_file_size` are handed back
/// to be split further.
pub fn limit_files_to_compact(
    max_compact_size: usize,
    max_desired_file_size: u64,
    files: Vec<ParquetFile>,
) -> (out: KeepAndCompactSplit)
    ensures
        out.files_to_compact@ == limited_compact(files@, max_compact_size as int),
        out.files_to_further_split@ == limited_further_split(
            files@,
            max_compact_size as int,
            max_desired_file_size,
        ),
        out.files_to_keep@ == limited_keep(
            files@,
            max_compact_size as int,
            max_desired_file_size,
        ),
        total_size(out.files_to_compact@) <= max_compact_size,
        out.files_to_compact@.to_multiset().add(out.files_to_further_split@.to_multiset()).add(
            out.files_to_keep@.to_multiset(),
        ) == files@.to_multiset(),
{
    let sorted = sort_files(&files);
    let n = sorted.len();
    let budget: u128 = max_compact_size as u128;

    // How many files from the front fit the budget as whole groups.
    let mut taken: usize = 0;
    let mut sum: u128 = 0;
    let mut latest: i64 = 0;
    let mut i: usize = 0;
    assert(sorted@.take(0) =~= Seq::<ParquetFile>::empty());
    while i < n
        invariant
            n == sorted.len(),
            i <= n,
            budget == max_compact_size,
            sum == total_size(sorted@.take(i as int)),
            sum <= i * 0xffff_ffff_ffff_ffff,
            i > 0 ==> latest == reach(sorted@, i as int),
            taken == last_fitting_boundary(sorted@, max_compact_size as int, i as int),
            taken <= i,
        decreases n - i,
    {
        let file = sorted[i];
        proof {
            assert(sorted@.take(i + 1).drop_last() =~= sorted@.take(i as int));
            assert(reach(sorted@, 0) < file.max_time);
        }
        sum = sum + file.size_bytes as u128;
        if i == 0 || file.max_time > latest {
            latest = file.max_time;
        }
        i += 1;
        if (i == n || latest < sorted[i].min_time) && sum <= budget {
            taken = i;
        }
    }

    // Where the first group ends, in case nothing fits.
    let mut first: usize = 0;
    if taken == 0 && n > 0 {
        let mut end: i64 = sorted[0].max_time;
        first = 1;
        assert(reach(sorted@, 0) < end);
        while first < n && end >= sorted[first].min_time
            invariant
                n == sorted.len(),
                1 <= first <= n,
                end == reach(sorted@, first as int),
                next_boundary(sorted@, 0) == next_boundary(sorted@, first - 1),
            decreases n - first,
        {
            if sorted[first].max_time > end {
                end = sorted[first].max_time;
            }
            first += 1;
        }
    }
    let mut compact: Vec<ParquetFile> = Vec::new();
    let mut further: Vec<ParquetFile> = Vec::new();
    let mut keep: Vec<ParquetFile> = Vec::new();
    let ghost head = sorted@.take(first as int);
    let mut j: usize = 0;
    proof {
        reveal(Seq::filter);
        assert(head.take(0).filter(larger_than(max_desired_file_size)) =~= Seq::<
            ParquetFile,
        >::empty());
        assert(head.take(0).filter(at_most(max_desired_file_size)) =~= Seq::<
            ParquetFile,
        >::empty());
    }
    while j < first
        invariant
            n == sorted.len(),
            j <= first <= n,
            head == sorted@.take(first as int),
            further@ == head.take(j as int).filter(larger_than(max_desired_file_size)),
            keep@ == head.take(j as int).filter(at_most(max_desired_file_size)),
        decreases first - j,
    {
        let file = sorted[j];
        proof {
            head.take(j as int).lemma_filter_push(file, larger_than(max_desired_file_size));
            head.take(j as int).lemma_filter_push(file, at_most(max_desired_file_size));
            assert(head.take(j + 1) =~= head.take(j as int).push(file));
        }
        if file.size_bytes > max_desired_file_size {
            further.push(file);
        } else {
            keep.push(file);
        }
        j += 1;
    }
    assert(head.take(first as int) =~= head);
    let mut m: usize = 0;
    while m < taken
        invariant
            n == sorted.len(),
            m <= taken <= n,
            compact@ == sorted@.take(m as int),
        decreases taken - m,
    {
        compact.push(sorted[m]);
        assert(sorted@.take(m + 1) =~= sorted@.take(m as int).push(sorted@[m as int]));
        m += 1;
    }
    let ghost kept_head = keep@;
    let start: usize = if taken == 0 {
        first
    } else {
        taken
    };
    let mut r: usize = start;
    assert(sorted@.subrange(start as int, start as int) =~= Seq::<ParquetFile>::empty());
    while r < n
        invariant
            n == sorted.len(),
            start <= r <= n,
            keep@ == kept_head + sorted@.subrange(start as int, r as int),
        decreases n - r,
    {
        keep.push(sorted[r]);
        assert(sorted@.subrange(start as int, r + 1) =~= sorted@.subrange(
            start as int,
            r as int,
        ).push(sorted@[r as int]));
        r += 1;
    }
    proof {
        assert(sorted@.subrange(start as int, n as int) =~= sorted@.skip(start as int));
        if taken == 0 {
            if n == 0 {
                assert(sorted@.take(0) =~= sorted@.take(next_boundary(sorted@, 0)));
            }
        } else {
            reveal(Seq::filter);
            assert(kept_head =~= Seq::<ParquetFile>::empty());
            assert(keep@ =~= sorted@.skip(taken as int));
        }
        lemma_limit_within_budget(files@, max_compact_size as int);
        lemma_limit_conserves(files@, max_compact_size as int, max_desired_file_size);
    }
    KeepAndCompactSplit {
        files_to_compact: compact,
        files_to_further_split: further,
        files_to_keep: keep,
    }
}

} // verus!

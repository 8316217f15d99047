//! The order in which the planner walks files, and a sort that establishes it.
//!
//! Files are ordered by `min_time` ascending; files that start at the same time are
//! ordered by level descending, then by `id` ascending, so that a higher-level file
//! always comes before the lower-level files that start together with it.

use vstd::prelude::*;
use crate::file::ParquetFile;

verus! {

/// `a` may stand before `b` in the walking order: `a` starts earlier, or both start
/// at the same time and `a` has the higher level, or the same level and no larger id.
pub open spec fn precedes(a: ParquetFile, b: ParquetFile) -> bool {
    ||| a.min_time < b.min_time
    ||| a.min_time == b.min_time && a.level.rank() > b.level.rank()
    ||| a.min_time == b.min_time && a.level.rank() == b.level.rank() && a.id <= b.id
}

/// Every file of the sequence may stand before all files after it.
pub open spec fn is_sorted(files: Seq<ParquetFile>) -> bool {
    forall|i: int, j: int| 0 <= i < j < files.len() ==> precedes(files[i], files[j])
}

/// `sorted` with `file` put behind the last file that may stand before it.
pub open spec fn insert_sorted(sorted: Seq<ParquetFile>, file: ParquetFile) -> Seq<ParquetFile>
    decreases sorted.len(),
{
    if sorted.len() == 0 || precedes(sorted.last(), file) {
        sorted.push(file)
    } else {
        insert_sorted(sorted.drop_last(), file).push(sorted.last())
    }
}

/// The files in walking order. Files that the order does not tell apart keep the
/// relative order that they have in `files`.
pub open spec fn sorted_files(files: Seq<ParquetFile>) -> Seq<ParquetFile>
    decreases files.len(),
{
    if files.len() == 0 {
        files
    } else {
        insert_sorted(sorted_files(files.drop_last()), files.last())
    }
}

/// The walking order compares any two files, in one direction or the other.
pub proof fn lemma_precedes_total(a: ParquetFile, b: ParquetFile)
    ensures
        precedes(a, b) || precedes(b, a),
        precedes(a, a),
{
}

/// The walking order is transitive.
pub proof fn lemma_precedes_transitive(a: ParquetFile, b: ParquetFile, c: ParquetFile)
    requires
        precedes(a, b),
        precedes(b, c),
    ensures
        precedes(a, c),
{
}

/// In a sorted sequence the start times never decrease.
pub proof fn lemma_sorted_min_times(files: Seq<ParquetFile>, i: int, j: int)
    requires
        is_sorted(files),
        0 <= i <= j < files.len(),
    ensures
        files[i].min_time <= files[j].min_time,
{
    if i < j {
        assert(precedes(files[i], files[j]));
    }
}

/// Where `insert_sorted` puts the new file: behind position `at - 1`, which is the
/// last file that may stand before it.
proof fn lemma_insert_position(sorted: Seq<ParquetFile>, file: ParquetFile, at: int)
    requires
        0 <= at <= sorted.len(),
        forall|j: int| at <= j < sorted.len() ==> !precedes(#[trigger] sorted[j], file),
        at > 0 ==> precedes(sorted[at - 1], file),
    ensures
        insert_sorted(sorted, file) == sorted.insert(at, file),
    decreases sorted.len() - at,
{
    if at == sorted.len() {
        assert(sorted.push(file) =~= sorted.insert(at, file));
    } else {
        assert(!precedes(sorted[sorted.len() - 1], file));
        let shorter = sorted.drop_last();
        lemma_insert_position(shorter, file, at);
        assert(shorter.insert(at, file).push(sorted.last()) =~= sorted.insert(at, file));
    }
}

/// A position that meets the conditions of `lemma_insert_position` always exists.
proof fn lemma_insert_position_exists(sorted: Seq<ParquetFile>, file: ParquetFile) -> (at: int)
    ensures
        0 <= at <= sorted.len(),
        forall|j: int| at <= j < sorted.len() ==> !precedes(#[trigger] sorted[j], file),
        at > 0 ==> precedes(sorted[at - 1], file),
    decreases sorted.len(),
{
    if sorted.len() == 0 || precedes(sorted.last(), file) {
        sorted.len() as int
    } else {
        let at = lemma_insert_position_exists(sorted.drop_last(), file);
        assert forall|j: int| at <= j < sorted.len() implies !precedes(
            #[trigger] sorted[j],
            file,
        ) by {
            if j < sorted.len() - 1 {
                assert(sorted.drop_last()[j] == sorted[j]);
            }
        }
        at
    }
}

/// Inserting one file adds exactly that file.
pub proof fn lemma_insert_sorted_adds_one(sorted: Seq<ParquetFile>, file: ParquetFile)
    ensures
        insert_sorted(sorted, file).to_multiset() == sorted.to_multiset().insert(file),
        insert_sorted(sorted, file).len() == sorted.len() + 1,
{
    let at = lemma_insert_position_exists(sorted, file);
    lemma_insert_position(sorted, file, at);
    vstd::seq_lib::to_multiset_insert(sorted, at, file);
}

/// Inserting into a sorted sequence leaves it sorted.
pub proof fn lemma_insert_sorted_keeps_order(sorted: Seq<ParquetFile>, file: ParquetFile)
    requires
        is_sorted(sorted),
    ensures
        is_sorted(insert_sorted(sorted, file)),
{
    let at = lemma_insert_position_exists(sorted, file);
    lemma_insert_position(sorted, file, at);
    let out = sorted.insert(at, file);
    assert forall|i: int, j: int| 0 <= i < j < out.len() implies precedes(out[i], out[j]) by {
        if j < at {
            assert(out[i] == sorted[i] && out[j] == sorted[j]);
        } else if j == at {
            assert(out[i] == sorted[i]);
            if i < at - 1 {
                lemma_precedes_transitive(sorted[i], sorted[at - 1], file);
            }
        } else if i == at {
            assert(out[j] == sorted[j - 1]);
            assert(!precedes(sorted[j - 1], file));
            lemma_precedes_total(file, sorted[j - 1]);
        } else if i < at {
            assert(out[i] == sorted[i] && out[j] == sorted[j - 1]);
        } else {
            assert(out[i] == sorted[i - 1] && out[j] == sorted[j - 1]);
        }
    }
}

/// Sorting rearranges the files: none is lost, none is added, and the result is in
/// walking order.
pub proof fn lemma_sorted_files_is_sorted_permutation(files: Seq<ParquetFile>)
    ensures
        is_sorted(sorted_files(files)),
        sorted_files(files).to_multiset() == files.to_multiset(),
        sorted_files(files).len() == files.len(),
    decreases files.len(),
{
    if files.len() > 0 {
        let init = files.drop_last();
        lemma_sorted_files_is_sorted_permutation(init);
        lemma_insert_sorted_keeps_order(sorted_files(init), files.last());
        lemma_insert_sorted_adds_one(sorted_files(init), files.last());
        assert(init.push(files.last()) =~= files);
        vstd::seq_lib::to_multiset_build(init, files.last());
    }
}

/// A file occurs in the sorted sequence exactly when it occurs in the input.
pub proof fn lemma_sorted_files_contains(files: Seq<ParquetFile>, file: ParquetFile)
    ensures
        sorted_files(files).contains(file) <==> files.contains(file),
{
    lemma_sorted_files_is_sorted_permutation(files);
    vstd::seq_lib::to_multiset_contains(files, file);
    vstd::seq_lib::to_multiset_contains(sorted_files(files), file);
}

/// Tells whether `a` may stand before `b` in the walking order.
pub fn file_precedes(a: &ParquetFile, b: &ParquetFile) -> (before: bool)
    ensures
        before == precedes(*a, *b),
{
    if a.min_time != b.min_time {
        a.min_time < b.min_time
    } else {
        let rank_a: u8 = a.level.as_rank();
        let rank_b: u8 = b.level.as_rank();
        if rank_a != rank_b {
            rank_a > rank_b
        } else {
            a.id <= b.id
        }
    }
}

/// Puts the files in walking order.
pub fn sort_files(files: &Vec<ParquetFile>) -> (out: Vec<ParquetFile>)
    ensures
        out@ == sorted_files(files@),
        is_sorted(out@),
        out@.to_multiset() == files@.to_multiset(),
        out@.len() == files@.len(),
{
    let mut out: Vec<ParquetFile> = Vec::new();
    let mut i: usize = 0;
    assert(files@.take(0) =~= Seq::<ParquetFile>::empty());
    while i < files.len()
        invariant
            i <= files.len(),
            out@ == sorted_files(files@.take(i as int)),
        decreases files.len() - i,
    {
        let file = files[i];
        let mut at: usize = out.len();
        proof {
            lemma_sorted_files_is_sorted_permutation(files@.take(i as int));
        }
        while at > 0 && !file_precedes(&out[at - 1], &file)
            invariant
                at <= out.len(),
                forall|j: int| at <= j < out.len() ==> !precedes(#[trigger] out@[j], file),
            decreases at,
        {
            at -= 1;
        }
        proof {
            lemma_insert_position(out@, file, at as int);
            assert(files@.take(i + 1).drop_last() =~= files@.take(i as int));
        }
        out.insert(at, file);
        i += 1;
    }
    proof {
        assert(files@.take(files.len() as int) =~= files@);
        lemma_sorted_files_is_sorted_permutation(files@);
    }
    out
}

} // verus!

//! Which columns a selection of column names picks, and how many rows a set of
//! batches holds.

use vstd::prelude::*;

verus! {

/// The names of the columns as sequences of characters.
pub open spec fn names(columns: Seq<String>) -> Seq<Seq<char>> {
    columns.map_values(|column: String| column@)
}

/// The position of the first column among the first `upto` that is called `name`.
pub open spec fn first_index_of(columns: Seq<Seq<char>>, name: Seq<char>, upto: int) -> Option<int>
    decreases upto,
{
    if upto <= 0 {
        None
    } else {
        match first_index_of(columns, name, upto - 1) {
            Some(i) => Some(i),
            None => if columns[upto - 1] == name {
                Some(upto - 1)
            } else {
                None
            },
        }
    }
}

/// The positions of the selected columns, in the order of the selection. A name that
/// no column has is passed over.
pub open spec fn projection(columns: Seq<Seq<char>>, selected: Seq<Seq<char>>) -> Seq<int>
    decreases selected.len(),
{
    if selected.len() == 0 {
        Seq::empty()
    } else {
        let before = projection(columns, selected.drop_last());
        match first_index_of(columns, selected.last(), columns.len() as int) {
            Some(i) => before.push(i),
            None => before,
        }
    }
}

/// The number of rows in all batches together.
pub open spec fn row_total(row_counts: Seq<usize>) -> int
    decreases row_counts.len(),
{
    if row_counts.len() == 0 {
        0
    } else {
        row_total(row_counts.drop_last()) + row_counts.last()
    }
}

/// What `first_index_of` finds is the first column of that name; where it finds
/// nothing, no column has the name.
pub proof fn lemma_first_index_of(columns: Seq<Seq<char>>, name: Seq<char>, upto: int)
    requires
        0 <= upto <= columns.len(),
    ensures
        match first_index_of(columns, name, upto) {
            Some(i) => 0 <= i < upto && columns[i] == name && forall|j: int|
                0 <= j < i ==> columns[j] != name,
            None => forall|j: int| 0 <= j < upto ==> columns[j] != name,
        },
    decreases upto,
{
    if upto > 0 {
        lemma_first_index_of(columns, name, upto - 1);
    }
}

/// Looks up the position of the first column called `name`.
pub fn index_of(columns: &Vec<String>, name: &String) -> (found: Option<usize>)
    ensures
        found matches Some(i) ==> first_index_of(names(columns@), name@, columns.len() as int)
            == Some(i as int),
        found is None ==> first_index_of(names(columns@), name@, columns.len() as int) is None,
{
    let mut i: usize = 0;
    while i < columns.len()
        invariant
            i <= columns.len(),
            first_index_of(names(columns@), name@, i as int) is None,
        decreases columns.len() - i,
    {
        if columns[i] == *name {
            assert(names(columns@)[i as int] == name@);
            proof {
                lemma_found_stays(names(columns@), name@, i + 1, columns.len() as int);
            }
            return Some(i);
        }
        assert(names(columns@)[i as int] != name@);
        i += 1;
    }
    None
}

/// Once a column of the name is found, looking further finds the same column.
proof fn lemma_found_stays(columns: Seq<Seq<char>>, name: Seq<char>, upto: int, later: int)
    requires
        first_index_of(columns, name, upto) is Some,
        upto <= later,
    ensures
        first_index_of(columns, name, later) == first_index_of(columns, name, upto),
    decreases later - upto,
{
    if upto < later {
        lemma_found_stays(columns, name, upto, later - 1);
    }
}

/// Computes the positions of the selected columns, in the order of the selection.
/// A name that no column has is passed over.
pub fn projection_indices(columns: &Vec<String>, selected: &Vec<String>) -> (indices: Vec<usize>)
    ensures
        indices@.map_values(|i: usize| i as int) == projection(names(columns@), names(selected@)),
        forall|k: int| 0 <= k < indices.len() ==> indices[k] < columns.len(),
{
    let mut indices: Vec<usize> = Vec::new();
    let mut j: usize = 0;
    let ghost as_int = |i: usize| i as int;
    proof {
        assert(names(selected@).take(0) =~= Seq::<Seq<char>>::empty());
        assert(indices@.map_values(as_int) =~= Seq::<int>::empty());
    }
    while j < selected.len()
        invariant
            j <= selected.len(),
            as_int == |i: usize| i as int,
            indices@.map_values(as_int) == projection(
                names(columns@),
                names(selected@).take(j as int),
            ),
            forall|k: int| 0 <= k < indices.len() ==> indices[k] < columns.len(),
        decreases selected.len() - j,
    {
        let ghost before = indices@;
        proof {
            assert(names(selected@).take(j + 1).drop_last() =~= names(selected@).take(j as int));
            assert(names(selected@).take(j + 1).last() == selected@[j as int]@);
            lemma_first_index_of(names(columns@), selected@[j as int]@, columns.len() as int);
        }
        match index_of(columns, &selected[j]) {
            Some(i) => {
                indices.push(i);
                assert(indices@.map_values(as_int) =~= before.map_values(as_int).push(i as int));
            },
            None => {},
        }
        j += 1;
    }
    assert(names(selected@).take(selected.len() as int) =~= names(selected@));
    indices
}

/// Adds up the rows of the batches, or returns `None` when the sum does not fit the
/// machine word.
pub fn total_rows(row_counts: &Vec<usize>) -> (total: Option<usize>)
    ensures
        total matches Some(sum) ==> sum == row_total(row_counts@),
        total is None <==> row_total(row_counts@) > usize::MAX,
{
    let mut sum: usize = 0;
    let mut i: usize = 0;
    assert(row_counts@.take(0) =~= Seq::<usize>::empty());
    while i < row_counts.len()
        invariant
            i <= row_counts.len(),
            sum == row_total(row_counts@.take(i as int)),
        decreases row_counts.len() - i,
    {
        proof {
            assert(row_counts@.take(i + 1).drop_last() =~= row_counts@.take(i as int));
            lemma_row_total_prefix(row_counts@, i + 1);
        }
        match sum.checked_add(row_counts[i]) {
            Some(next) => {
                sum = next;
            },
            None => {
                return None;
            },
        }
        i += 1;
    }
    assert(row_counts@.take(row_counts.len() as int) =~= row_counts@);
    Some(sum)
}

/// The rows of the first `n` batches are no more than the rows of all.
pub proof fn lemma_row_total_prefix(row_counts: Seq<usize>, n: int)
    requires
        0 <= n <= row_counts.len(),
    ensures
        0 <= row_total(row_counts.take(n)) <= row_total(row_counts),
    decreases row_counts.len() - n,
{
    if n == row_counts.len() {
        assert(row_counts.take(n) =~= row_counts);
        lemma_row_total_nonnegative(row_counts);
    } else {
        lemma_row_total_prefix(row_counts, n + 1);
        assert(row_counts.take(n + 1).drop_last() =~= row_counts.take(n));
        lemma_row_total_nonnegative(row_counts.take(n));
    }
}

/// A number of rows is never negative.
proof fn lemma_row_total_nonnegative(row_counts: Seq<usize>)
    ensures
        0 <= row_total(row_counts),
    decreases row_counts.len(),
{
    if row_counts.len() > 0 {
        lemma_row_total_nonnegative(row_counts.drop_last());
    }
}

} // verus!

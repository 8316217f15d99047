//! Record batches of the query engine: which of their columns a selection keeps, and
//! whether they hold any rows.
//!
//! A record batch is a value of the `arrow` crate. The library reads two things of
//! it, the names of its columns and the number of its rows, and asks `arrow` to build
//! the batch that holds a given choice of columns.

use std::sync::Arc;
use arrow::record_batch::RecordBatch;
use vstd::prelude::*;
use crate::projection::{names, projection, projection_indices};

verus! {

/// A record batch of `arrow`, shared as the query engine shares it.
///
/// The proofs do not look inside a batch. All that they know of one is what the
/// functions below that call into `arrow` say of `batch_columns` and `batch_rows`.
#[verifier::external_body]
pub struct Batch {
    /// The batch itself.
    pub inner: Arc<RecordBatch>,
}

/// The names of the columns of the batch, in the order of its schema: what
/// `RecordBatch::schema` lists.
pub uninterp spec fn batch_columns(batch: Batch) -> Seq<Seq<char>>;

/// The number of rows that each column of the batch holds: what
/// `RecordBatch::num_rows` returns.
pub uninterp spec fn batch_rows(batch: Batch) -> nat;

/// Which columns of a batch to keep.
#[derive(Debug, Clone)]
pub enum Selection {
    /// All columns.
    All,
    /// The columns with the given names, in the given order; names that the batch
    /// does not have are passed over.
    Names(Vec<String>),
}

/// The columns at the given positions, in the order of the positions.
pub open spec fn picked(columns: Seq<Seq<char>>, positions: Seq<int>) -> Seq<Seq<char>> {
    positions.map_values(|i: int| columns[i])
}

/// The columns that `selection` keeps of a batch with the given columns.
pub open spec fn kept_columns(columns: Seq<Seq<char>>, selection: Selection) -> Seq<Seq<char>> {
    match selection {
        Selection::All => columns,
        Selection::Names(selected) => picked(columns, projection(columns, names(selected@))),
    }
}

/// `projected` holds the rows of `batch` and the columns that `selection` keeps.
pub open spec fn is_projection_of(projected: Batch, batch: Batch, selection: Selection) -> bool {
    &&& batch_rows(projected) == batch_rows(batch)
    &&& batch_columns(projected) == kept_columns(batch_columns(batch), selection)
}

/// Calls `RecordBatch::schema` and reads the name of each field: the result holds
/// the names of the batch's columns in the order of the schema.
#[verifier::external_body]
fn column_names(batch: &Batch) -> (columns: Vec<String>)
    ensures
        names(columns@) == batch_columns(*batch),
{
    batch.inner.schema().fields().iter().map(|field| field.name().clone()).collect()
}

/// Calls `RecordBatch::num_rows`: the result is the number of rows of the batch.
#[verifier::external_body]
fn num_rows(batch: &Batch) -> (rows: usize)
    ensures
        rows == batch_rows(*batch),
{
    batch.inner.num_rows()
}

/// Calls `Arc::clone` on the shared batch: the copy is the same batch.
#[verifier::external_body]
fn share(batch: &Batch) -> (copy: Batch)
    ensures
        batch_columns(copy) == batch_columns(*batch),
        batch_rows(copy) == batch_rows(*batch),
{
    Batch { inner: Arc::clone(&batch.inner) }
}

/// Calls `RecordBatch::project`. Where it succeeds, every position is that of a
/// column, and the result has the columns at the given positions, in their order,
/// and the rows of the batch.
#[verifier::external_body]
fn project(batch: &Batch, positions: &Vec<usize>) -> (projected: Option<Batch>)
    ensures
        projected matches Some(p) ==> {
            &&& forall|k: int|
                0 <= k < positions.len() ==> positions[k] < batch_columns(*batch).len()
            &&& batch_columns(p) == picked(
                batch_columns(*batch),
                positions@.map_values(|i: usize| i as int),
            )
            &&& batch_rows(p) == batch_rows(*batch)
        },
{
    batch.inner.project(positions).ok().map(|p| Batch { inner: Arc::new(p) })
}

/// The number of rows of each batch, in order.
pub fn row_counts(data: &Vec<Batch>) -> (counts: Vec<usize>)
    ensures
        counts.len() == data.len(),
        forall|i: int| 0 <= i < data.len() ==> counts[i] == batch_rows(#[trigger] data[i]),
{
    let mut counts: Vec<usize> = Vec::new();
    let mut i: usize = 0;
    while i < data.len()
        invariant
            i <= data.len(),
            counts.len() == i,
            forall|j: int| 0 <= j < i ==> counts[j] == batch_rows(#[trigger] data[j]),
        decreases data.len() - i,
    {
        counts.push(num_rows(&data[i]));
        i += 1;
    }
    counts
}

/// Tells whether the batches hold at least one row.
pub fn batches_hold_rows(data: &Vec<Batch>) -> (some: bool)
    ensures
        some == exists|i: int| 0 <= i < data.len() && batch_rows(#[trigger] data[i]) > 0,
{
    let mut i: usize = 0;
    while i < data.len()
        invariant
            i <= data.len(),
            forall|j: int| 0 <= j < i ==> batch_rows(#[trigger] data[j]) == 0,
        decreases data.len() - i,
    {
        if num_rows(&data[i]) > 0 {
            return true;
        }
        i += 1;
    }
    false
}

/// Adds the batch that `arrow` handed back to the batches projected so far, or gives
/// up where `arrow` failed.
pub fn keep_projected(done: Vec<Batch>, projected: Option<Batch>) -> (out: Option<Vec<Batch>>)
    ensures
        projected is None <==> out is None,
        projected matches Some(p) ==> out matches Some(all) && all@ == done@.push(p),
{
    match projected {
        Some(p) => {
            let mut all = done;
            all.push(p);
            Some(all)
        },
        None => None,
    }
}

/// Projects every batch onto the selected columns.
///
/// With `Selection::All` the result holds every batch as it is. With a selection of
/// names, each batch is projected onto the columns of those names that it has, in
/// the order of the selection. The result is `None` where `arrow` refuses a
/// projection.
pub fn project_selection(data: &Vec<Batch>, selection: &Selection) -> (out: Option<Vec<Batch>>)
    ensures
        selection is All ==> out is Some,
        out matches Some(batches) ==> {
            &&& batches.len() == data.len()
            &&& forall|i: int|
                0 <= i < data.len() ==> is_projection_of(
                    #[trigger] batches[i],
                    data[i],
                    *selection,
                )
        },
{
    let mut batches: Vec<Batch> = Vec::new();
    let mut i: usize = 0;
    while i < data.len()
        invariant
            i <= data.len(),
            batches.len() == i,
            forall|j: int|
                0 <= j < i ==> is_projection_of(#[trigger] batches[j], data[j], *selection),
        decreases data.len() - i,
    {
        match selection {
            Selection::All => {
                batches.push(share(&data[i]));
            },
            Selection::Names(selected) => {
                let columns = column_names(&data[i]);
                let positions = projection_indices(&columns, selected);
                match keep_projected(batches, project(&data[i], &positions)) {
                    Some(all) => {
                        batches = all;
                    },
                    None => {
                        return None;
                    },
                }
            },
        }
        i += 1;
    }
    Some(batches)
}

} // verus!

use std::sync::Arc;

use arrow::array::{ArrayRef, Int64Array};
use arrow::datatypes::{DataType, Field, Schema};
use arrow::record_batch::RecordBatch;
use compaction_planner::projection::total_rows;
use compaction_planner::record_batches::{
    batches_hold_rows, keep_projected, project_selection, row_counts, Batch, Selection,
};

/// A batch with the given columns, each holding the numbers `0..rows`.
fn batch(columns: &[&str], rows: i64) -> Batch {
    let fields: Vec<Field> =
        columns.iter().map(|name| Field::new(*name, DataType::Int64, false)).collect();
    let arrays: Vec<ArrayRef> = columns
        .iter()
        .map(|_| Arc::new(Int64Array::from((0..rows).collect::<Vec<i64>>())) as ArrayRef)
        .collect();
    let inner = RecordBatch::try_new(Arc::new(Schema::new(fields)), arrays).unwrap();
    Batch { inner: Arc::new(inner) }
}

fn column_names(batch: &Batch) -> Vec<String> {
    batch.inner.schema().fields().iter().map(|f| f.name().clone()).collect()
}

fn names(names: &[&str]) -> Selection {
    Selection::Names(names.iter().map(|n| n.to_string()).collect())
}

#[test]
fn selection_of_names_keeps_the_known_columns_in_its_order() {
    let data = vec![batch(&["time", "tag", "value"], 3), batch(&["value", "time"], 2)];
    let out = project_selection(&data, &names(&["value", "nope", "time"])).unwrap();
    assert_eq!(out.len(), 2);
    assert_eq!(column_names(&out[0]), vec!["value", "time"]);
    assert_eq!(column_names(&out[1]), vec!["value", "time"]);
    assert_eq!(out[0].inner.num_rows(), 3);
    assert_eq!(out[1].inner.num_rows(), 2);
    // the input is left as it was
    assert_eq!(column_names(&data[0]), vec!["time", "tag", "value"]);
}

#[test]
fn selection_of_unknown_names_keeps_no_column_and_all_rows() {
    let data = vec![batch(&["time", "tag"], 4)];
    let out = project_selection(&data, &names(&["nope"])).unwrap();
    assert_eq!(out.len(), 1);
    assert_eq!(column_names(&out[0]), Vec::<String>::new());
    assert_eq!(out[0].inner.num_rows(), 4);
    let out = project_selection(&data, &names(&[])).unwrap();
    assert_eq!(column_names(&out[0]), Vec::<String>::new());
    assert_eq!(out[0].inner.num_rows(), 4);
}

#[test]
fn selection_may_name_a_column_twice() {
    let data = vec![batch(&["time", "tag"], 1)];
    let out = project_selection(&data, &names(&["tag", "time", "tag"])).unwrap();
    assert_eq!(column_names(&out[0]), vec!["tag", "time", "tag"]);
}

#[test]
fn selection_of_all_keeps_every_batch_as_it_is() {
    let data = vec![batch(&["time", "tag", "value"], 3), batch(&["value"], 0)];
    let out = project_selection(&data, &Selection::All).unwrap();
    assert_eq!(out.len(), 2);
    assert_eq!(*out[0].inner, *data[0].inner);
    assert_eq!(*out[1].inner, *data[1].inner);
    assert!(project_selection(&vec![], &Selection::All).unwrap().is_empty());
    assert!(project_selection(&vec![], &names(&["time"])).unwrap().is_empty());
}

#[test]
fn failed_projection_gives_up() {
    let done = vec![batch(&["time"], 1)];
    assert!(keep_projected(done, None).is_none());
    let done = vec![batch(&["time"], 1)];
    let all = keep_projected(done, Some(batch(&["tag"], 2))).unwrap();
    assert_eq!(all.len(), 2);
    assert_eq!(column_names(&all[0]), vec!["time"]);
    assert_eq!(column_names(&all[1]), vec!["tag"]);
}

#[test]
fn rows_are_counted_for_each_batch() {
    let data = vec![batch(&["time"], 3), batch(&["time"], 0), batch(&["time", "tag"], 4)];
    assert_eq!(row_counts(&data), vec![3, 0, 4]);
    assert_eq!(total_rows(&row_counts(&data)), Some(7));
    assert_eq!(row_counts(&vec![]), Vec::<usize>::new());
}

#[test]
fn batches_hold_rows_when_one_of_them_does() {
    assert!(!batches_hold_rows(&vec![]));
    assert!(!batches_hold_rows(&vec![batch(&["time"], 0), batch(&["tag"], 0)]));
    assert!(batches_hold_rows(&vec![batch(&["time"], 0), batch(&["tag"], 1)]));
    assert!(batches_hold_rows(&vec![batch(&["time"], 5)]));
}

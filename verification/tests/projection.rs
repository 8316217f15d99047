use compaction_planner::projection::{index_of, projection_indices, total_rows};

fn strings(names: &[&str]) -> Vec<String> {
    names.iter().map(|n| n.to_string()).collect()
}

#[test]
fn index_is_that_of_the_first_column_of_the_name() {
    let columns = strings(&["time", "tag", "value", "tag"]);
    assert_eq!(index_of(&columns, &"time".to_string()), Some(0));
    assert_eq!(index_of(&columns, &"tag".to_string()), Some(1));
    assert_eq!(index_of(&columns, &"value".to_string()), Some(2));
    assert_eq!(index_of(&columns, &"Tag".to_string()), None);
    assert_eq!(index_of(&columns, &"".to_string()), None);
    assert_eq!(index_of(&vec![], &"time".to_string()), None);
}

#[test]
fn projection_follows_the_selection_and_passes_over_unknown_names() {
    let columns = strings(&["time", "tag", "value"]);
    assert_eq!(projection_indices(&columns, &strings(&["value", "time"])), vec![2, 0]);
    assert_eq!(projection_indices(&columns, &strings(&["value", "nope", "tag"])), vec![2, 1]);
    assert_eq!(projection_indices(&columns, &strings(&["tag", "tag"])), vec![1, 1]);
    assert_eq!(projection_indices(&columns, &strings(&["nope"])), Vec::<usize>::new());
    assert_eq!(projection_indices(&columns, &vec![]), Vec::<usize>::new());
    assert_eq!(projection_indices(&vec![], &strings(&["time"])), Vec::<usize>::new());
}

#[test]
fn rows_are_added_up() {
    assert_eq!(total_rows(&vec![]), Some(0));
    assert_eq!(total_rows(&vec![3, 0, 4]), Some(7));
    assert_eq!(total_rows(&vec![usize::MAX - 1, 1]), Some(usize::MAX));
    assert_eq!(total_rows(&vec![usize::MAX, 1]), None);
}

use compaction_planner::file::ParquetFile;
use compaction_planner::file_classification::{FileToSplit, FilesToCompactOrSplit};
use compaction_planner::files_to_compact::limit_files_to_compact;
use compaction_planner::large_files_to_split::{
    compute_split_times, compute_split_times_for_large_files, count_pieces,
    file_exceeds_soft_limit, PERCENTAGE_OF_SOFT_EXCEEDED,
};
use compaction_planner::level::CompactionLevel;
use compaction_planner::order::{file_precedes, sort_files};
use compaction_planner::split_compact::{are_well_formed, checked_total_size};
use compaction_planner::start_level_files_to_split::{
    count_overlaps, identify_start_level_files_to_split, split_midpoint,
};
use compaction_planner::PlanError;

fn l0(id: i64, min_time: i64, max_time: i64, size: u64) -> ParquetFile {
    ParquetFile::new(id, CompactionLevel::Initial, min_time, max_time, size, 1)
}

fn l1(id: i64, min_time: i64, max_time: i64, size: u64) -> ParquetFile {
    ParquetFile::new(id, CompactionLevel::FileNonOverlapped, min_time, max_time, size, 1)
}

fn l2(id: i64, min_time: i64, max_time: i64, size: u64) -> ParquetFile {
    ParquetFile::new(id, CompactionLevel::Final, min_time, max_time, size, 1)
}

#[test]
fn levels_are_ordered_and_step_down_by_one() {
    assert_eq!(CompactionLevel::Initial.as_rank(), 0);
    assert_eq!(CompactionLevel::FileNonOverlapped.as_rank(), 1);
    assert_eq!(CompactionLevel::Final.as_rank(), 2);
    assert_eq!(CompactionLevel::Initial.prev(), CompactionLevel::Initial);
    assert_eq!(CompactionLevel::FileNonOverlapped.prev(), CompactionLevel::Initial);
    assert_eq!(CompactionLevel::Final.prev(), CompactionLevel::FileNonOverlapped);
}

#[test]
fn file_keeps_what_it_was_built_from() {
    let f = ParquetFile::new(7, CompactionLevel::Final, -5, 9, 123, 45);
    assert_eq!(
        f,
        ParquetFile {
            id: 7,
            level: CompactionLevel::Final,
            min_time: -5,
            max_time: 9,
            size_bytes: 123,
            row_count: 45
        }
    );
}

#[test]
fn overlap_is_inclusive_at_both_ends() {
    let a = l0(1, 0, 10, 1);
    assert!(a.overlaps(&l0(2, 10, 20, 1)));
    assert!(l0(2, 10, 20, 1).overlaps(&a));
    assert!(!a.overlaps(&l0(3, 11, 20, 1)));
    assert!(a.overlaps(&l0(4, 3, 4, 1)));
    assert!(a.overlaps(&l0(5, -5, 0, 1)));
    assert!(!a.overlaps(&l0(6, -5, -1, 1)));
}

#[test]
fn well_formed_means_ordered_range_and_some_bytes() {
    assert!(l0(1, 0, 0, 1).is_well_formed());
    assert!(!l0(1, 1, 0, 1).is_well_formed());
    assert!(!l0(1, 0, 1, 0).is_well_formed());
    assert!(are_well_formed(&vec![]));
    assert!(are_well_formed(&vec![l0(1, 0, 1, 1), l0(2, 0, 1, 1)]));
    assert!(!are_well_formed(&vec![l0(1, 0, 1, 1), l0(2, 2, 1, 1)]));
}

#[test]
fn total_size_is_checked() {
    assert_eq!(checked_total_size(&vec![]), Some(0));
    assert_eq!(checked_total_size(&vec![l0(1, 0, 1, 5), l0(2, 0, 1, 7)]), Some(12));
    assert_eq!(
        checked_total_size(&vec![l0(1, 0, 1, u64::MAX - 7), l0(2, 0, 1, 7)]),
        Some(u64::MAX)
    );
    assert_eq!(checked_total_size(&vec![l0(1, 0, 1, u64::MAX - 7), l0(2, 0, 1, 8)]), None);
}

#[test]
fn walking_order_is_start_time_then_level_descending_then_id() {
    assert!(file_precedes(&l0(9, 0, 5, 1), &l2(1, 1, 5, 1)));
    assert!(!file_precedes(&l2(1, 1, 5, 1), &l0(9, 0, 5, 1)));
    // same start: the higher level comes first
    assert!(file_precedes(&l2(9, 0, 5, 1), &l1(1, 0, 5, 1)));
    assert!(!file_precedes(&l1(1, 0, 5, 1), &l2(9, 0, 5, 1)));
    // same start and level: the smaller id comes first
    assert!(file_precedes(&l1(1, 0, 5, 1), &l1(2, 0, 5, 1)));
    assert!(!file_precedes(&l1(2, 0, 5, 1), &l1(1, 0, 5, 1)));
    assert!(file_precedes(&l1(1, 0, 5, 1), &l1(1, 0, 9, 1)));
}

#[test]
fn sort_puts_files_in_walking_order() {
    let files = vec![
        l0(5, 10, 20, 1),
        l1(4, 10, 20, 1),
        l0(3, 10, 20, 1),
        l2(2, 10, 20, 1),
        l0(1, -3, 0, 1),
        l0(6, i64::MIN, 0, 1),
    ];
    assert_eq!(
        sort_files(&files),
        vec![
            l0(6, i64::MIN, 0, 1),
            l0(1, -3, 0, 1),
            l2(2, 10, 20, 1),
            l1(4, 10, 20, 1),
            l0(3, 10, 20, 1),
            l0(5, 10, 20, 1),
        ]
    );
    assert_eq!(sort_files(&vec![]), vec![]);
}

#[test]
fn sort_keeps_the_order_of_files_it_cannot_tell_apart() {
    let a = ParquetFile::new(1, CompactionLevel::Initial, 0, 10, 1, 1);
    let b = ParquetFile::new(1, CompactionLevel::Initial, 0, 20, 2, 2);
    assert_eq!(sort_files(&vec![a, b]), vec![a, b]);
    assert_eq!(sort_files(&vec![b, a]), vec![b, a]);
}

#[test]
fn midpoint_rounds_toward_zero() {
    assert_eq!(split_midpoint(&l0(1, 450, 620, 1)), 535);
    assert_eq!(split_midpoint(&l0(1, 0, 5, 1)), 2);
    assert_eq!(split_midpoint(&l0(1, -5, 0, 1)), -3);
    assert_eq!(split_midpoint(&l0(1, 7, 7, 1)), 7);
    assert_eq!(split_midpoint(&l0(1, 7, 8, 1)), 7);
    assert_eq!(split_midpoint(&l0(1, i64::MIN, i64::MAX, 1)), -1);
    assert_eq!(split_midpoint(&l0(1, 10, 5, 1)), 8);
}

#[test]
fn overlaps_are_counted() {
    let targets = vec![l1(12, 400, 500, 1), l1(13, 600, 700, 1), l1(14, 800, 900, 1)];
    assert_eq!(count_overlaps(&l0(1, 450, 620, 1), &targets), 2);
    assert_eq!(count_overlaps(&l0(1, 500, 600, 1), &targets), 2);
    assert_eq!(count_overlaps(&l0(1, 501, 599, 1), &targets), 0);
    assert_eq!(count_overlaps(&l0(1, 0, 1000, 1), &targets), 3);
    assert_eq!(count_overlaps(&l0(1, 0, 1000, 1), &vec![]), 0);
}

#[test]
fn analyzer_splits_only_files_that_straddle_two_targets() {
    let files = vec![
        l1(13, 600, 700, 100),
        l0(4, 0, 50, 100),
        l1(12, 400, 500, 100),
        l0(2, 650, 750, 100),
        l0(1, 450, 620, 100),
        l0(3, 300, 800, 100),
    ];
    let (to_split, rest) =
        identify_start_level_files_to_split(files, CompactionLevel::FileNonOverlapped);
    let jobs: Vec<(i64, Vec<i64>)> =
        to_split.iter().map(|j| (j.file.id, j.split_times.clone())).collect();
    assert_eq!(jobs, vec![(1, vec![535]), (3, vec![550])]);
    assert_eq!(
        rest,
        vec![l0(4, 0, 50, 100), l0(2, 650, 750, 100), l1(12, 400, 500, 100), l1(13, 600, 700, 100)]
    );
}

#[test]
fn analyzer_finds_nothing_without_target_files() {
    let files = vec![l0(2, 650, 750, 100), l0(1, 450, 620, 100)];
    let (to_split, rest) =
        identify_start_level_files_to_split(files.clone(), CompactionLevel::FileNonOverlapped);
    assert!(to_split.is_empty());
    assert_eq!(rest, files);
    let (to_split, rest) =
        identify_start_level_files_to_split(vec![], CompactionLevel::Final);
    assert!(to_split.is_empty());
    assert!(rest.is_empty());
}

#[test]
fn analyzer_reads_from_the_level_below_the_target() {
    // With target Final the start level is level 1: level-0 files count as targets.
    let files = vec![l1(1, 0, 100, 1), l2(2, 0, 10, 1), l2(3, 90, 100, 1), l0(4, 0, 100, 1)];
    let (to_split, rest) = identify_start_level_files_to_split(files, CompactionLevel::Final);
    let split: Vec<i64> = to_split.iter().map(|j| j.file.id).collect();
    assert_eq!(split, vec![1]);
    assert_eq!(to_split[0].split_times, vec![50]);
    assert_eq!(rest, vec![l2(2, 0, 10, 1), l0(4, 0, 100, 1), l2(3, 90, 100, 1)]);
}

#[test]
fn limiter_takes_groups_from_the_front() {
    let files = vec![
        l1(13, 600, 700, 100),
        l1(12, 400, 500, 100),
        l1(11, 250, 350, 100),
        l2(22, 200, 300, 100),
    ];
    let out = limit_files_to_compact(300, 100, files.clone());
    assert_eq!(
        out.files_to_compact(),
        vec![l2(22, 200, 300, 100), l1(11, 250, 350, 100), l1(12, 400, 500, 100)]
    );
    assert!(out.files_to_further_split().is_empty());
    assert_eq!(out.files_to_keep(), vec![l1(13, 600, 700, 100)]);

    let out = limit_files_to_compact(299, 100, files.clone());
    assert_eq!(out.files_to_compact(), vec![l2(22, 200, 300, 100), l1(11, 250, 350, 100)]);
    assert!(out.files_to_further_split().is_empty());
    assert_eq!(out.files_to_keep(), vec![l1(12, 400, 500, 100), l1(13, 600, 700, 100)]);

    let out = limit_files_to_compact(400, 100, files);
    assert_eq!(out.files_to_compact().len(), 4);
    assert!(out.files_to_keep().is_empty());
}

#[test]
fn limiter_hands_back_the_large_files_of_a_first_group_that_does_not_fit() {
    let files = vec![
        l1(13, 600, 700, 100),
        l1(12, 400, 500, 100),
        l1(11, 250, 350, 100),
        l2(22, 200, 300, 50),
    ];
    let out = limit_files_to_compact(149, 60, files);
    assert!(out.files_to_compact().is_empty());
    assert_eq!(out.files_to_further_split(), vec![l1(11, 250, 350, 100)]);
    assert_eq!(
        out.files_to_keep(),
        vec![l2(22, 200, 300, 50), l1(12, 400, 500, 100), l1(13, 600, 700, 100)]
    );
}

#[test]
fn limiter_routes_a_lone_file_over_the_budget_to_further_split() {
    let out = limit_files_to_compact(99, 10, vec![l0(1, 0, 10, 100)]);
    assert!(out.files_to_compact().is_empty());
    assert_eq!(out.files_to_further_split(), vec![l0(1, 0, 10, 100)]);
    assert!(out.files_to_keep().is_empty());
}

#[test]
fn limiter_of_nothing_is_empty() {
    let out = limit_files_to_compact(0, 0, vec![]);
    assert!(out.files_to_compact().is_empty());
    assert!(out.files_to_further_split().is_empty());
    assert!(out.files_to_keep().is_empty());
}

#[test]
fn soft_limit_is_a_strict_bound() {
    assert_eq!(PERCENTAGE_OF_SOFT_EXCEEDED, 10);
    assert!(!file_exceeds_soft_limit(&l0(1, 0, 1, 110), 100, 10));
    assert!(file_exceeds_soft_limit(&l0(1, 0, 1, 111), 100, 10));
    assert!(!file_exceeds_soft_limit(&l0(1, 0, 1, 52), 35, 50));
    assert!(file_exceeds_soft_limit(&l0(1, 0, 1, 53), 35, 50));
    assert!(!file_exceeds_soft_limit(&l0(1, 0, 1, 100), 100, 0));
    assert!(file_exceeds_soft_limit(&l0(1, 0, 1, 101), 100, 0));
    assert!(!file_exceeds_soft_limit(&l0(1, 0, 1, u64::MAX), u64::MAX, u32::MAX));
}

#[test]
fn pieces_are_counted_by_rounding_up() {
    assert_eq!(count_pieces(100, 60, 180), 2);
    assert_eq!(count_pieces(100, 35, 105), 3);
    assert_eq!(count_pieces(100, 50, 100), 2);
    assert_eq!(count_pieces(101, 50, 100), 3);
    assert_eq!(count_pieces(1000, 250, 500), 4);
    assert_eq!(count_pieces(0, 10, 20), 0);
    assert_eq!(count_pieces(u64::MAX, 1, 2), u64::MAX);
}

#[test]
fn split_times_are_evenly_spaced() {
    assert_eq!(compute_split_times(&l0(1, 250, 350, 100), 2), vec![300]);
    assert_eq!(compute_split_times(&l0(1, 250, 350, 100), 3), vec![283, 316]);
    assert_eq!(compute_split_times(&l0(1, 0, 100, 100), 4), vec![25, 50, 75]);
    assert_eq!(compute_split_times(&l0(1, -100, 0, 100), 4), vec![-75, -50, -25]);
    assert_eq!(compute_split_times(&l0(1, 0, 100, 100), 1), Vec::<i64>::new());
    assert_eq!(compute_split_times(&l0(1, 0, 100, 100), 0), Vec::<i64>::new());
}

#[test]
fn narrow_range_gets_as_many_split_times_as_fit() {
    // three wide, five pieces: the cut points 0, 1, 1, 2 leave 1 and 2
    assert_eq!(compute_split_times(&l0(1, 0, 3, 100), 5), vec![1, 2]);
    assert_eq!(compute_split_times(&l0(1, 0, 2, 100), 7), vec![1]);
    assert_eq!(compute_split_times(&l0(1, 0, 1, 100), 7), Vec::<i64>::new());
    assert_eq!(
        compute_split_times(&l0(1, i64::MIN, i64::MAX, 100), 2),
        vec![-1]
    );
}

#[test]
fn range_without_room_gets_no_split_times() {
    assert_eq!(compute_split_times(&l0(1, 5, 5, 100), 3), Vec::<i64>::new());
    assert_eq!(compute_split_times(&l0(1, 9, 5, 100), 3), Vec::<i64>::new());
    assert_eq!(compute_split_times(&l0(1, i64::MAX, i64::MIN, 100), 2), Vec::<i64>::new());
}

#[test]
fn splitter_sorts_files_by_size_and_range() {
    let files = vec![
        l1(11, 250, 350, 100),
        l1(12, 400, 500, 66),
        l2(22, 200, 300, 100),
        l1(13, 600, 600, 500),
        l1(14, 700, 701, 500),
    ];
    let (to_split, rest) =
        compute_split_times_for_large_files(files, 60, 180, PERCENTAGE_OF_SOFT_EXCEEDED).unwrap();
    let jobs: Vec<(i64, Vec<i64>)> =
        to_split.iter().map(|j| (j.file.id, j.split_times.clone())).collect();
    assert_eq!(jobs, vec![(11, vec![300]), (22, vec![250]), (14, vec![])]);
    assert_eq!(rest, vec![l1(12, 400, 500, 66), l1(13, 600, 600, 500)]);
}

#[test]
fn splitter_rejects_a_budget_below_twice_the_desired_size() {
    let out = compute_split_times_for_large_files(vec![], 100, 199, 10);
    assert_eq!(
        out.err(),
        Some(PlanError::ConfigInvalid { max_compact_size: 199, max_desired_file_size: 100 })
    );
    assert!(compute_split_times_for_large_files(vec![], 100, 200, 10).is_ok());
    let out = compute_split_times_for_large_files(vec![l0(1, 0, 9, 9)], 0, 200, 10);
    assert_eq!(
        out.err(),
        Some(PlanError::ConfigInvalid { max_compact_size: 200, max_desired_file_size: 0 })
    );
}

#[test]
fn accessors_of_the_other_shape_are_empty() {
    let compact = FilesToCompactOrSplit::FilesToCompact(vec![l0(1, 0, 1, 1), l0(2, 0, 1, 1)]);
    assert_eq!(compact.files_to_compact(), vec![l0(1, 0, 1, 1), l0(2, 0, 1, 1)]);
    assert_eq!(compact.files_to_compact_len(), 2);
    assert!(compact.files_to_split().is_empty());
    assert!(compact.split_times().is_empty());
    assert_eq!(compact.files_to_split_len(), 0);
    assert!(!compact.is_empty());

    let split = FilesToCompactOrSplit::FilesToSplit(vec![
        FileToSplit::new(l0(1, 0, 10, 1), vec![3, 6]),
        FileToSplit::new(l0(2, 0, 10, 1), vec![5]),
    ]);
    assert!(split.files_to_compact().is_empty());
    assert_eq!(split.files_to_compact_len(), 0);
    assert_eq!(split.files_to_split(), vec![l0(1, 0, 10, 1), l0(2, 0, 10, 1)]);
    assert_eq!(split.split_times(), vec![vec![3, 6], vec![5]]);
    assert_eq!(split.files_to_split_len(), 2);
    assert!(!split.is_empty());

    assert!(FilesToCompactOrSplit::FilesToCompact(vec![]).is_empty());
    assert!(FilesToCompactOrSplit::FilesToSplit(vec![]).is_empty());
}

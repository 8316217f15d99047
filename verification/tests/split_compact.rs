use compaction_planner::large_files_to_split::PERCENTAGE_OF_SOFT_EXCEEDED;
use compaction_planner::{
    CompactionLevel, FilesToCompactOrSplit, ParquetFile, PartitionInfo, PlanError, SplitCompact,
};

const FILE_SIZE: usize = 100;

fn file(id: i64, level: CompactionLevel, min_time: i64, max_time: i64, size: u64) -> ParquetFile {
    ParquetFile::new(id, level, min_time, max_time, size, 1)
}

/// Three level-0 files and two level-1 files; L0.1 overlaps both level-1 files.
///
/// ```text
/// L0.2[650,750]                          |---L0.2---|
/// L0.1[450,620]        |-----L0.1------|
/// L0.3[800,900]                                        |---L0.3---|
/// L1.13[600,700]                     |--L1.13--|
/// L1.12[400,500]    |--L1.12--|
/// ```
fn create_overlapped_l0_l1_files_2(size: u64) -> Vec<ParquetFile> {
    let l1_1 = file(13, CompactionLevel::FileNonOverlapped, 600, 700, size);
    let l1_2 = file(12, CompactionLevel::FileNonOverlapped, 400, 500, size);
    let l0_1 = file(2, CompactionLevel::Initial, 650, 750, size);
    let l0_2 = file(1, CompactionLevel::Initial, 450, 620, size);
    let l0_3 = file(3, CompactionLevel::Initial, 800, 900, size);
    vec![l1_1, l1_2, l0_1, l0_2, l0_3]
}

/// Three level-1 files and one level-2 file; L1.11 overlaps the level-2 file.
///
/// ```text
/// L1.13[600,700]                              |--L1.13--|
/// L1.12[400,500]                |--L1.12--|
/// L1.11[250,350]      |--L1.11--|
/// L2.22[200,300]   |--L2.22--|
/// ```
fn create_overlapped_l1_l2_files_2(size: u64) -> Vec<ParquetFile> {
    let l2_1 = file(22, CompactionLevel::Final, 200, 300, size);
    let l1_1 = file(13, CompactionLevel::FileNonOverlapped, 600, 700, size);
    let l1_2 = file(12, CompactionLevel::FileNonOverlapped, 400, 500, size);
    let l1_3 = file(11, CompactionLevel::FileNonOverlapped, 250, 350, size);
    vec![l1_1, l1_2, l1_3, l2_1]
}

fn ids(files: &[ParquetFile]) -> Vec<i64> {
    files.iter().map(|f| f.id).collect()
}

fn sorted_ids(files: &[ParquetFile]) -> Vec<i64> {
    let mut out = ids(files);
    out.sort();
    out
}

fn unwrap_plan(
    out: Result<(FilesToCompactOrSplit, Vec<ParquetFile>), PlanError>,
) -> (FilesToCompactOrSplit, Vec<ParquetFile>) {
    match out {
        Ok(plan) => plan,
        Err(e) => panic!("{}", e.message()),
    }
}

#[test]
fn test_empty() {
    let files = vec![];
    let p_info = PartitionInfo::new(1);
    let split_compact = SplitCompact::new(FILE_SIZE, FILE_SIZE as u64);
    let (files_to_compact_or_split, files_to_keep) =
        unwrap_plan(split_compact.apply(&p_info, files, CompactionLevel::Initial));

    assert!(files_to_compact_or_split.is_empty());
    assert!(files_to_keep.is_empty());
}

#[test]
#[should_panic(
    expected = "max_compact_size 100 must be at least 2 times larger than max_desired_file_size 100"
)]
fn test_compact_invalid_max_compact_size() {
    let files = create_overlapped_l1_l2_files_2(FILE_SIZE as u64);
    assert_eq!(ids(&files), vec![13, 12, 11, 22]);

    let p_info = PartitionInfo::new(1);
    let split_compact = SplitCompact::new(FILE_SIZE, FILE_SIZE as u64);
    let (_files_to_compact_or_split, _files_to_keep) =
        unwrap_plan(split_compact.apply(&p_info, files, CompactionLevel::Final));
}

#[test]
fn test_compact_too_large_to_compact() {
    let files = create_overlapped_l1_l2_files_2(FILE_SIZE as u64);
    assert_eq!(ids(&files), vec![13, 12, 11, 22]);

    let p_info = PartitionInfo::new(1);
    let max_desired_file_size = FILE_SIZE
        - (FILE_SIZE as f64 * (PERCENTAGE_OF_SOFT_EXCEEDED as f64 / 100.0)) as usize
        - 30;
    let max_compact_size = 3 * max_desired_file_size;
    let split_compact = SplitCompact::new(max_compact_size, max_desired_file_size as u64);
    let (files_to_compact_or_split, files_to_keep) =
        unwrap_plan(split_compact.apply(&p_info, files, CompactionLevel::Final));

    // need to split files
    let files_to_compact = files_to_compact_or_split.files_to_compact();
    let files_to_split = files_to_compact_or_split.files_to_split();
    let split_times = files_to_compact_or_split.split_times();
    assert!(files_to_compact.is_empty());
    assert_eq!(files_to_split.len(), 2);
    assert_eq!(files_to_keep.len(), 2);
    // both L1.11 and L2.22 are just a bit larger than max_desired_file_size
    // so they are split into 2 files each. This means the split_times of each includes
    // one time where it is split into 2 files
    for times in split_times {
        assert_eq!(times.len(), 1);
    }

    // files to split: L1.11 and L2.22; files to keep: L1.12 and L1.13
    assert_eq!(sorted_ids(&files_to_compact_or_split.files_to_split()), vec![11, 22]);
    assert_eq!(sorted_ids(&files_to_keep), vec![12, 13]);
    for f in files_to_compact_or_split.files_to_split() {
        assert_eq!(f.size_bytes, 100);
    }
}

#[test]
fn test_compact_files_no_limit() {
    let files = create_overlapped_l0_l1_files_2(FILE_SIZE as u64);
    assert_eq!(ids(&files), vec![13, 12, 2, 1, 3]);

    // size limit > total size --> compact all
    let p_info = PartitionInfo::new(1);
    let split_compact = SplitCompact::new(FILE_SIZE * 6 + 1, FILE_SIZE as u64);
    let (files_to_compact_or_split, files_to_keep) =
        unwrap_plan(split_compact.apply(&p_info, files, CompactionLevel::FileNonOverlapped));

    assert_eq!(files_to_compact_or_split.files_to_compact_len(), 5);
    assert!(files_to_keep.is_empty());

    // files to compact: all five; files to keep: none
    assert_eq!(
        sorted_ids(&files_to_compact_or_split.files_to_compact()),
        vec![1, 2, 3, 12, 13]
    );
    assert_eq!(ids(&files_to_keep), Vec::<i64>::new());
}

#[test]
fn test_split_files() {
    let files = create_overlapped_l0_l1_files_2(FILE_SIZE as u64);
    assert_eq!(ids(&files), vec![13, 12, 2, 1, 3]);

    // hit size limit -> split start_level files that overlap with more than 1 target_level files
    let p_info = PartitionInfo::new(1);
    let split_compact = SplitCompact::new(FILE_SIZE, FILE_SIZE as u64);
    let (files_to_compact_or_split, files_to_keep) =
        unwrap_plan(split_compact.apply(&p_info, files, CompactionLevel::FileNonOverlapped));

    assert_eq!(files_to_compact_or_split.files_to_split_len(), 1);
    assert_eq!(files_to_keep.len(), 4);

    // files to split: L0.1; files to keep: L0.2, L0.3, L1.12, L1.13
    let to_split = files_to_compact_or_split.files_to_split();
    assert_eq!(ids(&to_split), vec![1]);
    assert_eq!((to_split[0].min_time, to_split[0].max_time), (450, 620));
    assert_eq!(ids(&files_to_keep), vec![2, 3, 12, 13]);
}

#[test]
fn test_compact_files() {
    let files = create_overlapped_l1_l2_files_2(FILE_SIZE as u64);
    assert_eq!(ids(&files), vec![13, 12, 11, 22]);

    // hit size limit and nothing to split --> limit number of files to compact
    let p_info = PartitionInfo::new(1);
    let split_compact = SplitCompact::new(FILE_SIZE * 3, FILE_SIZE as u64);
    let (files_to_compact_or_split, files_to_keep) =
        unwrap_plan(split_compact.apply(&p_info, files, CompactionLevel::Final));

    assert_eq!(files_to_compact_or_split.files_to_compact_len(), 3);
    assert_eq!(files_to_keep.len(), 1);

    // files to compact: L1.11, L1.12 and L2.22; files to keep: L1.13
    assert_eq!(
        sorted_ids(&files_to_compact_or_split.files_to_compact()),
        vec![11, 12, 22]
    );
    assert_eq!(ids(&files_to_keep), vec![13]);
}

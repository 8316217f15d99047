//! A planner for tiered, time-partitioned file compaction, and the small decisions of
//! the services around it.
//!
//! Given the files of one partition and a target compaction level, the planner
//! ([`SplitCompact`]) decides whether the files can be merged in one bounded run, or
//! whether some of them must first be split along their time range. It is made of
//! three parts that can be used on their own: the overlap analyzer
//! ([`start_level_files_to_split`]), the budget limiter ([`files_to_compact`]) and the
//! large-file splitter ([`large_files_to_split`]).
//!
//! Every function carries a contract that Verus proves. The laws of the planner, such
//! as that no file is ever dropped or duplicated, are public proof functions in
//! [`split_compact`]. The only code that is believed rather than proved are the calls
//! into `arrow` in [`record_batches`].

pub mod error;
pub mod file;
pub mod file_classification;
pub mod files_to_compact;
pub mod http_error;
pub mod large_files_to_split;
pub mod level;
pub mod order;
pub mod partition_info;
pub mod projection;
pub mod record_batches;
pub mod register;
pub mod split_compact;
pub mod start_level_files_to_split;
pub mod text;

pub use error::PlanError;
pub use file::ParquetFile;
pub use file_classification::{FileToSplit, FilesToCompactOrSplit};
pub use http_error::IoxHttpError;
pub use level::CompactionLevel;
pub use partition_info::PartitionInfo;
pub use register::{NodeInfo, NODE_ID_PREFIX};
pub use split_compact::SplitCompact;

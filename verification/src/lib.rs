//! Aggregate statistics for a directory subtree: file count, total byte
//! size, total line count, the directory whose directly-contained files sum
//! to the most bytes, and the file with the most lines.
//!
//! The crate holds the logic of the scan — the classifier that decides which
//! files get their lines counted, the streaming line counter, the
//! single-consumer aggregator that folds worker records into a summary, the
//! argument parser, and the report layout. Walking the tree, reading files
//! and printing live in the binary around it, which feeds plain values in
//! and takes plain values out.

use vstd::prelude::*;

pub mod aggregate;
pub mod args;
pub mod chars;
pub mod classify;
pub mod lines;
pub mod report;
pub mod textutil;

pub use aggregate::Aggregator;
pub use aggregate::FileRecord;
pub use aggregate::FileStat;
pub use aggregate::Summary;
pub use aggregate::summarize_records;
pub use args::parse_args;
pub use args::parse_u64;
pub use args::usage;
pub use classify::Config;
pub use classify::DEFAULT_MAX_LINE_BYTES;
pub use classify::should_count_lines;
pub use lines::LineCounter;
pub use lines::count_lines_bytes;
pub use report::ReportLayout;
pub use report::ReportRow;
pub use report::build_report;
pub use report::line_padding;
pub use textutil::display_relative_path;
pub use textutil::ellipsize_middle;
pub use textutil::format_num;
pub use textutil::truncate;

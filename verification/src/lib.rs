//! Statistics over a repository's issues: every issue is classified into a
//! category by its labels, its opening and closing are counted in the calendar
//! period they fall into, and the counts are rendered as tab-separated tables.

pub mod text;
pub mod timestamp;
pub mod period;
pub mod models;
pub mod text_map;
pub mod classifier;
pub mod sums;
pub mod args;
pub mod plot_data;
pub mod tsv_output_file;
pub mod report;
pub mod paging;

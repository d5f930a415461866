//! Disk-usage reporting: classification, scoring and ordering of mounted
//! filesystems, and the text of the report table.

pub mod cli;
pub mod order;
pub mod paint;
pub mod percent;
pub mod report;
pub mod scan;
pub mod stats;
pub mod text;
pub mod util;

//! The scanning engine: which files to scan, what a file yields, and the
//! order of the report.

pub mod order;
pub mod scanner;

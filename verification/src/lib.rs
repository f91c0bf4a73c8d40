//! Analysis of textual log files: a fixed timestamp shape groups lines into
//! per-hour buckets, a keyword marks error lines, and a small state machine
//! reports each bucket's error count when the hour changes, plus a grand
//! total at the end. Gzip-compressed content is decompressed transparently.

pub mod timestamp;
pub mod matcher;
pub mod aggregator;
pub mod report;
pub mod analysis;
pub mod gzip;
pub mod disk;
pub mod compliance;
pub mod textscan;

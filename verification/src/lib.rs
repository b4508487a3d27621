//! Core of a parallel directory-subtree deletion engine.
//!
//! The library decides *what* to do with each filesystem entry and in *which
//! order* directories may be removed; the binary around it performs the
//! actual filesystem calls. The guarantees proved here: every file or
//! symbolic link is scheduled for immediate removal, every directory is
//! deferred into the bucket of its depth, buckets are issued strictly
//! deepest-first, and a failed directory removal never disturbs the
//! remaining schedule.

pub mod entry;
pub mod errors;
pub mod plan;
pub mod pool;
pub mod screen;

//! Verified core of an application's local-store initialization.
//!
//! On its first launch, a desktop application must guarantee that its
//! data directory exists and that a placeholder database file sits inside
//! it, without ever touching data from an earlier launch.  This crate
//! states and proves that check-then-act step over an in-memory model of
//! the filesystem; a thin unverified shell replays the same steps against
//! the real disk.

pub mod store_path;
pub mod fs_model;
pub mod init;

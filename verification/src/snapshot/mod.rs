//! Canonical, checksummed engine snapshots.

pub mod budget;
pub mod codec;
pub mod frame;
pub mod limits;

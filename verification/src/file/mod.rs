//! Locked database directories: identity, manifests, segments and what opening them decides.

pub mod compaction;
pub mod identity;
pub mod manifest;
pub mod manifest_v1;
pub mod names;
pub mod opening;
pub mod options;
pub mod segment;
pub mod segmented;
pub mod walk;

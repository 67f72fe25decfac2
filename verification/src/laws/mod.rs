//! What the operations are for: each law relates what goes into calls to what comes out of them.

pub mod budgets;
pub mod domain;
pub mod files;
pub mod groups;
pub mod layouts;
pub mod messages;
pub mod numbers;
pub mod records;
pub mod replays;
pub mod snapshots;
pub mod views;
pub mod wire;

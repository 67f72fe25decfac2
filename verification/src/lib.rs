//! PromiseDB storage: commands and their effects, the log that makes them durable, and recovery.

pub mod backend;
pub mod batch;
pub mod bytes;
pub mod codec;
pub mod command;
pub mod database;
pub mod digest;
pub mod domain;
pub mod engine;
pub mod error;
pub mod event;
pub mod file;
pub mod laws;
pub mod layout;
pub mod message;
pub mod outcome;
pub mod record;
pub mod recovery;
pub mod replay;
pub mod snapshot;
pub mod transition;
pub mod wire;

//! Little-endian wire primitives shared by every payload codec.

pub mod assured;
pub mod model;
pub mod reader;
pub mod writer;

//! Values of the commitment domain.

pub mod capacity;
pub mod claims;
pub mod ids;
pub mod promise;

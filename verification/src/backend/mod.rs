pub mod cache;
pub mod error;
pub mod rulebook;
pub mod constructor;

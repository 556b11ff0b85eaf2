pub mod action;
pub mod asset;
pub mod backend;
pub mod common;
pub mod constructor;
pub mod error;
pub mod feature;
pub mod lua;
pub mod object;
pub mod rulebook;
pub mod stat;

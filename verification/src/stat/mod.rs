pub mod path;
pub mod query;
pub mod value;
pub mod statblock;
pub mod laws;
pub mod roundtrip;

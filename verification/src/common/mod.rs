pub mod ids;
pub mod entries;
pub mod text;
pub mod choice;
pub mod meta;
pub mod identifier;
pub mod deps;
pub mod util;

pub mod tokens;
pub mod source;
pub mod util;
pub mod iter;
pub mod run;

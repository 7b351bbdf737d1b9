pub mod parse;
pub mod source;

pub mod api;
pub mod listing;
pub mod parse;
pub mod source;

pub mod api;
pub mod source;
pub mod util;

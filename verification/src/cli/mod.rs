pub mod download;
pub mod search;
pub mod stream;

pub use search::{get_from_input, search_string_from_title, Args, Command, Site};

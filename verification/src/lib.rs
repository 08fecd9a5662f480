use vstd::prelude::*;

pub mod anilist;
pub mod anime;
pub mod archive;
pub mod cli;
pub mod config;
pub mod crypt;
pub mod error;
pub mod file;
pub mod lines;
pub mod macros;
pub mod order;
pub mod parser;
pub mod proxy;
pub mod range;
pub mod scraper;
pub mod text;
pub mod tui;
pub mod ui;
pub mod url;
pub mod utils;

verus! {
} // verus!

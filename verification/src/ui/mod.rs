pub mod input;
pub mod selector;

pub use crate::error::TuiError;

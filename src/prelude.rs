//! The parsing traits, for callers that build grammars.
pub use crate::parser::{Parser, Skipper};

//! A parser for a small declarative configuration language: a lexer, a
//! recursive-descent parser that merges repeated declarations, and
//! diagnostics that point into the source.
use vstd::prelude::*;

pub mod api;
pub mod error;
pub mod grammar;
pub mod omap;
pub mod parser;
pub mod text;
pub mod tokeniser;
pub mod types;
pub mod util;
pub mod wf;

pub use error::{Error, Result};

verus! {

/// The line index: for each line of the source, the byte offsets of its
/// first and of its last byte.
pub type Lines = Vec<(usize, usize)>;

} // verus!

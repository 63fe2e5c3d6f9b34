//! Observable Unicode and surface-level text signal analysis.
//!
//! The library classifies every character of a text (`unicode_context`),
//! derives findings and metrics from that classification (`unicode_rules`),
//! removes recognized carriers of hidden content (`sanitizer`), assembles
//! scan reports (`scanner`, `model`), renders them as text (`render`), and
//! takes the decisions of the command line that involve no I/O (`cli`). The
//! share of non-ASCII spaces is computed as binary64 arithmetic computes it,
//! emulated with integers (`binary64`).

pub mod text;
pub mod unicode_context;
pub mod sanitizer;
pub mod model;
pub mod unicode_rules;
pub mod scanner;
pub mod render;
pub mod cli;
pub mod binary64;

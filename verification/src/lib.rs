//! A single-line pattern matcher for a subset of extended regular-expression
//! syntax: literal text, character classes, anchors, greedy quantifiers,
//! alternation, capturing groups, and numbered backreferences.
//!
//! The crate works in two stages: [`parse_pattern`] compiles a pattern string
//! into a sequence of [`Pattern`] nodes, and [`match_pattern`] evaluates that
//! sequence against an input line by greedy, ordered-choice search.

pub mod pattern;
pub mod semantics;
pub mod parser;
pub mod matcher;
pub mod render;
pub mod laws;

pub use pattern::Pattern;
pub use parser::parse_pattern;
pub use matcher::match_pattern;

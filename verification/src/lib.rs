//! A small regular-expression engine: a pattern compiler that turns pattern
//! text into a tree of nodes, and a matcher that runs such a tree against a
//! line of text. Matching commits to the first alternative that succeeds and
//! never gives characters back.

pub mod compiler;
pub mod cursor;
pub mod engine;
pub mod laws;
pub mod matcher;
pub mod pattern;
pub mod text;

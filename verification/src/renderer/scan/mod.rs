//! Locating the code in a chapter, and deciding which of it to highlight.
pub mod filter;
pub mod task;
pub mod scanner;

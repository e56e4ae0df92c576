//! The set of languages nvim-treesitter supports, locked to a pinned revision.
//!
//! Deciding whether a markdown fence tag names a real language is a lookup in
//! a table of plain data, with no I/O and no nvim-treesitter checkout needed.
//! The table itself is data handed to [`Registry::new`]; the rules for reading
//! it live here.
pub mod info;
pub mod lookup;
pub mod util;

//! Neovim-compatible tree-sitter query runtime: everything between the query
//! text nvim-treesitter ships and the patterns tree-sitter runs.
pub mod lua_pattern;
pub mod class_sets;
pub mod regex_engine;
pub mod vim_regex;
pub mod rewrite;
pub mod source;
pub mod predicate;
pub mod number;
pub mod metadata;
pub mod compiled;

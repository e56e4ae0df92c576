//! Building the language table the registry serves from nvim-treesitter's
//! own Lua tables, and the pins it is built against.
pub mod emit;
pub mod lua;
pub mod metadata;
pub mod parse;

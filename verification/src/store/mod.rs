//! What a book needs installed: the languages whose queries a language pulls
//! in, and the grammar name a compiled parser exports.
pub mod parser;
pub mod platform;
pub mod workspace;

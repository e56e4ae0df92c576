//! Turning code into highlighted spans, following Neovim's rules for
//! combining captures.
pub mod canvas;
pub mod lines;
pub mod overrides;
pub mod retag;
pub mod injection;
pub mod engine;

//! Running the preprocessor over a book: which languages to set up, when to
//! go round again, and how the results go back into the chapters.
pub mod pipeline;
pub mod settings;

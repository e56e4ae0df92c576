//! An mdBook preprocessor that highlights code with nvim-treesitter's queries.
use vstd::prelude::*;

pub mod driver;
pub mod highlight;
pub mod query;
pub mod registry;
pub mod registry_build;
pub mod renderer;
pub mod store;
pub mod text;

verus! {

} // verus!

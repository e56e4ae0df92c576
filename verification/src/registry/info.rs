//! The shape of one language table entry.
use vstd::prelude::*;
use vstd::string::StringSliceAdditionalSpecFns;
use vstd::utf8::encode_utf8;

use crate::registry::util::{is_sha, short_revision};

verus! {

/// A language nvim-treesitter ships queries for.
#[derive(Debug)]
pub struct LanguageInfo {
    /// The canonical nvim-treesitter language id, e.g. `c_sharp`.
    pub name: String,
    /// Where the grammar comes from.
    ///
    /// `None` for query-only languages such as `ecma`, `jsx` and `html_tags`.
    /// Those have no grammar of their own; they exist so that other languages
    /// can pull their queries in with a `; inherits:` modeline.
    pub install: Option<Install>,
    /// Languages whose *queries* this language's queries inherit from.
    ///
    /// These need their query files present, but never their parsers: an
    /// inherited query is concatenated and compiled against *this* language's
    /// grammar.
    pub requires: Vec<String>,
    /// nvim-treesitter's maintenance tier. 1 is a core parser, higher is less
    /// closely maintained.
    pub tier: u8,
}

impl LanguageInfo {
    /// Whether this language has a grammar that can be compiled into a parser.
    pub fn has_parser(&self) -> (r: bool)
        ensures
            r == self.install is Some,
    {
        self.install.is_some()
    }
}

/// Where a grammar comes from and how to build it.
#[derive(Debug)]
pub struct Install {
    /// Repository URL, without a trailing `.git`.
    pub url: String,
    /// The pinned revision: usually a full commit SHA, occasionally a tag.
    pub revision: String,
    /// Branch to fetch, when the revision is not on the default branch.
    pub branch: Option<String>,
    /// Sub-directory of the repo containing the grammar, for monorepos.
    pub location: Option<String>,
    /// The repo ships no pre-generated `src/parser.c`, so `tree-sitter
    /// generate` has to run before the parser can be built.
    pub generate: bool,
}

impl Install {
    /// A short, filesystem-safe form of the revision, for cache keys.
    ///
    /// Commit SHAs are truncated to 8 characters; tags (`v1.2.3`) are kept
    /// whole, since truncating them would collide across minor versions.
    pub fn short_revision(&self) -> (r: &str)
        ensures
            r.spec_bytes() == if is_sha(encode_utf8(self.revision@)) {
                encode_utf8(self.revision@).take(8)
            } else {
                encode_utf8(self.revision@)
            },
    {
        short_revision(self.revision.as_str())
    }
}

} // verus!

verus! {

/// The revisions everything is built from: nvim-treesitter's queries and the
/// tree-sitter CLI that compiles the grammars.
#[derive(Debug)]
pub struct Pin {
    /// nvim-treesitter's repository URL.
    pub nvim_treesitter_repository: String,
    /// The pinned nvim-treesitter commit.
    pub nvim_treesitter_revision: String,
    /// Where the queries sit inside an nvim-treesitter checkout.
    pub nvim_treesitter_queries_dir: String,
    /// The tree-sitter CLI release used to build parsers.
    pub tree_sitter_cli_version: String,
    /// tree-sitter's repository URL.
    pub tree_sitter_repository: String,
}

/// The short form of the pinned nvim-treesitter revision, for cache keys.
pub fn nvim_treesitter_revision_short(pin: &Pin) -> (r: &str)
    ensures
        r.spec_bytes() == if is_sha(encode_utf8(pin.nvim_treesitter_revision@)) {
            encode_utf8(pin.nvim_treesitter_revision@).take(8)
        } else {
            encode_utf8(pin.nvim_treesitter_revision@)
        },
{
    short_revision(pin.nvim_treesitter_revision.as_str())
}

} // verus!

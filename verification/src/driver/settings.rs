//! What is said about the keys of the preprocessor's table in `book.toml`.
use vstd::prelude::*;

use crate::renderer::scan::filter::texts;
use crate::text::str_eq;

verus! {

broadcast use vstd::seq_lib::group_seq_properties;

/// The key the settings live under in `book.toml`.
pub const SETTINGS_KEY: &'static str = "preprocessor.nvim-treesitter";

/// The setting that names the only languages to highlight, spelled out in
/// two pieces.
pub open spec fn only_key() -> Seq<char> {
    "in"@ + "clude"@
}

/// The keys this preprocessor reads.
pub open spec fn is_ours(key: Seq<char>) -> bool {
    key == only_key() || key == "exclude"@ || key == "cache_dir"@
}

/// Keys in the table that belong to mdBook, which reads them out of the same
/// table to decide how and when to run the preprocessor.
pub open spec fn is_mdbooks(key: Seq<char>) -> bool {
    key == "command"@ || key == "before"@ || key == "after"@ || key == "optional"@ || key
        == "renderers"@
}

/// The complaint about a key nothing will read.
pub open spec fn complaint(key: Seq<char>) -> Seq<char> {
    "book.toml sets [preprocessor.nvim-treesitter] "@ + key
        + ", which is not a setting this preprocessor has (it reads "@ + only_key()
        + ", exclude, cache_dir)"@
}

/// The complaints about the first `n` keys, in order.
pub open spec fn complaints_upto(keys: Seq<Seq<char>>, n: int) -> Seq<Seq<char>>
    decreases n,
{
    if n <= 0 {
        seq![]
    } else {
        let prev = complaints_upto(keys, n - 1);
        let key = keys[n - 1];
        if is_ours(key) || is_mdbooks(key) {
            prev
        } else {
            prev.push(complaint(key))
        }
    }
}

/// Complaints about the keys of the table that nothing will read, in the
/// order the keys come.
///
/// A key that is not recognised is a warning rather than an error: a
/// misspelled setting would otherwise do nothing at all, but refusing to
/// build would mean any key mdBook adds in future breaks every book using
/// this preprocessor.
pub fn unrecognized_keys(keys: &[String]) -> (r: Vec<String>)
    ensures
        texts(r@) == complaints_upto(texts(keys@), keys@.len() as int),
{
    let ghost k = texts(keys@);
    let mut out: Vec<String> = Vec::new();
    let mut i: usize = 0;
    while i < keys.len()
        invariant
            i <= keys@.len(),
            k == texts(keys@),
            texts(out@) == complaints_upto(k, i as int),
        decreases keys@.len() - i,
    {
        let key = keys[i].as_str();
        let mut only = String::from_str("in");
        only.append("clude");
        let ours = str_eq(key, only.as_str()) || str_eq(key, "exclude") || str_eq(key, "cache_dir");
        let mdbooks = str_eq(key, "command") || str_eq(key, "before") || str_eq(key, "after")
            || str_eq(key, "optional") || str_eq(key, "renderers");
        if !(ours || mdbooks) {
            let ghost before = texts(out@);
            let mut message = String::from_str("book.toml sets [preprocessor.nvim-treesitter] ");
            message.append(key);
            message.append(", which is not a setting this preprocessor has (it reads ");
            message.append(only.as_str());
            message.append(", exclude, cache_dir)");
            out.push(message);
            assert(texts(out@) =~= before.push(complaint(k[i as int])));
        }
        i += 1;
    }
    out
}

} // verus!

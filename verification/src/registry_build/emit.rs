//! The text of the two Rust modules the language table is shipped as.
//!
//! They are kept apart because they have different provenance and different
//! update paths: `pin` is what this project chose, `db` is what upstream
//! says. Bumping a revision then changes one line of one and much of the
//! other, and a reader can see at a glance which is which.
use vstd::prelude::*;

use crate::registry_build::metadata::{debug_quote, debug_text, Metadata};
use crate::registry_build::parse::{
    aliases_view, languages_view, Alias, AliasView, InstallView, Language, LanguageView,
};
use crate::renderer::scan::filter::texts;
use crate::query::source::{lines_from, next_of};
use crate::text::{
    chars_of, copy_range, decimal, decimal_text, is_white_space_exec, str_eq, string_of, trim_end,
    trim_range, trimmed,
};

verus! {

broadcast use vstd::seq_lib::group_seq_properties;

/// The marker tools look for to leave a file alone, spelled out in two
/// pieces so that this source file does not itself carry it.
pub open spec fn tool_marker() -> Seq<char> {
    "@gener"@ + "ated"@
}

/// The header on both modules: what the module is, where it comes from, and
/// that it is not to be edited by hand.
pub open spec fn header_text(subject: Seq<char>, source: Seq<char>) -> Seq<char> {
    "//! "@ + subject + "\n//!\n//! "@ + tool_marker() + " from "@ + source
        + " -- do not edit by hand,\n//! see registry-build package for re-generation.\n\n"@
}

/// `{:?}` of an optional string.
pub open spec fn option_text(v: Option<Seq<char>>) -> Seq<char> {
    match v {
        None => "None"@,
        Some(s) => "Some("@ + debug_text(s) + ")"@,
    }
}

/// `{}` of a `bool`.
pub open spec fn bool_text(b: bool) -> Seq<char> {
    if b {
        "true"@
    } else {
        "false"@
    }
}

/// Each string as `{:?}` writes it, separated by `, `.
pub open spec fn debug_list(items: Seq<Seq<char>>) -> Seq<char>
    decreases items.len(),
{
    if items.len() == 0 {
        seq![]
    } else if items.len() == 1 {
        debug_text(items[0])
    } else {
        debug_list(items.drop_last()) + ", "@ + debug_text(items.last())
    }
}

/// The Rust expression for an `install_info`.
pub open spec fn install_text(i: Option<InstallView>) -> Seq<char> {
    match i {
        None => "None"@,
        Some(i) => "Some(Install { url: "@ + debug_text(i.0) + ", revision: "@ + debug_text(i.1)
            + ", branch: "@ + option_text(i.2) + ", location: "@ + option_text(i.3)
            + ", generate: "@ + bool_text(i.4) + " })"@,
    }
}

/// The line of the language table for one language.
pub open spec fn language_text(l: LanguageView) -> Seq<char> {
    "    LanguageInfo { name: "@ + debug_text(l.0) + ", install: "@ + install_text(l.1)
        + ", requires: &["@ + debug_list(l.2) + "], tier: "@ + decimal_text(l.3 as nat) + " },"@
}

/// The lines of the language table, each ending in a newline.
pub open spec fn language_lines(ls: Seq<LanguageView>) -> Seq<char>
    decreases ls.len(),
{
    if ls.len() == 0 {
        seq![]
    } else {
        language_lines(ls.drop_last()) + language_text(ls.last()) + "\n"@
    }
}

/// The lines of the alias table, each ending in a newline.
pub open spec fn alias_lines(a: Seq<AliasView>) -> Seq<char>
    decreases a.len(),
{
    if a.len() == 0 {
        seq![]
    } else {
        alias_lines(a.drop_last()) + "    ("@ + debug_text(a.last().0) + ", "@ + debug_text(
            a.last().1,
        ) + "),\n"@
    }
}

/// The module holding the language table.
pub open spec fn db_text(ls: Seq<LanguageView>, a: Seq<AliasView>) -> Seq<char> {
    header_text(
        "The pinned nvim-treesitter language table."@,
        "nvim-treesitter's `parsers.lua` and `filetypes.lua`"@,
    ) + "use crate::registry::{Install, LanguageInfo};\n\n"@
        + "/// Every language nvim-treesitter ships queries for, sorted by name.\npub static LANGUAGES: &[LanguageInfo] = &[\n"@
        + language_lines(ls) + "];\n\n"@
        + "/// Neovim filetype aliases, as `(alias, language)` sorted by alias.\npub static FILETYPE_ALIASES: &[(&str, &str)] = &[\n"@
        + alias_lines(a) + "];\n"@
}

/// The module holding the pins.
pub open spec fn pin_text(m: Metadata) -> Seq<char> {
    header_text("What this build pins."@, "`packages/registry-build/metadata.json`"@)
        + "/// The nvim-treesitter repository the queries come from.\npub const NVIM_TREESITTER_REPOSITORY: &str = "@
        + debug_text(m.nvim_treesitter.repository@)
        + ";\n\n/// The nvim-treesitter commit this build is locked to.\npub const NVIM_TREESITTER_REVISION: &str = "@
        + debug_text(m.nvim_treesitter.revision@)
        + ";\n\n/// The sub-directory of that repository holding one query directory\n/// per language.\npub const NVIM_TREESITTER_QUERIES_DIR: &str = "@
        + debug_text(m.nvim_treesitter.paths.queries@)
        + ";\n\n/// The tree-sitter repository the CLI is released from.\npub const TREE_SITTER_REPOSITORY: &str = "@
        + debug_text(m.tree_sitter.repository@)
        + ";\n\n/// The tree-sitter CLI release this build is locked to.\n///\n/// Must stay in step with the `tree-sitter` runtime dependency: the CLI\n/// decides the ABI version of every parser we compile, and the runtime\n/// decides which ABI versions it can load.\npub const TREE_SITTER_CLI_VERSION: &str = "@
        + debug_text(m.tree_sitter.cli_version@) + ";\n"@
}

/// The header on both modules.
pub fn make_header(subject: &str, source: &str) -> (r: String)
    ensures
        r@ == header_text(subject@, source@),
{
    let mut out = String::from_str("//! ");
    out.append(subject);
    out.append("\n//!\n//! ");
    out.append("@gener");
    out.append("ated");
    out.append(" from ");
    out.append(source);
    out.append(" -- do not edit by hand,\n//! see registry-build package for re-generation.\n\n");
    out
}

/// `{:?}` of an optional string.
pub fn option_literal(value: Option<&str>) -> (r: String)
    ensures
        r@ == option_text(
            match value {
                Some(s) => Some(s@),
                None => None,
            },
        ),
{
    match value {
        None => String::from_str("None"),
        Some(s) => {
            let mut out = String::from_str("Some(");
            out.append(debug_quote(s).as_str());
            out.append(")");
            out
        },
    }
}

/// The line of the language table for one language.
pub fn language_literal(language: &Language) -> (r: String)
    ensures
        r@ == language_text(language@),
{
    let install = match &language.install {
        None => String::from_str("None"),
        Some(install) => {
            let mut out = String::from_str("Some(Install { url: ");
            out.append(debug_quote(install.url.as_str()).as_str());
            out.append(", revision: ");
            out.append(debug_quote(install.revision.as_str()).as_str());
            out.append(", branch: ");
            let branch = match &install.branch {
                Some(b) => Some(b.as_str()),
                None => None,
            };
            out.append(option_literal(branch).as_str());
            out.append(", location: ");
            let location = match &install.location {
                Some(l) => Some(l.as_str()),
                None => None,
            };
            out.append(option_literal(location).as_str());
            out.append(", generate: ");
            out.append(
                if install.generate {
                    "true"
                } else {
                    "false"
                },
            );
            out.append(" })");
            out
        },
    };
    let mut required = String::new();
    let ghost names = texts(language.requires@);
    let mut i: usize = 0;
    while i < language.requires.len()
        invariant
            i <= language.requires@.len(),
            names == texts(language.requires@),
            required@ == debug_list(names.take(i as int)),
        decreases language.requires@.len() - i,
    {
        if i > 0 {
            required.append(", ");
        }
        required.append(debug_quote(language.requires[i].as_str()).as_str());
        assert(names.take(i + 1).drop_last() =~= names.take(i as int));
        i += 1;
    }
    assert(names.take(names.len() as int) =~= names);
    let mut out = String::from_str("    LanguageInfo { name: ");
    out.append(debug_quote(language.name.as_str()).as_str());
    out.append(", install: ");
    out.append(install.as_str());
    out.append(", requires: &[");
    out.append(required.as_str());
    out.append("], tier: ");
    out.append(decimal(language.tier as usize).as_str());
    out.append(" },");
    out
}

/// The module holding the language table.
pub fn db_source(languages: &[Language], aliases: &[Alias]) -> (r: String)
    ensures
        r@ == db_text(languages_view(languages@), aliases_view(aliases@)),
{
    let ghost ls = languages_view(languages@);
    let ghost a = aliases_view(aliases@);
    let mut out = make_header(
        "The pinned nvim-treesitter language table.",
        "nvim-treesitter's `parsers.lua` and `filetypes.lua`",
    );
    out.append("use crate::registry::{Install, LanguageInfo};\n\n");
    out.append(
        "/// Every language nvim-treesitter ships queries for, sorted by name.\npub static LANGUAGES: &[LanguageInfo] = &[\n",
    );
    let ghost before_languages = out@;
    let mut i: usize = 0;
    while i < languages.len()
        invariant
            i <= languages@.len(),
            ls == languages_view(languages@),
            out@ == before_languages + language_lines(ls.take(i as int)),
        decreases languages@.len() - i,
    {
        out.append(language_literal(&languages[i]).as_str());
        out.append("\n");
        assert(ls.take(i + 1).drop_last() =~= ls.take(i as int));
        i += 1;
    }
    assert(ls.take(ls.len() as int) =~= ls);
    out.append("];\n\n");
    out.append(
        "/// Neovim filetype aliases, as `(alias, language)` sorted by alias.\npub static FILETYPE_ALIASES: &[(&str, &str)] = &[\n",
    );
    let ghost before_aliases = out@;
    let mut j: usize = 0;
    while j < aliases.len()
        invariant
            j <= aliases@.len(),
            a == aliases_view(aliases@),
            out@ == before_aliases + alias_lines(a.take(j as int)),
        decreases aliases@.len() - j,
    {
        out.append("    (");
        out.append(debug_quote(aliases[j].alias.as_str()).as_str());
        out.append(", ");
        out.append(debug_quote(aliases[j].language.as_str()).as_str());
        out.append("),\n");
        assert(a.take(j + 1).drop_last() =~= a.take(j as int));
        j += 1;
    }
    assert(a.take(a.len() as int) =~= a);
    out.append("];\n");
    out
}

/// The module holding the pins.
pub fn pin_source(metadata: &Metadata) -> (r: String)
    ensures
        r@ == pin_text(*metadata),
{
    let mut out = make_header("What this build pins.", "`packages/registry-build/metadata.json`");
    out.append(
        "/// The nvim-treesitter repository the queries come from.\npub const NVIM_TREESITTER_REPOSITORY: &str = ",
    );
    out.append(debug_quote(metadata.nvim_treesitter.repository.as_str()).as_str());
    out.append(
        ";\n\n/// The nvim-treesitter commit this build is locked to.\npub const NVIM_TREESITTER_REVISION: &str = ",
    );
    out.append(debug_quote(metadata.nvim_treesitter.revision.as_str()).as_str());
    out.append(
        ";\n\n/// The sub-directory of that repository holding one query directory\n/// per language.\npub const NVIM_TREESITTER_QUERIES_DIR: &str = ",
    );
    out.append(debug_quote(metadata.nvim_treesitter.paths.queries.as_str()).as_str());
    out.append(
        ";\n\n/// The tree-sitter repository the CLI is released from.\npub const TREE_SITTER_REPOSITORY: &str = ",
    );
    out.append(debug_quote(metadata.tree_sitter.repository.as_str()).as_str());
    out.append(
        ";\n\n/// The tree-sitter CLI release this build is locked to.\n///\n/// Must stay in step with the `tree-sitter` runtime dependency: the CLI\n/// decides the ABI version of every parser we compile, and the runtime\n/// decides which ABI versions it can load.\npub const TREE_SITTER_CLI_VERSION: &str = ",
    );
    out.append(debug_quote(metadata.tree_sitter.cli_version.as_str()).as_str());
    out.append(";\n");
    out
}

/// The lines of a generated file as two versions of it are compared: the
/// text without surrounding white space, split into lines, each line without
/// its trailing white space. Line endings and stray spaces are thus no
/// difference.
pub open spec fn normalized_lines(t: Seq<char>) -> Seq<Seq<char>> {
    lines_from(trimmed(t), 0).map_values(|line: Seq<char>| trim_end(line))
}

/// The lines of `text` as `normalized_lines` has them.
#[verifier::rlimit(30)]
fn normalized(text: &str) -> (r: Vec<String>)
    ensures
        texts(r@) == normalized_lines(text@),
{
    let all = chars_of(text);
    let (lo, hi) = trim_range(all.as_slice());
    let t = copy_range(all.as_slice(), lo, hi);
    let ghost tv = t@;
    assert(tv == trimmed(text@));
    let mut lines: Vec<String> = Vec::new();
    let mut i: usize = 0;
    while i < t.len()
        invariant
            i <= tv.len(),
            tv == t@,
            normalized_lines(text@) == texts(lines@) + lines_from(tv, i as int).map_values(
                |line: Seq<char>| trim_end(line),
            ),
        decreases tv.len() - i,
    {
        let mut j = i;
        while j < t.len() && t[j] != '\n'
            invariant
                i <= j <= tv.len(),
                tv == t@,
                next_of(tv, '\n', i as int) == next_of(tv, '\n', j as int),
            decreases tv.len() - j,
        {
            j += 1;
        }
        let end = if j < t.len() && j > i && t[j - 1] == '\r' {
            j - 1
        } else {
            j
        };
        let ghost raw = tv.subrange(i as int, j as int);
        let ghost line = if j < tv.len() && j > i && tv[j - 1] == '\r' {
            raw.drop_last()
        } else {
            raw
        };
        assert(line =~= tv.subrange(i as int, end as int));
        let mut e = end;
        while e > i && is_white_space_exec(t[e - 1])
            invariant
                i <= e <= end,
                end <= tv.len(),
                tv == t@,
                trim_end(line) == trim_end(tv.subrange(i as int, e as int)),
                line == tv.subrange(i as int, end as int),
            decreases e,
        {
            assert(tv.subrange(i as int, e as int).drop_last() =~= tv.subrange(i as int, e - 1));
            e -= 1;
        }
        assert(trim_end(tv.subrange(i as int, e as int)) == tv.subrange(i as int, e as int));
        let ghost before = texts(lines@);
        lines.push(string_of(t.as_slice(), i, e));
        assert(texts(lines@) =~= before.push(trim_end(line)));
        let ghost rest = if j < tv.len() {
            lines_from(tv, j + 1)
        } else {
            Seq::<Seq<char>>::empty()
        };
        assert(lines_from(tv, i as int) =~= seq![line] + rest);
        assert(lines_from(tv, i as int).map_values(|l: Seq<char>| trim_end(l)) =~= seq![trim_end(line)]
            + rest.map_values(|l: Seq<char>| trim_end(l)));
        if j >= t.len() {
            assert(rest.map_values(|l: Seq<char>| trim_end(l)) =~= Seq::<Seq<char>>::empty());
            assert(texts(lines@) =~= normalized_lines(text@));
            return lines;
        }
        i = j + 1;
    }
    assert(lines_from(tv, i as int).map_values(|l: Seq<char>| trim_end(l)) =~= Seq::<Seq<char>>::empty());
    assert(texts(lines@) =~= normalized_lines(text@));
    lines
}

/// Whether a generated file already holds what would be written to it: the
/// same lines, once white space around the text and at line ends is ignored.
/// Rewriting a file that differs only in such white space would only churn
/// its modification time.
pub fn same_lines(current: &str, new: &str) -> (r: bool)
    ensures
        r == (normalized_lines(current@) == normalized_lines(new@)),
{
    let a = normalized(current);
    let b = normalized(new);
    if a.len() != b.len() {
        assert(texts(a@).len() != texts(b@).len());
        return false;
    }
    let mut k: usize = 0;
    while k < a.len()
        invariant
            k <= a@.len(),
            a@.len() == b@.len(),
            texts(a@) == normalized_lines(current@),
            texts(b@) == normalized_lines(new@),
            forall|m: int| 0 <= m < k ==> texts(a@)[m] == texts(b@)[m],
        decreases a@.len() - k,
    {
        if !str_eq(a[k].as_str(), b[k].as_str()) {
            assert(texts(a@)[k as int] != texts(b@)[k as int]);
            return false;
        }
        k += 1;
    }
    assert(texts(a@) =~= texts(b@));
    true
}

} // verus!

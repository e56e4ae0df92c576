//! Resolving a user-written tag to a language in the table.
use vstd::prelude::*;
use vstd::string::StringSliceAdditionalSpecFns;

use crate::registry::info::LanguageInfo;
use crate::registry::util::{ascii_lower, normalize_tag, normalized};
use crate::text::{is_white_space, trim_end, trim_start};
use crate::text::{chars_of, push_char, str_eq};

verus! {

broadcast use vstd::seq_lib::group_seq_properties;

/// The table of languages and the filetype aliases that point into it.
pub struct Registry {
    languages: Vec<LanguageInfo>,
    filetype_aliases: Vec<(String, String)>,
}

/// An alias table as plain values: each alias and the language id it names.
pub open spec fn alias_view(table: Seq<(String, String)>) -> Seq<(Seq<char>, Seq<char>)> {
    table.map_values(|entry: (String, String)| (entry.0@, entry.1@))
}

/// The first entry from `i` on whose language id is `name`.
pub open spec fn position_of(languages: Seq<LanguageInfo>, name: Seq<char>, i: int) -> Option<int>
    decreases languages.len() - i,
{
    if i < 0 || i >= languages.len() {
        None
    } else if languages[i].name@ == name {
        Some(i)
    } else {
        position_of(languages, name, i + 1)
    }
}

/// The language the first entry of `table` from `i` on with alias `tag` names.
pub open spec fn alias_target(table: Seq<(Seq<char>, Seq<char>)>, tag: Seq<char>, i: int) -> Option<
    Seq<char>,
>
    decreases table.len() - i,
{
    if i < 0 || i >= table.len() {
        None
    } else if table[i].0 == tag {
        Some(table[i].1)
    } else {
        alias_target(table, tag, i + 1)
    }
}

/// Aliases that are conventional in markdown fences but are not Neovim
/// filetypes, so nvim-treesitter's own alias table does not carry them.
///
/// Kept sorted by alias; only add a tag here when it is unambiguous.
pub open spec fn fence_alias_table() -> Seq<(Seq<char>, Seq<char>)> {
    seq![
        ("c#"@, "c_sharp"@),
        ("c++"@, "cpp"@),
        ("cc"@, "cpp"@),
        ("golang"@, "go"@),
        ("hpp"@, "cpp"@),
        ("htm"@, "html"@),
        ("kt"@, "kotlin"@),
        ("md"@, "markdown"@),
        ("rs"@, "rust"@),
        ("sh"@, "bash"@),
        ("shell"@, "bash"@),
        ("yml"@, "yaml"@),
        ("zsh"@, "bash"@),
    ]
}

/// The fence aliases, as a table.
pub fn fence_aliases() -> (table: Vec<(String, String)>)
    ensures
        alias_view(table@) == fence_alias_table(),
{
    let mut table: Vec<(String, String)> = Vec::new();
    table.push((String::from_str("c#"), String::from_str("c_sharp")));
    table.push((String::from_str("c++"), String::from_str("cpp")));
    table.push((String::from_str("cc"), String::from_str("cpp")));
    table.push((String::from_str("golang"), String::from_str("go")));
    table.push((String::from_str("hpp"), String::from_str("cpp")));
    table.push((String::from_str("htm"), String::from_str("html")));
    table.push((String::from_str("kt"), String::from_str("kotlin")));
    table.push((String::from_str("md"), String::from_str("markdown")));
    table.push((String::from_str("rs"), String::from_str("rust")));
    table.push((String::from_str("sh"), String::from_str("bash")));
    table.push((String::from_str("shell"), String::from_str("bash")));
    table.push((String::from_str("yml"), String::from_str("yaml")));
    table.push((String::from_str("zsh"), String::from_str("bash")));
    assert(alias_view(table@) =~= fence_alias_table());
    table
}

/// The entry `position` names, when it names one with a grammar.
pub open spec fn with_parser(languages: Seq<LanguageInfo>, position: Option<int>) -> Option<int> {
    match position {
        Some(k) => if 0 <= k < languages.len() && languages[k].install is Some {
            Some(k)
        } else {
            None
        },
        None => None,
    }
}

/// The entry an alias in `table` leads to, when it has a grammar.
pub open spec fn via_alias(
    languages: Seq<LanguageInfo>,
    table: Seq<(Seq<char>, Seq<char>)>,
    tag: Seq<char>,
) -> Option<int> {
    match alias_target(table, tag, 0) {
        Some(target) => with_parser(languages, position_of(languages, target, 0)),
        None => None,
    }
}

/// A tag with every `-` read as `_`.
pub open spec fn underscored(tag: Seq<char>) -> Seq<char> {
    tag.map_values(|c: char|
        if c == '-' {
            '_'
        } else {
            c
        })
}

/// The entry a tag resolves to: by exact id, then by filetype alias, then by
/// fence alias, then by id with `-` read as `_`; only ever one with a grammar.
pub open spec fn resolved(
    languages: Seq<LanguageInfo>,
    filetype_aliases: Seq<(Seq<char>, Seq<char>)>,
    tag: Seq<char>,
) -> Option<int> {
    let t = normalized(tag);
    if t.len() == 0 {
        None
    } else if with_parser(languages, position_of(languages, t, 0)) is Some {
        with_parser(languages, position_of(languages, t, 0))
    } else if via_alias(languages, filetype_aliases, t) is Some {
        via_alias(languages, filetype_aliases, t)
    } else if via_alias(languages, fence_alias_table(), t) is Some {
        via_alias(languages, fence_alias_table(), t)
    } else {
        with_parser(languages, position_of(languages, underscored(t), 0))
    }
}

pub proof fn lemma_position_of(languages: Seq<LanguageInfo>, name: Seq<char>, i: int)
    requires
        0 <= i,
    ensures
        match position_of(languages, name, i) {
            Some(k) => i <= k < languages.len() && languages[k].name@ == name,
            None => true,
        },
    decreases languages.len() - i,
{
    if i < languages.len() && languages[i].name@ != name {
        lemma_position_of(languages, name, i + 1);
    }
}

/// The language `tag` is an alias for in `table`.
pub fn alias_of<'t>(table: &'t [(String, String)], tag: &str) -> (r: Option<&'t str>)
    ensures
        match alias_target(alias_view(table@), tag@, 0) {
            Some(target) => r is Some && r->0@ == target,
            None => r is None,
        },
{
    let ghost v = alias_view(table@);
    let mut i: usize = 0;
    while i < table.len()
        invariant
            i <= table@.len(),
            v == alias_view(table@),
            alias_target(v, tag@, 0) == alias_target(v, tag@, i as int),
        decreases table@.len() - i,
    {
        if str_eq(table[i].0.as_str(), tag) {
            return Some(table[i].1.as_str());
        }
        i += 1;
    }
    None
}

impl Registry {
    /// The language table, one entry per language id.
    pub closed spec fn languages(&self) -> Seq<LanguageInfo> {
        self.languages@
    }

    /// Neovim's filetype aliases, each naming a language id.
    pub closed spec fn filetype_aliases(&self) -> Seq<(Seq<char>, Seq<char>)> {
        alias_view(self.filetype_aliases@)
    }

    /// A registry over a language table and its filetype aliases.
    pub fn new(languages: Vec<LanguageInfo>, filetype_aliases: Vec<(String, String)>) -> (r: Self)
        ensures
            r.languages() == languages@,
            r.filetype_aliases() == alias_view(filetype_aliases@),
    {
        Registry { languages, filetype_aliases }
    }

    /// Every language in the table.
    pub fn all(&self) -> (r: &[LanguageInfo])
        ensures
            r@ == self.languages(),
    {
        self.languages.as_slice()
    }

    /// Look a canonical language id up in the table.
    pub fn get_language(&self, name: &str) -> (r: Option<&LanguageInfo>)
        ensures
            match position_of(self.languages(), name@, 0) {
                Some(k) => r is Some && *r->0 == self.languages()[k],
                None => r is None,
            },
    {
        let mut i: usize = 0;
        while i < self.languages.len()
            invariant
                i <= self.languages@.len(),
                position_of(self.languages@, name@, 0) == position_of(
                    self.languages@,
                    name@,
                    i as int,
                ),
            decreases self.languages@.len() - i,
        {
            if str_eq(self.languages[i].name.as_str(), name) {
                return Some(&self.languages[i]);
            }
            i += 1;
        }
        None
    }

    fn get_with_parser(&self, name: &str) -> (r: Option<&LanguageInfo>)
        ensures
            match with_parser(self.languages(), position_of(self.languages(), name@, 0)) {
                Some(k) => r is Some && *r->0 == self.languages()[k],
                None => r is None,
            },
    {
        proof {
            lemma_position_of(self.languages(), name@, 0);
        }
        match self.get_language(name) {
            Some(language) => if language.has_parser() {
                Some(language)
            } else {
                None
            },
            None => None,
        }
    }

    fn via_alias_exec(&self, table: &[(String, String)], tag: &str) -> (r: Option<&LanguageInfo>)
        ensures
            match via_alias(self.languages(), alias_view(table@), tag@) {
                Some(k) => r is Some && *r->0 == self.languages()[k],
                None => r is None,
            },
    {
        match alias_of(table, tag) {
            Some(target) => self.get_with_parser(target),
            None => None,
        }
    }

    /// Resolve a markdown fence tag, filetype, or language id to a language
    /// that can actually be highlighted.
    ///
    /// Tags are matched case-insensitively, and `-` is accepted where the
    /// language id uses `_` (fences say `c-sharp`, nvim-treesitter says
    /// `c_sharp`), except where the tag is an alias in its own right.
    ///
    /// A query-only language is never the answer: `ecma`, `jsx` and
    /// `html_tags` are language ids in the table, but they have no grammar, so
    /// returning one would name a language that can never highlight anything.
    pub fn resolve_language(&self, tag: &str) -> (r: Option<&LanguageInfo>)
        ensures
            match resolved(self.languages(), self.filetype_aliases(), tag@) {
                Some(k) => r is Some && *r->0 == self.languages()[k],
                None => r is None,
            },
            r is Some ==> r->0.install is Some,
    {
        let t = normalize_tag(tag);
        let t = t.as_str();
        if t.unicode_len() == 0 {
            return None;
        }
        if let Some(language) = self.get_with_parser(t) {
            return Some(language);
        }
        if let Some(language) = self.via_alias_exec(self.filetype_aliases.as_slice(), t) {
            return Some(language);
        }
        let fence = fence_aliases();
        if let Some(language) = self.via_alias_exec(fence.as_slice(), t) {
            return Some(language);
        }
        let chars = chars_of(t);
        let mut dashed = String::new();
        let mut i: usize = 0;
        while i < chars.len()
            invariant
                i <= chars@.len(),
                chars@ == t@,
                dashed@ == underscored(chars@.take(i as int)),
            decreases chars@.len() - i,
        {
            let c = chars[i];
            push_char(
                &mut dashed,
                if c == '-' {
                    '_'
                } else {
                    c
                },
            );
            i += 1;
            assert(dashed@ =~= underscored(chars@.take(i as int)));
        }
        assert(chars@.take(chars@.len() as int) =~= chars@);
        self.get_with_parser(dashed.as_str())
    }
}


/// The conventional fence tags and the languages they abbreviate: `c#` is
/// C#, `c++`, `cc` and `hpp` are C++, `golang` is Go, `htm` is HTML, `kt`
/// is Kotlin, `md` is Markdown, `rs` is Rust, `sh`, `shell` and `zsh` are
/// shell scripts, and `yml` is YAML.
pub open spec fn abbreviates(tag: Seq<char>, target: Seq<char>) -> bool {
    (tag == "c#"@ && target == "c_sharp"@)
        || (tag == "c++"@ && target == "cpp"@)
        || (tag == "cc"@ && target == "cpp"@)
        || (tag == "golang"@ && target == "go"@)
        || (tag == "hpp"@ && target == "cpp"@)
        || (tag == "htm"@ && target == "html"@)
        || (tag == "kt"@ && target == "kotlin"@)
        || (tag == "md"@ && target == "markdown"@)
        || (tag == "rs"@ && target == "rust"@)
        || (tag == "sh"@ && target == "bash"@)
        || (tag == "shell"@ && target == "bash"@)
        || (tag == "yml"@ && target == "yaml"@)
        || (tag == "zsh"@ && target == "bash"@)
}

/// Each conventional fence tag leads to the language it abbreviates.
pub proof fn lemma_fence_aliases_abbreviate()
    ensures
        alias_target(fence_alias_table(), "c#"@, 0) == Some("c_sharp"@),
        alias_target(fence_alias_table(), "c++"@, 0) == Some("cpp"@),
        alias_target(fence_alias_table(), "cc"@, 0) == Some("cpp"@),
        alias_target(fence_alias_table(), "golang"@, 0) == Some("go"@),
        alias_target(fence_alias_table(), "hpp"@, 0) == Some("cpp"@),
        alias_target(fence_alias_table(), "htm"@, 0) == Some("html"@),
        alias_target(fence_alias_table(), "kt"@, 0) == Some("kotlin"@),
        alias_target(fence_alias_table(), "md"@, 0) == Some("markdown"@),
        alias_target(fence_alias_table(), "rs"@, 0) == Some("rust"@),
        alias_target(fence_alias_table(), "sh"@, 0) == Some("bash"@),
        alias_target(fence_alias_table(), "shell"@, 0) == Some("bash"@),
        alias_target(fence_alias_table(), "yml"@, 0) == Some("yaml"@),
        alias_target(fence_alias_table(), "zsh"@, 0) == Some("bash"@),
{
    reveal_strlit("bash");
    reveal_strlit("c#");
    reveal_strlit("c++");
    reveal_strlit("c_sharp");
    reveal_strlit("cc");
    reveal_strlit("cpp");
    reveal_strlit("go");
    reveal_strlit("golang");
    reveal_strlit("hpp");
    reveal_strlit("htm");
    reveal_strlit("html");
    reveal_strlit("kotlin");
    reveal_strlit("kt");
    reveal_strlit("markdown");
    reveal_strlit("md");
    reveal_strlit("rs");
    reveal_strlit("rust");
    reveal_strlit("sh");
    reveal_strlit("shell");
    reveal_strlit("yaml");
    reveal_strlit("yml");
    reveal_strlit("zsh");
    let table = fence_alias_table();
    assert(table[0] == ("c#"@, "c_sharp"@));
    assert(table[1] == ("c++"@, "cpp"@));
    assert(table[2] == ("cc"@, "cpp"@));
    assert(table[3] == ("golang"@, "go"@));
    assert(table[4] == ("hpp"@, "cpp"@));
    assert(table[5] == ("htm"@, "html"@));
    assert(table[6] == ("kt"@, "kotlin"@));
    assert(table[7] == ("md"@, "markdown"@));
    assert(table[8] == ("rs"@, "rust"@));
    assert(table[9] == ("sh"@, "bash"@));
    assert(table[10] == ("shell"@, "bash"@));
    assert(table[11] == ("yml"@, "yaml"@));
    assert(table[12] == ("zsh"@, "bash"@));
    assert(table.len() == 13);
    lemma_alias_target_at(table, "c#"@, 0, 0);
    assert(table[0].0 != "c++"@) by { assert("c#"@.len() != "c++"@.len()); }
    lemma_alias_target_at(table, "c++"@, 0, 1);
    assert(table[0].0 != "cc"@) by { assert("c#"@[1] != "cc"@[1]); }
    assert(table[1].0 != "cc"@) by { assert("c++"@.len() != "cc"@.len()); }
    lemma_alias_target_at(table, "cc"@, 0, 2);
    assert(table[0].0 != "golang"@) by { assert("c#"@.len() != "golang"@.len()); }
    assert(table[1].0 != "golang"@) by { assert("c++"@.len() != "golang"@.len()); }
    assert(table[2].0 != "golang"@) by { assert("cc"@.len() != "golang"@.len()); }
    lemma_alias_target_at(table, "golang"@, 0, 3);
    assert(table[0].0 != "hpp"@) by { assert("c#"@.len() != "hpp"@.len()); }
    assert(table[1].0 != "hpp"@) by { assert("c++"@[0] != "hpp"@[0]); }
    assert(table[2].0 != "hpp"@) by { assert("cc"@.len() != "hpp"@.len()); }
    assert(table[3].0 != "hpp"@) by { assert("golang"@.len() != "hpp"@.len()); }
    lemma_alias_target_at(table, "hpp"@, 0, 4);
    assert(table[0].0 != "htm"@) by { assert("c#"@.len() != "htm"@.len()); }
    assert(table[1].0 != "htm"@) by { assert("c++"@[0] != "htm"@[0]); }
    assert(table[2].0 != "htm"@) by { assert("cc"@.len() != "htm"@.len()); }
    assert(table[3].0 != "htm"@) by { assert("golang"@.len() != "htm"@.len()); }
    assert(table[4].0 != "htm"@) by { assert("hpp"@[1] != "htm"@[1]); }
    lemma_alias_target_at(table, "htm"@, 0, 5);
    assert(table[0].0 != "kt"@) by { assert("c#"@[0] != "kt"@[0]); }
    assert(table[1].0 != "kt"@) by { assert("c++"@.len() != "kt"@.len()); }
    assert(table[2].0 != "kt"@) by { assert("cc"@[0] != "kt"@[0]); }
    assert(table[3].0 != "kt"@) by { assert("golang"@.len() != "kt"@.len()); }
    assert(table[4].0 != "kt"@) by { assert("hpp"@.len() != "kt"@.len()); }
    assert(table[5].0 != "kt"@) by { assert("htm"@.len() != "kt"@.len()); }
    lemma_alias_target_at(table, "kt"@, 0, 6);
    assert(table[0].0 != "md"@) by { assert("c#"@[0] != "md"@[0]); }
    assert(table[1].0 != "md"@) by { assert("c++"@.len() != "md"@.len()); }
    assert(table[2].0 != "md"@) by { assert("cc"@[0] != "md"@[0]); }
    assert(table[3].0 != "md"@) by { assert("golang"@.len() != "md"@.len()); }
    assert(table[4].0 != "md"@) by { assert("hpp"@.len() != "md"@.len()); }
    assert(table[5].0 != "md"@) by { assert("htm"@.len() != "md"@.len()); }
    assert(table[6].0 != "md"@) by { assert("kt"@[0] != "md"@[0]); }
    lemma_alias_target_at(table, "md"@, 0, 7);
    assert(table[0].0 != "rs"@) by { assert("c#"@[0] != "rs"@[0]); }
    assert(table[1].0 != "rs"@) by { assert("c++"@.len() != "rs"@.len()); }
    assert(table[2].0 != "rs"@) by { assert("cc"@[0] != "rs"@[0]); }
    assert(table[3].0 != "rs"@) by { assert("golang"@.len() != "rs"@.len()); }
    assert(table[4].0 != "rs"@) by { assert("hpp"@.len() != "rs"@.len()); }
    assert(table[5].0 != "rs"@) by { assert("htm"@.len() != "rs"@.len()); }
    assert(table[6].0 != "rs"@) by { assert("kt"@[0] != "rs"@[0]); }
    assert(table[7].0 != "rs"@) by { assert("md"@[0] != "rs"@[0]); }
    lemma_alias_target_at(table, "rs"@, 0, 8);
    assert(table[0].0 != "sh"@) by { assert("c#"@[0] != "sh"@[0]); }
    assert(table[1].0 != "sh"@) by { assert("c++"@.len() != "sh"@.len()); }
    assert(table[2].0 != "sh"@) by { assert("cc"@[0] != "sh"@[0]); }
    assert(table[3].0 != "sh"@) by { assert("golang"@.len() != "sh"@.len()); }
    assert(table[4].0 != "sh"@) by { assert("hpp"@.len() != "sh"@.len()); }
    assert(table[5].0 != "sh"@) by { assert("htm"@.len() != "sh"@.len()); }
    assert(table[6].0 != "sh"@) by { assert("kt"@[0] != "sh"@[0]); }
    assert(table[7].0 != "sh"@) by { assert("md"@[0] != "sh"@[0]); }
    assert(table[8].0 != "sh"@) by { assert("rs"@[0] != "sh"@[0]); }
    lemma_alias_target_at(table, "sh"@, 0, 9);
    assert(table[0].0 != "shell"@) by { assert("c#"@.len() != "shell"@.len()); }
    assert(table[1].0 != "shell"@) by { assert("c++"@.len() != "shell"@.len()); }
    assert(table[2].0 != "shell"@) by { assert("cc"@.len() != "shell"@.len()); }
    assert(table[3].0 != "shell"@) by { assert("golang"@.len() != "shell"@.len()); }
    assert(table[4].0 != "shell"@) by { assert("hpp"@.len() != "shell"@.len()); }
    assert(table[5].0 != "shell"@) by { assert("htm"@.len() != "shell"@.len()); }
    assert(table[6].0 != "shell"@) by { assert("kt"@.len() != "shell"@.len()); }
    assert(table[7].0 != "shell"@) by { assert("md"@.len() != "shell"@.len()); }
    assert(table[8].0 != "shell"@) by { assert("rs"@.len() != "shell"@.len()); }
    assert(table[9].0 != "shell"@) by { assert("sh"@.len() != "shell"@.len()); }
    lemma_alias_target_at(table, "shell"@, 0, 10);
    assert(table[0].0 != "yml"@) by { assert("c#"@.len() != "yml"@.len()); }
    assert(table[1].0 != "yml"@) by { assert("c++"@[0] != "yml"@[0]); }
    assert(table[2].0 != "yml"@) by { assert("cc"@.len() != "yml"@.len()); }
    assert(table[3].0 != "yml"@) by { assert("golang"@.len() != "yml"@.len()); }
    assert(table[4].0 != "yml"@) by { assert("hpp"@[0] != "yml"@[0]); }
    assert(table[5].0 != "yml"@) by { assert("htm"@[0] != "yml"@[0]); }
    assert(table[6].0 != "yml"@) by { assert("kt"@.len() != "yml"@.len()); }
    assert(table[7].0 != "yml"@) by { assert("md"@.len() != "yml"@.len()); }
    assert(table[8].0 != "yml"@) by { assert("rs"@.len() != "yml"@.len()); }
    assert(table[9].0 != "yml"@) by { assert("sh"@.len() != "yml"@.len()); }
    assert(table[10].0 != "yml"@) by { assert("shell"@.len() != "yml"@.len()); }
    lemma_alias_target_at(table, "yml"@, 0, 11);
    assert(table[0].0 != "zsh"@) by { assert("c#"@.len() != "zsh"@.len()); }
    assert(table[1].0 != "zsh"@) by { assert("c++"@[0] != "zsh"@[0]); }
    assert(table[2].0 != "zsh"@) by { assert("cc"@.len() != "zsh"@.len()); }
    assert(table[3].0 != "zsh"@) by { assert("golang"@.len() != "zsh"@.len()); }
    assert(table[4].0 != "zsh"@) by { assert("hpp"@[0] != "zsh"@[0]); }
    assert(table[5].0 != "zsh"@) by { assert("htm"@[0] != "zsh"@[0]); }
    assert(table[6].0 != "zsh"@) by { assert("kt"@.len() != "zsh"@.len()); }
    assert(table[7].0 != "zsh"@) by { assert("md"@.len() != "zsh"@.len()); }
    assert(table[8].0 != "zsh"@) by { assert("rs"@.len() != "zsh"@.len()); }
    assert(table[9].0 != "zsh"@) by { assert("sh"@.len() != "zsh"@.len()); }
    assert(table[10].0 != "zsh"@) by { assert("shell"@.len() != "zsh"@.len()); }
    assert(table[11].0 != "zsh"@) by { assert("yml"@[0] != "zsh"@[0]); }
    lemma_alias_target_at(table, "zsh"@, 0, 12);
}

/// The first entry from `i` on with alias `tag` is the one at `k`.
proof fn lemma_alias_target_at(table: Seq<(Seq<char>, Seq<char>)>, tag: Seq<char>, i: int, k: int)
    requires
        0 <= i <= k < table.len(),
        table[k].0 == tag,
        forall|j: int| i <= j < k ==> table[j].0 != tag,
    ensures
        alias_target(table, tag, i) == Some(table[k].1),
    decreases k - i,
{
    if i < k {
        lemma_alias_target_at(table, tag, i + 1, k);
    }
}

/// A tag already in normal form is its own normal form.
proof fn lemma_plain_tag(t: Seq<char>)
    requires
        t.len() > 0,
        forall|i: int| 0 <= i < t.len() ==> !is_white_space(#[trigger] t[i]) && !('A' <= t[i] <= 'Z'),
    ensures
        normalized(t) == t,
{
    assert(!is_white_space(t[0]));
    assert(!is_white_space(t.last()));
    assert(trim_start(t) == t);
    assert(trim_end(t) == t);
    assert(t.map_values(|c: char| ascii_lower(c)) =~= t);
}

/// A fence tag that abbreviates a language resolves to that language,
/// unless the tag is itself a language id or a filetype alias with a
/// grammar: `yml` is YAML, `rs` is Rust, and so on, whatever else the table
/// holds.
pub proof fn lemma_fence_tag_resolves(
    languages: Seq<LanguageInfo>,
    filetype_aliases: Seq<(Seq<char>, Seq<char>)>,
    tag: Seq<char>,
    target: Seq<char>,
)
    requires
        abbreviates(tag, target),
        with_parser(languages, position_of(languages, tag, 0)) is None,
        via_alias(languages, filetype_aliases, tag) is None,
        with_parser(languages, position_of(languages, target, 0)) is Some,
    ensures
        resolved(languages, filetype_aliases, tag) == with_parser(languages, position_of(languages, target, 0)),
        resolved(languages, filetype_aliases, tag) matches Some(k) && languages[k].name@ == target,
{
    reveal_strlit("bash");
    reveal_strlit("c#");
    reveal_strlit("c++");
    reveal_strlit("c_sharp");
    reveal_strlit("cc");
    reveal_strlit("cpp");
    reveal_strlit("go");
    reveal_strlit("golang");
    reveal_strlit("hpp");
    reveal_strlit("htm");
    reveal_strlit("html");
    reveal_strlit("kotlin");
    reveal_strlit("kt");
    reveal_strlit("markdown");
    reveal_strlit("md");
    reveal_strlit("rs");
    reveal_strlit("rust");
    reveal_strlit("sh");
    reveal_strlit("shell");
    reveal_strlit("yaml");
    reveal_strlit("yml");
    reveal_strlit("zsh");
    lemma_fence_aliases_abbreviate();
    lemma_plain_tag("c#"@);
    lemma_plain_tag("c++"@);
    lemma_plain_tag("cc"@);
    lemma_plain_tag("golang"@);
    lemma_plain_tag("hpp"@);
    lemma_plain_tag("htm"@);
    lemma_plain_tag("kt"@);
    lemma_plain_tag("md"@);
    lemma_plain_tag("rs"@);
    lemma_plain_tag("sh"@);
    lemma_plain_tag("shell"@);
    lemma_plain_tag("yml"@);
    lemma_plain_tag("zsh"@);
    if tag == "c#"@ && target == "c_sharp"@ {
        assert(normalized(tag) == tag);
        assert(alias_target(fence_alias_table(), tag, 0) == Some(target));
    }
    if tag == "c++"@ && target == "cpp"@ {
        assert(normalized(tag) == tag);
        assert(alias_target(fence_alias_table(), tag, 0) == Some(target));
    }
    if tag == "cc"@ && target == "cpp"@ {
        assert(normalized(tag) == tag);
        assert(alias_target(fence_alias_table(), tag, 0) == Some(target));
    }
    if tag == "golang"@ && target == "go"@ {
        assert(normalized(tag) == tag);
        assert(alias_target(fence_alias_table(), tag, 0) == Some(target));
    }
    if tag == "hpp"@ && target == "cpp"@ {
        assert(normalized(tag) == tag);
        assert(alias_target(fence_alias_table(), tag, 0) == Some(target));
    }
    if tag == "htm"@ && target == "html"@ {
        assert(normalized(tag) == tag);
        assert(alias_target(fence_alias_table(), tag, 0) == Some(target));
    }
    if tag == "kt"@ && target == "kotlin"@ {
        assert(normalized(tag) == tag);
        assert(alias_target(fence_alias_table(), tag, 0) == Some(target));
    }
    if tag == "md"@ && target == "markdown"@ {
        assert(normalized(tag) == tag);
        assert(alias_target(fence_alias_table(), tag, 0) == Some(target));
    }
    if tag == "rs"@ && target == "rust"@ {
        assert(normalized(tag) == tag);
        assert(alias_target(fence_alias_table(), tag, 0) == Some(target));
    }
    if tag == "sh"@ && target == "bash"@ {
        assert(normalized(tag) == tag);
        assert(alias_target(fence_alias_table(), tag, 0) == Some(target));
    }
    if tag == "shell"@ && target == "bash"@ {
        assert(normalized(tag) == tag);
        assert(alias_target(fence_alias_table(), tag, 0) == Some(target));
    }
    if tag == "yml"@ && target == "yaml"@ {
        assert(normalized(tag) == tag);
        assert(alias_target(fence_alias_table(), tag, 0) == Some(target));
    }
    if tag == "zsh"@ && target == "bash"@ {
        assert(normalized(tag) == tag);
        assert(alias_target(fence_alias_table(), tag, 0) == Some(target));
    }
    lemma_position_of(languages, target, 0);
}

} // verus!

//! Reading the two nvim-treesitter Lua tables the language table is built
//! from: the parser table in `parsers.lua` and the filetype aliases in
//! `filetypes.lua`.
//!
//! Both files are formatted with StyLua, which preserves whatever layout it
//! is given, so an `install_info` may be written on one line, a value may be
//! double-quoted, a key may be bracketed, and a comment may sit at the end of
//! any line. Reading them through a real Lua parser takes all of that in.
//!
//! Unrecognised keys are a hard error rather than an ignored field:
//! `parsers.lua` gains keys from time to time, and finding out at the next
//! revision bump is much cheaper than finding out from a book that stopped
//! highlighting.
use vstd::prelude::*;
use vstd::utf8::*;

use crate::highlight::engine::{lex_less, str_less};
use crate::query::number::{parse_u32, parsed_u32};
use crate::registry_build::lua::{
    lua_parse, parse_lua, LastStatement, LuaChunk, LuaField, LuaStatement, LuaValue,
};
use crate::renderer::scan::filter::texts;
use crate::text::str_eq;

verus! {

broadcast use vstd::seq_lib::group_seq_properties;

/// One entry of `parsers.lua`.
#[derive(Debug, PartialEq)]
pub struct Language {
    pub name: String,
    /// `None` for query-only languages such as `ecma` and `html_tags`, which
    /// exist purely to be pulled in by a `; inherits:` modeline.
    ///
    /// This is a meaningful value, not a parse failure, which is exactly why
    /// the parsing has to be exact.
    pub install: Option<Install>,
    /// Languages whose *queries* this language's queries depend on.
    pub requires: Vec<String>,
    pub tier: u8,
    /// A Neovim filetype declared inline, as `powershell` does.
    pub filetype: Option<String>,
}

/// The `install_info` sub-table: where the grammar comes from.
#[derive(Debug, PartialEq)]
pub struct Install {
    pub url: String,
    pub revision: String,
    pub branch: Option<String>,
    /// Sub-directory of the repo holding `grammar.js`, for monorepos.
    pub location: Option<String>,
    /// The repo ships no pre-generated `src/parser.c`; it must be generated.
    pub generate: bool,
}

/// One filetype alias: `alias` is what a user writes, `language` is the
/// nvim-treesitter language it resolves to.
#[derive(Debug, PartialEq)]
pub struct Alias {
    pub alias: String,
    pub language: String,
}

/// An `install_info` as plain values: url, revision, branch, location and
/// whether the parser is generated.
pub type InstallView = (Seq<char>, Seq<char>, Option<Seq<char>>, Option<Seq<char>>, bool);

/// A language as plain values: name, install, requires, tier and filetype.
pub type LanguageView = (Seq<char>, Option<InstallView>, Seq<Seq<char>>, u8, Option<Seq<char>>);

/// An alias as plain values: the alias and the language.
pub type AliasView = (Seq<char>, Seq<char>);

/// An optional string as a plain value.
pub open spec fn opt_text(o: Option<String>) -> Option<Seq<char>> {
    match o {
        Some(s) => Some(s@),
        None => None,
    }
}

impl View for Install {
    type V = InstallView;

    open spec fn view(&self) -> InstallView {
        (self.url@, self.revision@, opt_text(self.branch), opt_text(self.location), self.generate)
    }
}

impl View for Language {
    type V = LanguageView;

    open spec fn view(&self) -> LanguageView {
        (
            self.name@,
            match self.install {
                Some(i) => Some(i@),
                None => None,
            },
            texts(self.requires@),
            self.tier,
            opt_text(self.filetype),
        )
    }
}

impl View for Alias {
    type V = AliasView;

    open spec fn view(&self) -> AliasView {
        (self.alias@, self.language@)
    }
}

/// Languages as plain values.
pub open spec fn languages_view(v: Seq<Language>) -> Seq<LanguageView> {
    v.map_values(|l: Language| l@)
}

/// Aliases as plain values.
pub open spec fn aliases_view(v: Seq<Alias>) -> Seq<AliasView> {
    v.map_values(|a: Alias| a@)
}

// ---------------------------------------------------------------------------
// Values

/// The fields of a table constructor.
pub open spec fn table_fields(v: LuaValue) -> Option<Seq<LuaField>> {
    match v {
        LuaValue::Table(fields) => Some(fields@),
        _ => None,
    }
}

/// The contents of a string literal.
pub open spec fn text_of(v: LuaValue) -> Option<Seq<char>> {
    match v {
        LuaValue::Str(s) => Some(s@),
        _ => None,
    }
}

/// The value of `true` or `false`.
pub open spec fn bool_of(v: LuaValue) -> Option<bool> {
    match v {
        LuaValue::Bool(b) => Some(b),
        _ => None,
    }
}

/// What `str::parse::<u8>` gives.
pub open spec fn parsed_u8(s: Seq<char>) -> Option<u8> {
    match parsed_u32(s) {
        Some(n) => if n <= 255 {
            Some(n as u8)
        } else {
            None
        },
        None => None,
    }
}

/// The value of a number literal that is a `u8` written in decimal.
pub open spec fn tier_of(v: LuaValue) -> Option<u8> {
    match v {
        LuaValue::Number(text) => parsed_u8(text@),
        _ => None,
    }
}

/// The first `n` fields of a Lua sequence of strings, `{ 'a', 'b' }`.
pub open spec fn texts_upto(fields: Seq<LuaField>, n: int) -> Option<Seq<Seq<char>>>
    decreases n,
{
    if n <= 0 {
        Some(seq![])
    } else {
        match texts_upto(fields, n - 1) {
            None => None,
            Some(prev) => match fields[n - 1] {
                LuaField::Positional(v) => match text_of(v) {
                    Some(s) => Some(prev.push(s)),
                    None => None,
                },
                _ => None,
            },
        }
    }
}

/// The strings of a Lua sequence of strings.
pub open spec fn text_list_of(v: LuaValue) -> Option<Seq<Seq<char>>> {
    match table_fields(v) {
        Some(fields) => texts_upto(fields, fields.len() as int),
        None => None,
    }
}

/// A field as a `key = value` entry; `what` names the table in errors.
pub open spec fn entry_of(field: LuaField, what: Seq<char>) -> Result<(Seq<char>, LuaValue), Seq<char>> {
    match field {
        LuaField::Named { key, value } => Ok((key@, value)),
        LuaField::Bracketed { key, value } => match text_of(key) {
            Some(k) => Ok((k, value)),
            None => Err(what + " has a non-string bracketed key"@),
        },
        _ => Err(what + " has a field with no key"@),
    }
}

/// The first `n` fields of a table as entries, or the first field that is
/// not one.
pub open spec fn entries_upto(fields: Seq<LuaField>, n: int, what: Seq<char>) -> Result<
    Seq<(Seq<char>, LuaValue)>,
    Seq<char>,
>
    decreases n,
{
    if n <= 0 {
        Ok(seq![])
    } else {
        match entries_upto(fields, n - 1, what) {
            Err(e) => Err(e),
            Ok(prev) => match entry_of(fields[n - 1], what) {
                Err(e) => Err(e),
                Ok(entry) => Ok(prev.push(entry)),
            },
        }
    }
}

/// The `key = value` fields of a table, in source order.
pub open spec fn entries_of(fields: Seq<LuaField>, what: Seq<char>) -> Result<
    Seq<(Seq<char>, LuaValue)>,
    Seq<char>,
> {
    entries_upto(fields, fields.len() as int, what)
}

/// The fields of a table constructor.
fn table_of(v: &LuaValue) -> (r: Option<&Vec<LuaField>>)
    ensures
        match table_fields(*v) {
            Some(fields) => r is Some && r->0@ == fields,
            None => r is None,
        },
{
    match v {
        LuaValue::Table(fields) => Some(fields),
        _ => None,
    }
}

/// The contents of a string literal.
fn string(v: &LuaValue) -> (r: Option<String>)
    ensures
        opt_text(r) == text_of(*v),
{
    match v {
        LuaValue::Str(s) => Some(String::from_str(s.as_str())),
        _ => None,
    }
}

/// The value of `true` or `false`.
fn boolean(v: &LuaValue) -> (r: Option<bool>)
    ensures
        r == bool_of(*v),
{
    match v {
        LuaValue::Bool(b) => Some(*b),
        _ => None,
    }
}

/// The value of a number literal that is a `u8` written in decimal.
fn number(v: &LuaValue) -> (r: Option<u8>)
    ensures
        r == tier_of(*v),
{
    match v {
        LuaValue::Number(text) => match parse_u32(text.as_str()) {
            Some(n) => if n <= 255 {
                Some(n as u8)
            } else {
                None
            },
            None => None,
        },
        _ => None,
    }
}

/// A Lua sequence of strings, `{ 'a', 'b' }`.
fn string_list(v: &LuaValue) -> (r: Option<Vec<String>>)
    ensures
        match text_list_of(*v) {
            Some(list) => r is Some && texts(r->0@) == list,
            None => r is None,
        },
{
    let fields = match table_of(v) {
        Some(fields) => fields,
        None => {
            return None;
        },
    };
    let mut out: Vec<String> = Vec::new();
    let mut i: usize = 0;
    while i < fields.len()
        invariant
            i <= fields@.len(),
            table_fields(*v) == Some(fields@),
            texts_upto(fields@, i as int) == Some(texts(out@)),
        decreases fields@.len() - i,
    {
        match &fields[i] {
            LuaField::Positional(value) => match string(value) {
                Some(s) => {
                    let ghost before = texts(out@);
                    out.push(s);
                    assert(texts(out@) =~= before.push(s@));
                },
                None => {
                    assert(texts_upto(fields@, i as int + 1) is None);
                    proof {
                        lemma_texts_stay_none(fields@, i as int + 1, fields@.len() as int);
                    }
                    return None;
                },
            },
            _ => {
                assert(texts_upto(fields@, i as int + 1) is None);
                proof {
                    lemma_texts_stay_none(fields@, i as int + 1, fields@.len() as int);
                }
                return None;
            },
        }
        i += 1;
    }
    Some(out)
}

/// Once a prefix of a list is not all strings, no longer prefix is.
proof fn lemma_texts_stay_none(fields: Seq<LuaField>, n: int, m: int)
    requires
        n <= m,
        texts_upto(fields, n) is None,
    ensures
        texts_upto(fields, m) is None,
    decreases m - n,
{
    if n < m {
        lemma_texts_stay_none(fields, n, m - 1);
    }
}

/// Once a prefix of a table has a bad field, every longer prefix reports it.
proof fn lemma_entries_stay_err(fields: Seq<LuaField>, n: int, m: int, what: Seq<char>)
    requires
        0 <= n <= m,
        entries_upto(fields, n, what) is Err,
    ensures
        entries_upto(fields, m, what) == entries_upto(fields, n, what),
    decreases m - n,
{
    if n < m {
        lemma_entries_stay_err(fields, n, m - 1, what);
    }
}

/// The `key = value` fields of a table, in source order.
///
/// Both `name = ...` and `['name'] = ...` are accepted; `vim.inspect` emits
/// the bracketed form for any key that is not a bare identifier. A positional
/// field would mean the file is not the shape we think it is, so it is an
/// error rather than a skip.
fn entries<'a>(fields: &'a Vec<LuaField>, what: &str) -> (r: Result<
    Vec<(String, &'a LuaValue)>,
    String,
>)
    ensures
        match entries_of(fields@, what@) {
            Ok(es) => r is Ok && r->Ok_0@.len() == es.len() && forall|k: int|
                0 <= k < es.len() ==> (#[trigger] r->Ok_0@[k]).0@ == es[k].0 && *r->Ok_0@[k].1
                    == es[k].1,
            Err(e) => r is Err && r->Err_0@ == e,
        },
{
    let mut out: Vec<(String, &'a LuaValue)> = Vec::new();
    let mut i: usize = 0;
    while i < fields.len()
        invariant
            i <= fields@.len(),
            entries_upto(fields@, i as int, what@) is Ok,
            ({
                let es = entries_upto(fields@, i as int, what@)->Ok_0;
                &&& out@.len() == es.len()
                &&& forall|k: int|
                    0 <= k < es.len() ==> (#[trigger] out@[k]).0@ == es[k].0 && *out@[k].1 == es[k].1
            }),
        decreases fields@.len() - i,
    {
        let ghost prev = entries_upto(fields@, i as int, what@)->Ok_0;
        match &fields[i] {
            LuaField::Named { key, value } => {
                out.push((String::from_str(key.as_str()), value));
            },
            LuaField::Bracketed { key, value } => match string(key) {
                Some(k) => {
                    out.push((k, value));
                },
                None => {
                    let mut e = String::from_str(what);
                    e.append(" has a non-string bracketed key");
                    assert(entry_of(fields@[i as int], what@) == Err::<(Seq<char>, LuaValue), Seq<char>>(e@));
                    assert(entries_upto(fields@, i + 1, what@) == Err::<Seq<(Seq<char>, LuaValue)>, Seq<char>>(e@));
                    proof {
                        lemma_entries_stay_err(fields@, i + 1, fields@.len() as int, what@);
                    }
                    return Err(e);
                },
            },
            _ => {
                let mut e = String::from_str(what);
                e.append(" has a field with no key");
                assert(entry_of(fields@[i as int], what@) == Err::<(Seq<char>, LuaValue), Seq<char>>(e@));
                assert(entries_upto(fields@, i + 1, what@) == Err::<Seq<(Seq<char>, LuaValue)>, Seq<char>>(e@));
                proof {
                    lemma_entries_stay_err(fields@, i + 1, fields@.len() as int, what@);
                }
                return Err(e);
            },
        }
        assert forall|k: int|
            0 <= k < prev.len() + 1 implies (#[trigger] out@[k]).0@ == entries_upto(
            fields@,
            i + 1,
            what@,
        )->Ok_0[k].0 && *out@[k].1 == entries_upto(fields@, i + 1, what@)->Ok_0[k].1 by {
            if k < prev.len() {
                assert(entries_upto(fields@, i + 1, what@)->Ok_0[k] == prev[k]);
            }
        }
        i += 1;
    }
    Ok(out)
}

// ---------------------------------------------------------------------------
// `install_info`

/// What an `install_info` has given so far: url, revision, branch, location
/// and whether the parser is generated.
pub type InstallFields = (
    Option<Seq<char>>,
    Option<Seq<char>>,
    Option<Seq<char>>,
    Option<Seq<char>>,
    bool,
);

/// Keys read from an `install_info`. Anything else is an error.
pub open spec fn install_key(k: Seq<char>) -> bool {
    k == "url"@ || k == "revision"@ || k == "branch"@ || k == "location"@ || k == "generate"@
}

/// The error for an `install_info` key that is not read.
pub open spec fn unknown_install_key(k: Seq<char>) -> Seq<char> {
    "unrecognised `install_info` key `"@ + k
        + "`. nvim-treesitter's schema also defines `path`, `generate_from_json` and `queries`, none of which we implement -- handle it rather than ignoring it"@
}

/// Reading one `key = value` entry of an `install_info`.
pub open spec fn install_step(acc: InstallFields, key: Seq<char>, value: LuaValue) -> Result<
    InstallFields,
    Seq<char>,
> {
    if !install_key(key) {
        Err(unknown_install_key(key))
    } else if key == "url"@ {
        match text_of(value) {
            Some(s) => Ok((Some(s), acc.1, acc.2, acc.3, acc.4)),
            None => Err("`url` is not a string"@),
        }
    } else if key == "revision"@ {
        match text_of(value) {
            Some(s) => Ok((acc.0, Some(s), acc.2, acc.3, acc.4)),
            None => Err("`revision` is not a string"@),
        }
    } else if key == "branch"@ {
        match text_of(value) {
            Some(s) => Ok((acc.0, acc.1, Some(s), acc.3, acc.4)),
            None => Err("`branch` is not a string"@),
        }
    } else if key == "location"@ {
        match text_of(value) {
            Some(s) => Ok((acc.0, acc.1, acc.2, Some(s), acc.4)),
            None => Err("`location` is not a string"@),
        }
    } else {
        match bool_of(value) {
            Some(b) => Ok((acc.0, acc.1, acc.2, acc.3, b)),
            None => Err("`generate` is not a boolean"@),
        }
    }
}

/// Reading the first `n` entries of an `install_info`.
pub open spec fn install_fold(es: Seq<(Seq<char>, LuaValue)>, n: int) -> Result<
    InstallFields,
    Seq<char>,
>
    decreases n,
{
    if n <= 0 {
        Ok((None, None, None, None, false))
    } else {
        match install_fold(es, n - 1) {
            Err(e) => Err(e),
            Ok(acc) => install_step(acc, es[n - 1].0, es[n - 1].1),
        }
    }
}

/// `s` with every trailing `.git` removed.
pub open spec fn without_git(s: Seq<char>) -> Seq<char>
    decreases s.len(),
{
    if s.len() >= 4 && s.subrange(s.len() - 4, s.len() as int) == seq!['.', 'g', 'i', 't'] {
        without_git(s.take(s.len() - 4))
    } else {
        s
    }
}

/// An `install_info` table: url and revision must be there, and the url
/// loses any `.git` suffix.
pub open spec fn install_of(v: LuaValue) -> Result<InstallView, Seq<char>> {
    match table_fields(v) {
        None => Err("`install_info` is not a table"@),
        Some(fields) => match entries_of(fields, "install_info"@) {
            Err(e) => Err(e),
            Ok(es) => match install_fold(es, es.len() as int) {
                Err(e) => Err(e),
                Ok(acc) => match acc.0 {
                    None => Err("`install_info` has no url"@),
                    Some(url) => match acc.1 {
                        None => Err("`install_info` has no revision"@),
                        Some(revision) => Ok((without_git(url), revision, acc.2, acc.3, acc.4)),
                    },
                },
            },
        },
    }
}

proof fn lemma_install_stays_err(es: Seq<(Seq<char>, LuaValue)>, n: int, m: int)
    requires
        n <= m,
        install_fold(es, n) is Err,
    ensures
        install_fold(es, m) == install_fold(es, n),
    decreases m - n,
{
    if n < m {
        lemma_install_stays_err(es, n, m - 1);
    }
}

/// The entries read from a table, as plain values.
pub open spec fn entries_view(es: Seq<(String, &LuaValue)>) -> Seq<(Seq<char>, LuaValue)> {
    es.map_values(|e: (String, &LuaValue)| (e.0@, *e.1))
}

/// `url` with every trailing `.git` removed.
fn trim_git(url: &str) -> (r: String)
    ensures
        r@ == without_git(url@),
{
    let chars = crate::text::chars_of(url);
    let mut end = chars.len();
    while end >= 4 && chars[end - 4] == '.' && chars[end - 3] == 'g' && chars[end - 2] == 'i'
        && chars[end - 1] == 't'
        invariant
            end <= chars@.len(),
            without_git(url@) == without_git(chars@.take(end as int)),
            chars@ == url@,
        decreases end,
    {
        let ghost t = chars@.take(end as int);
        assert(t.subrange(t.len() - 4, t.len() as int) =~= seq!['.', 'g', 'i', 't']);
        assert(t.take(t.len() - 4) =~= chars@.take(end - 4));
        end -= 4;
    }
    proof {
        let t = chars@.take(end as int);
        if t.len() >= 4 && t.subrange(t.len() - 4, t.len() as int) == seq!['.', 'g', 'i', 't'] {
            assert(t.subrange(t.len() - 4, t.len() as int)[0] == chars@[end - 4]);
            assert(t.subrange(t.len() - 4, t.len() as int)[1] == chars@[end - 3]);
            assert(t.subrange(t.len() - 4, t.len() as int)[2] == chars@[end - 2]);
            assert(t.subrange(t.len() - 4, t.len() as int)[3] == chars@[end - 1]);
        }
    }
    assert(chars@.take(chars@.len() as int) =~= chars@);
    crate::text::string_of(chars.as_slice(), 0, end)
}

/// Read an `install_info` table.
fn parse_install(value: &LuaValue) -> (r: Result<Install, String>)
    ensures
        match install_of(*value) {
            Ok(i) => r is Ok && r->Ok_0@ == i,
            Err(e) => r is Err && r->Err_0@ == e,
        },
{
    let table = match table_of(value) {
        Some(table) => table,
        None => {
            return Err(String::from_str("`install_info` is not a table"));
        },
    };
    let es = match entries(table, "install_info") {
        Ok(es) => es,
        Err(e) => {
            return Err(e);
        },
    };
    let ghost ev = entries_upto(table@, table@.len() as int, "install_info"@)->Ok_0;
    assert(entries_view(es@) =~= ev);
    assert(entries_of(table@, "install_info"@) == Ok::<Seq<(Seq<char>, LuaValue)>, Seq<char>>(ev));
    let mut url: Option<String> = None;
    let mut revision: Option<String> = None;
    let mut branch: Option<String> = None;
    let mut location: Option<String> = None;
    let mut generate = false;
    let mut k: usize = 0;
    while k < es.len()
        invariant
            k <= es@.len(),
            ev == entries_view(es@),
            table_fields(*value) == Some(table@),
            entries_of(table@, "install_info"@) == Ok::<Seq<(Seq<char>, LuaValue)>, Seq<char>>(ev),
            install_fold(ev, k as int) == Ok::<InstallFields, Seq<char>>(
                (opt_text(url), opt_text(revision), opt_text(branch), opt_text(location), generate),
            ),
        decreases es@.len() - k,
    {
        let key = es[k].0.as_str();
        let v = es[k].1;
        assert(ev[k as int] == (key@, *v));
        if !(str_eq(key, "url") || str_eq(key, "revision") || str_eq(key, "branch") || str_eq(
            key,
            "location",
        ) || str_eq(key, "generate")) {
            let mut e = String::from_str("unrecognised `install_info` key `");
            e.append(key);
            e.append(
                "`. nvim-treesitter's schema also defines `path`, `generate_from_json` and `queries`, none of which we implement -- handle it rather than ignoring it",
            );
            proof {
                lemma_install_stays_err(ev, k + 1, ev.len() as int);
            }
            return Err(e);
        }
        if str_eq(key, "url") {
            match string(v) {
                Some(s) => {
                    url = Some(s);
                },
                None => {
                    proof {
                        lemma_install_stays_err(ev, k + 1, ev.len() as int);
                    }
                    return Err(String::from_str("`url` is not a string"));
                },
            }
        } else if str_eq(key, "revision") {
            match string(v) {
                Some(s) => {
                    revision = Some(s);
                },
                None => {
                    proof {
                        lemma_install_stays_err(ev, k + 1, ev.len() as int);
                    }
                    return Err(String::from_str("`revision` is not a string"));
                },
            }
        } else if str_eq(key, "branch") {
            match string(v) {
                Some(s) => {
                    branch = Some(s);
                },
                None => {
                    proof {
                        lemma_install_stays_err(ev, k + 1, ev.len() as int);
                    }
                    return Err(String::from_str("`branch` is not a string"));
                },
            }
        } else if str_eq(key, "location") {
            match string(v) {
                Some(s) => {
                    location = Some(s);
                },
                None => {
                    proof {
                        lemma_install_stays_err(ev, k + 1, ev.len() as int);
                    }
                    return Err(String::from_str("`location` is not a string"));
                },
            }
        } else {
            match boolean(v) {
                Some(b) => {
                    generate = b;
                },
                None => {
                    proof {
                        lemma_install_stays_err(ev, k + 1, ev.len() as int);
                    }
                    return Err(String::from_str("`generate` is not a boolean"));
                },
            }
        }
        k += 1;
    }
    let url = match url {
        Some(url) => url,
        None => {
            return Err(String::from_str("`install_info` has no url"));
        },
    };
    let revision = match revision {
        Some(revision) => revision,
        None => {
            return Err(String::from_str("`install_info` has no revision"));
        },
    };
    Ok(Install { url: trim_git(url.as_str()), revision, branch, location, generate })
}

// ---------------------------------------------------------------------------
// Languages

/// Keys read from a language entry. Anything else is an error; the last four
/// are prose for nvim-treesitter's own README.
pub open spec fn language_key(k: Seq<char>) -> bool {
    k == "install_info"@ || k == "requires"@ || k == "tier"@ || k == "filetype"@ || k
        == "readme_name"@ || k == "readme_note"@ || k == "maintainers"@ || k == "experimental"@
}

/// The error for a language key that is not read.
pub open spec fn unknown_language_key(k: Seq<char>) -> Seq<char> {
    "unrecognised key `"@ + k
        + "`; if nvim-treesitter added it, decide whether we need it and add it to LANGUAGE_KEYS"@
}

/// Reading one `key = value` entry of a language.
pub open spec fn language_step(l: LanguageView, key: Seq<char>, value: LuaValue) -> Result<
    LanguageView,
    Seq<char>,
> {
    if !language_key(key) {
        Err(unknown_language_key(key))
    } else if key == "install_info"@ {
        match install_of(value) {
            Ok(i) => Ok((l.0, Some(i), l.2, l.3, l.4)),
            Err(e) => Err(e),
        }
    } else if key == "requires"@ {
        match text_list_of(value) {
            Some(list) => Ok((l.0, l.1, list, l.3, l.4)),
            None => Err("`requires` is not a string list"@),
        }
    } else if key == "tier"@ {
        match tier_of(value) {
            Some(t) => Ok((l.0, l.1, l.2, t, l.4)),
            None => Err("`tier` is not a number"@),
        }
    } else if key == "filetype"@ {
        match text_of(value) {
            Some(f) => Ok((l.0, l.1, l.2, l.3, Some(f))),
            None => Err("`filetype` is not a string"@),
        }
    } else {
        Ok(l)
    }
}

/// Reading the first `n` entries of language `name`.
pub open spec fn language_fold(es: Seq<(Seq<char>, LuaValue)>, n: int, name: Seq<char>) -> Result<
    LanguageView,
    Seq<char>,
>
    decreases n,
{
    if n <= 0 {
        Ok((name, None, seq![], 2u8, None))
    } else {
        match language_fold(es, n - 1, name) {
            Err(e) => Err(e),
            Ok(l) => language_step(l, es[n - 1].0, es[n - 1].1),
        }
    }
}

/// The entry for language `name`: a table of known keys; tier 2 and no
/// install, requirements or filetype unless it says otherwise.
pub open spec fn language_of(name: Seq<char>, v: LuaValue) -> Result<LanguageView, Seq<char>> {
    match table_fields(v) {
        None => Err("expected a table"@),
        Some(fields) => match entries_of(fields, name) {
            Err(e) => Err(e),
            Ok(es) => language_fold(es, es.len() as int, name),
        },
    }
}

proof fn lemma_language_stays_err(es: Seq<(Seq<char>, LuaValue)>, n: int, m: int, name: Seq<char>)
    requires
        n <= m,
        language_fold(es, n, name) is Err,
    ensures
        language_fold(es, m, name) == language_fold(es, n, name),
    decreases m - n,
{
    if n < m {
        lemma_language_stays_err(es, n, m - 1, name);
    }
}

/// Read the entry for language `name`.
fn parse_language(name: &str, value: &LuaValue) -> (r: Result<Language, String>)
    ensures
        match language_of(name@, *value) {
            Ok(l) => r is Ok && r->Ok_0@ == l,
            Err(e) => r is Err && r->Err_0@ == e,
        },
{
    let table = match table_of(value) {
        Some(table) => table,
        None => {
            return Err(String::from_str("expected a table"));
        },
    };
    let es = match entries(table, name) {
        Ok(es) => es,
        Err(e) => {
            return Err(e);
        },
    };
    let ghost ev = entries_upto(table@, table@.len() as int, name@)->Ok_0;
    assert(entries_view(es@) =~= ev);
    assert(entries_of(table@, name@) == Ok::<Seq<(Seq<char>, LuaValue)>, Seq<char>>(ev));
    let mut language = Language {
        name: String::from_str(name),
        install: None,
        requires: Vec::new(),
        tier: 2,
        filetype: None,
    };
    assert(texts(language.requires@) =~= seq![]);
    let mut k: usize = 0;
    while k < es.len()
        invariant
            k <= es@.len(),
            ev == entries_view(es@),
            table_fields(*value) == Some(table@),
            entries_of(table@, name@) == Ok::<Seq<(Seq<char>, LuaValue)>, Seq<char>>(ev),
            language_fold(ev, k as int, name@) == Ok::<LanguageView, Seq<char>>(language@),
        decreases es@.len() - k,
    {
        let key = es[k].0.as_str();
        let v = es[k].1;
        assert(ev[k as int] == (key@, *v));
        if !(str_eq(key, "install_info") || str_eq(key, "requires") || str_eq(key, "tier")
            || str_eq(key, "filetype") || str_eq(key, "readme_name") || str_eq(key, "readme_note")
            || str_eq(key, "maintainers") || str_eq(key, "experimental")) {
            let mut e = String::from_str("unrecognised key `");
            e.append(key);
            e.append(
                "`; if nvim-treesitter added it, decide whether we need it and add it to LANGUAGE_KEYS",
            );
            proof {
                lemma_language_stays_err(ev, k + 1, ev.len() as int, name@);
            }
            return Err(e);
        }
        if str_eq(key, "install_info") {
            match parse_install(v) {
                Ok(install) => {
                    language.install = Some(install);
                },
                Err(e) => {
                    proof {
                        lemma_language_stays_err(ev, k + 1, ev.len() as int, name@);
                    }
                    return Err(e);
                },
            }
        } else if str_eq(key, "requires") {
            match string_list(v) {
                Some(list) => {
                    language.requires = list;
                },
                None => {
                    proof {
                        lemma_language_stays_err(ev, k + 1, ev.len() as int, name@);
                    }
                    return Err(String::from_str("`requires` is not a string list"));
                },
            }
        } else if str_eq(key, "tier") {
            match number(v) {
                Some(t) => {
                    language.tier = t;
                },
                None => {
                    proof {
                        lemma_language_stays_err(ev, k + 1, ev.len() as int, name@);
                    }
                    return Err(String::from_str("`tier` is not a number"));
                },
            }
        } else if str_eq(key, "filetype") {
            match string(v) {
                Some(f) => {
                    language.filetype = Some(f);
                },
                None => {
                    proof {
                        lemma_language_stays_err(ev, k + 1, ev.len() as int, name@);
                    }
                    return Err(String::from_str("`filetype` is not a string"));
                },
            }
        }
        k += 1;
    }
    Ok(language)
}

/// Reading the first `n` entries of `parsers.lua`, each a language.
pub open spec fn languages_fold(es: Seq<(Seq<char>, LuaValue)>, n: int) -> Result<
    Seq<LanguageView>,
    Seq<char>,
>
    decreases n,
{
    if n <= 0 {
        Ok(seq![])
    } else {
        match languages_fold(es, n - 1) {
            Err(e) => Err(e),
            Ok(prev) => match language_of(es[n - 1].0, es[n - 1].1) {
                Err(e) => Err("invalid entry for `"@ + es[n - 1].0 + "`: "@ + e),
                Ok(l) => Ok(prev.push(l)),
            },
        }
    }
}

/// Where `x` goes among languages sorted by name, from `i` on: before the
/// first whose name sorts after its own, so equal names keep their order.
pub open spec fn name_position(sorted: Seq<LanguageView>, x: LanguageView, i: int) -> int
    decreases sorted.len() - i,
{
    if i < 0 || i >= sorted.len() {
        sorted.len() as int
    } else if text_less(x.0, sorted[i].0) {
        i
    } else {
        name_position(sorted, x, i + 1)
    }
}

/// The languages stably sorted by name.
pub open spec fn by_name(ls: Seq<LanguageView>) -> Seq<LanguageView>
    decreases ls.len(),
{
    if ls.len() == 0 {
        seq![]
    } else {
        let sorted = by_name(ls.drop_last());
        sorted.insert(name_position(sorted, ls.last(), 0), ls.last())
    }
}

/// The language table `parsers.lua` returns, sorted by name.
pub open spec fn languages_of(chunk: LuaChunk) -> Result<Seq<LanguageView>, Seq<char>> {
    match chunk.last {
        LastStatement::Other => Err("parsers.lua does not end in a `return`"@),
        LastStatement::Return(values) => match (if values@.len() > 0 {
            table_fields(values@[0])
        } else {
            None
        }) {
            None => Err("parsers.lua does not return a table"@),
            Some(fields) => match entries_of(fields, "parsers.lua"@) {
                Err(e) => Err(e),
                Ok(es) => languages_table(es),
            },
        },
    }
}

/// The language table the entries of `parsers.lua` describe, sorted by name.
pub open spec fn languages_table(es: Seq<(Seq<char>, LuaValue)>) -> Result<
    Seq<LanguageView>,
    Seq<char>,
> {
    match languages_fold(es, es.len() as int) {
        Err(e) => Err(e),
        Ok(ls) => if ls.len() == 0 {
            Err("no languages found in parsers.lua"@)
        } else {
            Ok(by_name(ls))
        },
    }
}

/// What reading `parsers.lua` gives.
pub open spec fn parsed_languages(source: Seq<char>) -> Result<Seq<LanguageView>, Seq<char>> {
    match lua_parse(source) {
        Err(first) => Err("parsers.lua is not valid Lua: "@ + first),
        Ok(chunk) => languages_of(chunk),
    }
}

proof fn lemma_languages_stay_err(es: Seq<(Seq<char>, LuaValue)>, n: int, m: int)
    requires
        n <= m,
        languages_fold(es, n) is Err,
    ensures
        languages_fold(es, m) == languages_fold(es, n),
    decreases m - n,
{
    if n < m {
        lemma_languages_stay_err(es, n, m - 1);
    }
}

/// Whether `a` sorts before `b`, comparing their UTF-8 bytes as `str`'s
/// order does.
pub open spec fn text_less(a: Seq<char>, b: Seq<char>) -> bool {
    lex_less(encode_utf8(a), encode_utf8(b))
}

/// Of two byte strings, at most one sorts before the other.
proof fn lemma_lex_asymmetric(a: Seq<u8>, b: Seq<u8>)
    ensures
        lex_less(a, b) ==> !lex_less(b, a),
    decreases a.len(),
{
    if a.len() > 0 && b.len() > 0 && a[0] == b[0] {
        lemma_lex_asymmetric(a.drop_first(), b.drop_first());
    }
}

proof fn lemma_name_position(sorted: Seq<LanguageView>, x: LanguageView, i: int)
    requires
        0 <= i <= sorted.len(),
        name_position(sorted, x, 0) == name_position(sorted, x, i),
        forall|k: int| 0 <= k < i ==> !text_less(x.0, #[trigger] sorted[k].0),
    ensures
        ({
            let p = name_position(sorted, x, 0);
            &&& 0 <= p <= sorted.len()
            &&& forall|k: int| 0 <= k < p ==> !text_less(x.0, #[trigger] sorted[k].0)
            &&& p < sorted.len() ==> text_less(x.0, sorted[p].0)
        }),
    decreases sorted.len() - i,
{
    if i < sorted.len() && !text_less(x.0, sorted[i].0) {
        lemma_name_position(sorted, x, i + 1);
    }
}

/// Whether no name sorts before the one in front of it.
pub open spec fn names_ascend(ls: Seq<LanguageView>) -> bool {
    forall|i: int| 0 <= i < ls.len() - 1 ==> !text_less(#[trigger] ls[i + 1].0, ls[i].0)
}

/// The language table comes out sorted by name, every language kept: no
/// name sorts before the one in front of it.
pub proof fn lemma_languages_sorted(ls: Seq<LanguageView>)
    ensures
        names_ascend(by_name(ls)),
        by_name(ls).len() == ls.len(),
    decreases ls.len(),
{
    if ls.len() > 0 {
        lemma_languages_sorted(ls.drop_last());
        let sorted = by_name(ls.drop_last());
        let x = ls.last();
        lemma_name_position(sorted, x, 0);
        let p = name_position(sorted, x, 0);
        let next = sorted.insert(p, x);
        assert forall|i: int| 0 <= i < next.len() - 1 implies !text_less(
            #[trigger] next[i + 1].0,
            next[i].0,
        ) by {
            if i + 1 < p {
                assert(next[i] == sorted[i] && next[i + 1] == sorted[i + 1]);
            } else if i + 1 == p {
                assert(next[i] == sorted[i] && next[i + 1] == x);
            } else if i == p {
                assert(next[i] == x && next[i + 1] == sorted[p]);
                lemma_lex_asymmetric(encode_utf8(x.0), encode_utf8(sorted[p].0));
            } else {
                let j = i - 1;
                assert(next[i] == sorted[j] && next[i + 1] == sorted[j + 1]);
            }
        }
    }
}

proof fn lemma_alias_position(sorted: Seq<AliasView>, x: AliasView, i: int)
    requires
        0 <= i <= sorted.len(),
        alias_position(sorted, x, 0) == alias_position(sorted, x, i),
        forall|k: int| 0 <= k < i ==> !text_less(x.0, #[trigger] sorted[k].0),
    ensures
        ({
            let p = alias_position(sorted, x, 0);
            &&& 0 <= p <= sorted.len()
            &&& forall|k: int| 0 <= k < p ==> !text_less(x.0, #[trigger] sorted[k].0)
            &&& p < sorted.len() ==> text_less(x.0, sorted[p].0)
        }),
    decreases sorted.len() - i,
{
    if i < sorted.len() && !text_less(x.0, sorted[i].0) {
        lemma_alias_position(sorted, x, i + 1);
    }
}

/// Whether no alias sorts before the one in front of it.
pub open spec fn aliases_ascend(a: Seq<AliasView>) -> bool {
    forall|i: int| 0 <= i < a.len() - 1 ==> !text_less(#[trigger] a[i + 1].0, a[i].0)
}

/// The alias table comes out sorted by alias, every alias kept.
pub proof fn lemma_aliases_sorted(a: Seq<AliasView>)
    ensures
        aliases_ascend(by_alias(a)),
        by_alias(a).len() == a.len(),
    decreases a.len(),
{
    if a.len() > 0 {
        lemma_aliases_sorted(a.drop_last());
        let sorted = by_alias(a.drop_last());
        let x = a.last();
        lemma_alias_position(sorted, x, 0);
        let p = alias_position(sorted, x, 0);
        let next = sorted.insert(p, x);
        assert forall|i: int| 0 <= i < next.len() - 1 implies !text_less(
            #[trigger] next[i + 1].0,
            next[i].0,
        ) by {
            if i + 1 < p {
                assert(next[i] == sorted[i] && next[i + 1] == sorted[i + 1]);
            } else if i + 1 == p {
                assert(next[i] == sorted[i] && next[i + 1] == x);
            } else if i == p {
                assert(next[i] == x && next[i + 1] == sorted[p]);
                lemma_lex_asymmetric(encode_utf8(x.0), encode_utf8(sorted[p].0));
            } else {
                let j = i - 1;
                assert(next[i] == sorted[j] && next[i + 1] == sorted[j + 1]);
            }
        }
    }
}

/// Sort languages by name, keeping the order of equal names.
fn sort_by_name(languages: Vec<Language>) -> (r: Vec<Language>)
    ensures
        languages_view(r@) == by_name(languages_view(languages@)),
{
    let ghost original = languages_view(languages@);
    let mut rest = languages;
    let mut sorted: Vec<Language> = Vec::new();
    let ghost mut k: int = 0;
    assert(original.take(0) =~= seq![]);
    while rest.len() > 0
        invariant
            0 <= k,
            k + rest@.len() == original.len(),
            languages_view(rest@) == original.skip(k),
            languages_view(sorted@) == by_name(original.take(k)),
        decreases rest@.len(),
    {
        let ghost sv = languages_view(sorted@);
        let x = rest.remove(0);
        assert(x@ == original[k]) by {
            assert(languages_view(rest@.insert(0, x))[0] == x@);
        }
        assert(languages_view(rest@) =~= original.skip(k + 1));
        let mut i: usize = 0;
        while i < sorted.len() && !str_less(x.name.as_str(), sorted[i].name.as_str())
            invariant
                i <= sorted@.len(),
                sv == languages_view(sorted@),
                name_position(sv, x@, 0) == name_position(sv, x@, i as int),
            decreases sorted@.len() - i,
        {
            i += 1;
        }
        assert(name_position(sv, x@, i as int) == i);
        sorted.insert(i, x);
        assert(original.take(k + 1).drop_last() =~= original.take(k));
        assert(languages_view(sorted@) =~= sv.insert(i as int, x@));
        proof {
            k = k + 1;
        }
    }
    assert(original.take(k) =~= original);
    sorted
}

/// Read the language table out of a parsed `parsers.lua`.
pub fn languages_from(chunk: &LuaChunk) -> (r: Result<Vec<Language>, String>)
    ensures
        match languages_of(*chunk) {
            Ok(ls) => r is Ok && languages_view(r->Ok_0@) == ls,
            Err(e) => r is Err && r->Err_0@ == e,
        },
{
    let first = match &chunk.last {
        LastStatement::Return(values) => values,
        LastStatement::Other => {
            return Err(String::from_str("parsers.lua does not end in a `return`"));
        },
    };
    // Only the first value returned is read.
    let table = if first.len() > 0 {
        table_of(&first[0])
    } else {
        None
    };
    let table = match table {
        Some(table) => table,
        None => {
            return Err(String::from_str("parsers.lua does not return a table"));
        },
    };
    let es = match entries(table, "parsers.lua") {
        Ok(es) => es,
        Err(e) => {
            return Err(e);
        },
    };
    let ghost ev = entries_upto(table@, table@.len() as int, "parsers.lua"@)->Ok_0;
    assert(entries_view(es@) =~= ev);
    assert(entries_of(table@, "parsers.lua"@) == Ok::<Seq<(Seq<char>, LuaValue)>, Seq<char>>(ev));
    assert(languages_of(*chunk) == languages_table(ev));
    let mut languages: Vec<Language> = Vec::new();
    assert(languages_view(languages@) =~= seq![]);
    let mut k: usize = 0;
    while k < es.len()
        invariant
            k <= es@.len(),
            ev == entries_view(es@),
            languages_of(*chunk) == languages_table(ev),
            languages_fold(ev, k as int) == Ok::<Seq<LanguageView>, Seq<char>>(
                languages_view(languages@),
            ),
        decreases es@.len() - k,
    {
        let name = es[k].0.as_str();
        let v = es[k].1;
        assert(ev[k as int] == (name@, *v));
        match parse_language(name, v) {
            Ok(language) => {
                let ghost before = languages_view(languages@);
                languages.push(language);
                assert(languages_view(languages@) =~= before.push(language@));
            },
            Err(cause) => {
                let mut e = String::from_str("invalid entry for `");
                e.append(name);
                e.append("`: ");
                e.append(cause.as_str());
                proof {
                    lemma_languages_stay_err(ev, k + 1, ev.len() as int);
                }
                return Err(e);
            },
        }
        k += 1;
    }
    if languages.len() == 0 {
        return Err(String::from_str("no languages found in parsers.lua"));
    }
    Ok(sort_by_name(languages))
}

/// Parse `lua/nvim-treesitter/parsers.lua` into a name-sorted language list.
pub fn parse_languages(source: &str) -> (r: Result<Vec<Language>, String>)
    ensures
        match parsed_languages(source@) {
            Ok(ls) => r is Ok && languages_view(r->Ok_0@) == ls,
            Err(e) => r is Err && r->Err_0@ == e,
        },
{
    match parse_lua(source) {
        Ok(chunk) => languages_from(&chunk),
        Err(first) => {
            let mut e = String::from_str("parsers.lua is not valid Lua: ");
            e.append(first.as_str());
            Err(e)
        },
    }
}

// ---------------------------------------------------------------------------
// Aliases

/// The fields of the first `local` whose first value is a table, from
/// statement `i` on.
pub open spec fn first_local_table(stmts: Seq<LuaStatement>, i: int) -> Option<Seq<LuaField>>
    decreases stmts.len() - i,
{
    if i < 0 || i >= stmts.len() {
        None
    } else {
        match stmts[i] {
            LuaStatement::Local(values) => match (if values@.len() > 0 {
                table_fields(values@[0])
            } else {
                None
            }) {
                Some(fields) => Some(fields),
                None => first_local_table(stmts, i + 1),
            },
            _ => first_local_table(stmts, i + 1),
        }
    }
}

/// Each filetype of a list paired with the language it names.
pub open spec fn pairs_with(filetypes: Seq<Seq<char>>, language: Seq<char>) -> Seq<AliasView> {
    filetypes.map_values(|f: Seq<char>| (f, language))
}

/// Reading the first `n` entries of `filetypes.lua`, each a language and its
/// list of filetypes.
pub open spec fn aliases_fold(es: Seq<(Seq<char>, LuaValue)>, n: int) -> Result<
    Seq<AliasView>,
    Seq<char>,
>
    decreases n,
{
    if n <= 0 {
        Ok(seq![])
    } else {
        match aliases_fold(es, n - 1) {
            Err(e) => Err(e),
            Ok(prev) => match text_list_of(es[n - 1].1) {
                None => Err("`"@ + es[n - 1].0 + "` is not a list of filetypes"@),
                Some(list) => Ok(prev + pairs_with(list, es[n - 1].0)),
            },
        }
    }
}

/// Where `x` goes among aliases sorted by alias, from `i` on: before the
/// first that sorts after it, so equal aliases keep their order.
pub open spec fn alias_position(sorted: Seq<AliasView>, x: AliasView, i: int) -> int
    decreases sorted.len() - i,
{
    if i < 0 || i >= sorted.len() {
        sorted.len() as int
    } else if text_less(x.0, sorted[i].0) {
        i
    } else {
        alias_position(sorted, x, i + 1)
    }
}

/// The aliases stably sorted by alias.
pub open spec fn by_alias(a: Seq<AliasView>) -> Seq<AliasView>
    decreases a.len(),
{
    if a.len() == 0 {
        seq![]
    } else {
        let sorted = by_alias(a.drop_last());
        sorted.insert(alias_position(sorted, a.last(), 0), a.last())
    }
}

/// The alias table the entries of `filetypes.lua` describe, sorted by alias.
pub open spec fn aliases_table(es: Seq<(Seq<char>, LuaValue)>) -> Result<Seq<AliasView>, Seq<char>> {
    match aliases_fold(es, es.len() as int) {
        Err(e) => Err(e),
        Ok(a) => if a.len() == 0 {
            Err("no aliases found in filetypes.lua"@)
        } else {
            Ok(by_alias(a))
        },
    }
}

/// The aliases of `filetypes.lua`, which is `local filetypes = { ... }`
/// followed by a registration loop.
pub open spec fn aliases_of(chunk: LuaChunk) -> Result<Seq<AliasView>, Seq<char>> {
    match first_local_table(chunk.statements@, 0) {
        None => Err("filetypes.lua has no `local filetypes = { \u{2026} }`"@),
        Some(fields) => match entries_of(fields, "filetypes.lua"@) {
            Err(e) => Err(e),
            Ok(es) => aliases_table(es),
        },
    }
}

/// What reading `filetypes.lua` gives.
pub open spec fn parsed_aliases(source: Seq<char>) -> Result<Seq<AliasView>, Seq<char>> {
    match lua_parse(source) {
        Err(first) => Err("filetypes.lua is not valid Lua: "@ + first),
        Ok(chunk) => aliases_of(chunk),
    }
}

proof fn lemma_aliases_stay_err(es: Seq<(Seq<char>, LuaValue)>, n: int, m: int)
    requires
        n <= m,
        aliases_fold(es, n) is Err,
    ensures
        aliases_fold(es, m) == aliases_fold(es, n),
    decreases m - n,
{
    if n < m {
        lemma_aliases_stay_err(es, n, m - 1);
    }
}

/// Sort aliases by alias, keeping the order of equal aliases.
fn sort_by_alias(aliases: Vec<Alias>) -> (r: Vec<Alias>)
    ensures
        aliases_view(r@) == by_alias(aliases_view(aliases@)),
{
    let ghost original = aliases_view(aliases@);
    let mut rest = aliases;
    let mut sorted: Vec<Alias> = Vec::new();
    let ghost mut k: int = 0;
    assert(original.take(0) =~= seq![]);
    while rest.len() > 0
        invariant
            0 <= k,
            k + rest@.len() == original.len(),
            aliases_view(rest@) == original.skip(k),
            aliases_view(sorted@) == by_alias(original.take(k)),
        decreases rest@.len(),
    {
        let ghost sv = aliases_view(sorted@);
        let x = rest.remove(0);
        assert(x@ == original[k]) by {
            assert(aliases_view(rest@.insert(0, x))[0] == x@);
        }
        assert(aliases_view(rest@) =~= original.skip(k + 1));
        let mut i: usize = 0;
        while i < sorted.len() && !str_less(x.alias.as_str(), sorted[i].alias.as_str())
            invariant
                i <= sorted@.len(),
                sv == aliases_view(sorted@),
                alias_position(sv, x@, 0) == alias_position(sv, x@, i as int),
            decreases sorted@.len() - i,
        {
            i += 1;
        }
        assert(alias_position(sv, x@, i as int) == i);
        sorted.insert(i, x);
        assert(original.take(k + 1).drop_last() =~= original.take(k));
        assert(aliases_view(sorted@) =~= sv.insert(i as int, x@));
        proof {
            k = k + 1;
        }
    }
    assert(original.take(k) =~= original);
    sorted
}

/// The fields of the first `local` whose first value is a table.
fn local_table(chunk: &LuaChunk) -> (r: Option<&Vec<LuaField>>)
    ensures
        match first_local_table(chunk.statements@, 0) {
            Some(fields) => r is Some && r->0@ == fields,
            None => r is None,
        },
{
    let mut i: usize = 0;
    while i < chunk.statements.len()
        invariant
            i <= chunk.statements@.len(),
            first_local_table(chunk.statements@, 0) == first_local_table(
                chunk.statements@,
                i as int,
            ),
        decreases chunk.statements@.len() - i,
    {
        if let LuaStatement::Local(values) = &chunk.statements[i] {
            if values.len() > 0 {
                if let Some(fields) = table_of(&values[0]) {
                    return Some(fields);
                }
            }
        }
        i += 1;
    }
    None
}

/// Read the filetype aliases out of a parsed `filetypes.lua`.
pub fn aliases_from(chunk: &LuaChunk) -> (r: Result<Vec<Alias>, String>)
    ensures
        match aliases_of(*chunk) {
            Ok(a) => r is Ok && aliases_view(r->Ok_0@) == a,
            Err(e) => r is Err && r->Err_0@ == e,
        },
{
    let table = match local_table(chunk) {
        Some(table) => table,
        None => {
            return Err(String::from_str("filetypes.lua has no `local filetypes = { \u{2026} }`"));
        },
    };
    let es = match entries(table, "filetypes.lua") {
        Ok(es) => es,
        Err(e) => {
            return Err(e);
        },
    };
    let ghost ev = entries_upto(table@, table@.len() as int, "filetypes.lua"@)->Ok_0;
    assert(entries_view(es@) =~= ev);
    assert(entries_of(table@, "filetypes.lua"@) == Ok::<Seq<(Seq<char>, LuaValue)>, Seq<char>>(ev));
    assert(aliases_of(*chunk) == aliases_table(ev));
    let mut aliases: Vec<Alias> = Vec::new();
    assert(aliases_view(aliases@) =~= seq![]);
    let mut k: usize = 0;
    while k < es.len()
        invariant
            k <= es@.len(),
            ev == entries_view(es@),
            aliases_of(*chunk) == aliases_table(ev),
            aliases_fold(ev, k as int) == Ok::<Seq<AliasView>, Seq<char>>(aliases_view(aliases@)),
        decreases es@.len() - k,
    {
        let language = es[k].0.as_str();
        let v = es[k].1;
        assert(ev[k as int] == (language@, *v));
        let filetypes = match string_list(v) {
            Some(list) => list,
            None => {
                let mut e = String::from_str("`");
                e.append(language);
                e.append("` is not a list of filetypes");
                proof {
                    lemma_aliases_stay_err(ev, k + 1, ev.len() as int);
                }
                return Err(e);
            },
        };
        let ghost before = aliases_view(aliases@);
        let mut j: usize = 0;
        while j < filetypes.len()
            invariant
                j <= filetypes@.len(),
                aliases_view(aliases@) == before + pairs_with(texts(filetypes@).take(j as int), language@),
            decreases filetypes@.len() - j,
        {
            let ghost prior = aliases_view(aliases@);
            aliases.push(
                Alias {
                    alias: String::from_str(filetypes[j].as_str()),
                    language: String::from_str(language),
                },
            );
            assert(aliases_view(aliases@) =~= prior.push((filetypes@[j as int]@, language@)));
            assert(pairs_with(texts(filetypes@).take(j + 1), language@) =~= pairs_with(
                texts(filetypes@).take(j as int),
                language@,
            ).push((filetypes@[j as int]@, language@)));
            j += 1;
        }
        assert(texts(filetypes@).take(filetypes@.len() as int) =~= texts(filetypes@));
        k += 1;
    }
    if aliases.len() == 0 {
        return Err(String::from_str("no aliases found in filetypes.lua"));
    }
    Ok(sort_by_alias(aliases))
}

/// Parse `plugin/filetypes.lua` into alias -> language pairs, sorted by
/// alias.
pub fn parse_aliases(source: &str) -> (r: Result<Vec<Alias>, String>)
    ensures
        match parsed_aliases(source@) {
            Ok(a) => r is Ok && aliases_view(r->Ok_0@) == a,
            Err(e) => r is Err && r->Err_0@ == e,
        },
{
    match parse_lua(source) {
        Ok(chunk) => aliases_from(&chunk),
        Err(first) => {
            let mut e = String::from_str("filetypes.lua is not valid Lua: ");
            e.append(first.as_str());
            Err(e)
        },
    }
}

/// The aliases with each language's inline filetype added, unless the same
/// pair is already there, for the first `n` languages.
pub open spec fn with_filetypes(ls: Seq<LanguageView>, n: int, a: Seq<AliasView>) -> Seq<AliasView>
    decreases n,
{
    if n <= 0 {
        a
    } else {
        let prev = with_filetypes(ls, n - 1, a);
        match ls[n - 1].4 {
            None => prev,
            Some(filetype) => if prev.contains((filetype, ls[n - 1].0)) {
                prev
            } else {
                prev.push((filetype, ls[n - 1].0))
            },
        }
    }
}

/// The names of the languages.
pub open spec fn language_names(ls: Seq<LanguageView>) -> Seq<Seq<char>> {
    ls.map_values(|l: LanguageView| l.0)
}

/// Every alias from both places nvim-treesitter declares them, less those
/// naming a language the table does not have, sorted by alias.
pub open spec fn collected(ls: Seq<LanguageView>, a: Seq<AliasView>) -> Seq<AliasView> {
    by_alias(
        with_filetypes(ls, ls.len() as int, a).filter(
            |x: AliasView| language_names(ls).contains(x.1),
        ),
    )
}

/// Whether `aliases` holds the pair `(alias, language)`.
fn has_alias(aliases: &Vec<Alias>, alias: &str, language: &str) -> (r: bool)
    ensures
        r == aliases_view(aliases@).contains((alias@, language@)),
{
    let mut i: usize = 0;
    while i < aliases.len()
        invariant
            i <= aliases@.len(),
            forall|j: int| 0 <= j < i ==> #[trigger] aliases_view(aliases@)[j] != (alias@, language@),
        decreases aliases@.len() - i,
    {
        if str_eq(aliases[i].alias.as_str(), alias) && str_eq(aliases[i].language.as_str(), language) {
            assert(aliases_view(aliases@)[i as int] == (alias@, language@));
            return true;
        }
        i += 1;
    }
    false
}

/// Whether some language is named `name`.
fn has_language(languages: &[Language], name: &str) -> (r: bool)
    ensures
        r == language_names(languages_view(languages@)).contains(name@),
{
    let ghost names = language_names(languages_view(languages@));
    let mut i: usize = 0;
    while i < languages.len()
        invariant
            i <= languages@.len(),
            names == language_names(languages_view(languages@)),
            forall|j: int| 0 <= j < i ==> #[trigger] names[j] != name@,
        decreases languages@.len() - i,
    {
        if str_eq(languages[i].name.as_str(), name) {
            assert(names[i as int] == name@);
            return true;
        }
        i += 1;
    }
    false
}

/// Every alias, from both places nvim-treesitter declares them.
///
/// `filetypes.lua` is the usual one. A language entry may also carry a
/// `filetype` key -- `powershell` does -- and while that one is currently
/// declared in both places, the next to use it might not be.
///
/// `filetypes.lua` occasionally keeps an alias for a language that has since
/// left `parsers.lua`. Such an alias can never resolve, so it is dropped
/// rather than shipped as a dangling entry. What is left is sorted by alias.
pub fn collect_aliases(languages: &[Language], aliases: &mut Vec<Alias>)
    ensures
        aliases_view(final(aliases)@) == collected(languages_view(languages@), aliases_view(old(aliases)@)),
{
    let ghost ls = languages_view(languages@);
    let ghost original = aliases_view(aliases@);
    let mut i: usize = 0;
    while i < languages.len()
        invariant
            i <= languages@.len(),
            ls == languages_view(languages@),
            aliases_view(aliases@) == with_filetypes(ls, i as int, original),
        decreases languages@.len() - i,
    {
        let language = &languages[i];
        if let Some(filetype) = &language.filetype {
            if !has_alias(aliases, filetype.as_str(), language.name.as_str()) {
                let ghost prior = aliases_view(aliases@);
                aliases.push(
                    Alias {
                        alias: String::from_str(filetype.as_str()),
                        language: String::from_str(language.name.as_str()),
                    },
                );
                assert(aliases_view(aliases@) =~= prior.push((filetype@, language.name@)));
            }
        }
        i += 1;
    }
    let ghost full = aliases_view(aliases@);
    let ghost known = |x: AliasView| language_names(ls).contains(x.1);
    let mut rest: Vec<Alias> = Vec::new();
    std::mem::swap(&mut rest, aliases);
    let mut kept: Vec<Alias> = Vec::new();
    let ghost mut k: int = 0;
    assert(full.take(0).filter(known) =~= seq![]) by {
        reveal(Seq::filter);
    }
    while rest.len() > 0
        invariant
            0 <= k,
            k + rest@.len() == full.len(),
            ls == languages_view(languages@),
            known == (|x: AliasView| language_names(ls).contains(x.1)),
            aliases_view(rest@) == full.skip(k),
            aliases_view(kept@) == full.take(k).filter(known),
        decreases rest@.len(),
    {
        let a = rest.remove(0);
        assert(a@ == full[k]) by {
            assert(aliases_view(rest@.insert(0, a))[0] == a@);
        }
        assert(aliases_view(rest@) =~= full.skip(k + 1));
        assert(full.take(k + 1).drop_last() =~= full.take(k));
        assert(full.take(k + 1).last() == full[k]);
        proof {
            reveal(Seq::filter);
        }
        if has_language(languages, a.language.as_str()) {
            let ghost prior = aliases_view(kept@);
            kept.push(a);
            assert(known(full[k]));
            assert(full.take(k + 1).filter(known) == full.take(k).filter(known).push(full[k]));
            assert(aliases_view(kept@) =~= prior.push(full[k]));
        } else {
            assert(!known(full[k]));
            assert(full.take(k + 1).filter(known) == full.take(k).filter(known));
        }
        proof {
            k = k + 1;
        }
    }
    assert(full.take(k) =~= full);
    *aliases = sort_by_alias(kept);
}

/// What reading both tables gives: the languages, and every alias.
pub open spec fn parsed_db(parsers: Seq<char>, filetypes: Seq<char>) -> Result<
    (Seq<LanguageView>, Seq<AliasView>),
    Seq<char>,
> {
    match parsed_languages(parsers) {
        Err(e) => Err("failed to parse languages from parsers.lua: "@ + e),
        Ok(ls) => match parsed_aliases(filetypes) {
            Err(e) => Err("failed to parse aliases from filetypes.lua: "@ + e),
            Ok(a) => Ok((ls, collected(ls, a))),
        },
    }
}

/// Read the language table and its aliases out of `parsers.lua` and
/// `filetypes.lua`.
pub fn parse_db(parsers_lua: &str, filetypes_lua: &str) -> (r: Result<(Vec<Language>, Vec<Alias>), String>)
    ensures
        match parsed_db(parsers_lua@, filetypes_lua@) {
            Ok((ls, a)) => r is Ok && languages_view(r->Ok_0.0@) == ls && aliases_view(r->Ok_0.1@)
                == a,
            Err(e) => r is Err && r->Err_0@ == e,
        },
{
    let languages = match parse_languages(parsers_lua) {
        Ok(languages) => languages,
        Err(cause) => {
            let mut e = String::from_str("failed to parse languages from parsers.lua: ");
            e.append(cause.as_str());
            return Err(e);
        },
    };
    let mut aliases = match parse_aliases(filetypes_lua) {
        Ok(aliases) => aliases,
        Err(cause) => {
            let mut e = String::from_str("failed to parse aliases from filetypes.lua: ");
            e.append(cause.as_str());
            return Err(e);
        },
    };
    collect_aliases(languages.as_slice(), &mut aliases);
    Ok((languages, aliases))
}

} // verus!

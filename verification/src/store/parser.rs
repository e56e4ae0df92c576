//! Naming the constructor a compiled parser exports, and the cache entry it
//! is built into.
use vstd::prelude::*;
use vstd::utf8::*;

use crate::registry::info::LanguageInfo;
use crate::registry::util::{is_sha, short_revision};
use crate::text::{chars_of, is_white_space, is_white_space_exec, string_of, trim_start};

verus! {

broadcast use vstd::seq_lib::group_seq_properties;

/// The key a `grammar.json` names its grammar under, quotes included.
pub open spec fn name_key() -> Seq<char> {
    seq!['"', 'n', 'a', 'm', 'e', '"']
}

/// Where `pat` first occurs in `s` at or after `i`.
pub open spec fn find_from(s: Seq<char>, pat: Seq<char>, i: int) -> Option<int>
    decreases s.len() + 1 - i,
{
    if i < 0 || i + pat.len() > s.len() {
        None
    } else if s.subrange(i, i + pat.len()) == pat {
        Some(i)
    } else {
        find_from(s, pat, i + 1)
    }
}

/// Where the first `"` of `v` at or after `i` is, or the end of `v`.
pub open spec fn quote_from(v: Seq<char>, i: int) -> int
    decreases v.len() - i,
{
    if i < 0 || i >= v.len() || v[i] == '"' {
        if i < 0 {
            0
        } else {
            i
        }
    } else {
        quote_from(v, i + 1)
    }
}

/// Whether `c` can stand in a C identifier: an ASCII letter or digit, or `_`.
pub open spec fn is_symbol_char(c: char) -> bool {
    ('a' <= c <= 'z') || ('A' <= c <= 'Z') || ('0' <= c <= '9') || c == '_'
}

/// Whether `name` can be pasted into `tree_sitter_<name>`.
pub open spec fn is_symbol(name: Seq<char>) -> bool {
    name.len() > 0 && forall|i: int| 0 <= i < name.len() ==> is_symbol_char(#[trigger] name[i])
}

/// What follows `: "` at the start of `t`, white space aside.
pub open spec fn after_colon_quote(t: Seq<char>) -> Option<Seq<char>> {
    let a = trim_start(t);
    if a.len() == 0 || a[0] != ':' {
        None
    } else {
        let b = trim_start(a.subrange(1, a.len() as int));
        if b.len() == 0 || b[0] != '"' {
            None
        } else {
            Some(b.subrange(1, b.len() as int))
        }
    }
}

/// The `name` field of a `grammar.json`: after the first `"name"` come,
/// white space aside, a colon and a quoted string, and the string is the name
/// if it is an identifier.
pub open spec fn grammar_name_of(json: Seq<char>) -> Option<Seq<char>> {
    match find_from(json, name_key(), 0) {
        None => None,
        Some(at) => match after_colon_quote(json.subrange(at + 6, json.len() as int)) {
            None => None,
            Some(v) => {
                let name = v.take(quote_from(v, 0));
                if is_symbol(name) {
                    Some(name)
                } else {
                    None
                }
            },
        },
    }
}

/// Whether `"name"` starts at `i`.
fn key_at(c: &Vec<char>, i: usize) -> (r: bool)
    requires
        i + 6 <= c.len(),
    ensures
        r == (c@.subrange(i as int, i + 6) == name_key()),
{
    let r = c[i] == '"' && c[i + 1] == 'n' && c[i + 2] == 'a' && c[i + 3] == 'm' && c[i + 4]
        == 'e' && c[i + 5] == '"';
    assert(r ==> c@.subrange(i as int, i + 6) =~= name_key());
    assert(c@.subrange(i as int, i + 6) == name_key() ==> c@.subrange(i as int, i + 6)[5]
        == name_key()[5]);
    r
}

/// Where the text of `c` from `i` on starts once white space is skipped.
fn skip_space(c: &Vec<char>, i: usize) -> (r: usize)
    requires
        i <= c@.len(),
    ensures
        i <= r <= c@.len(),
        c@.subrange(r as int, c@.len() as int) == trim_start(c@.subrange(i as int, c@.len() as int)),
{
    let mut j = i;
    while j < c.len() && is_white_space_exec(c[j])
        invariant
            i <= j <= c@.len(),
            trim_start(c@.subrange(i as int, c@.len() as int)) == trim_start(
                c@.subrange(j as int, c@.len() as int),
            ),
        decreases c@.len() - j,
    {
        assert(c@.subrange(j as int, c@.len() as int).drop_first() =~= c@.subrange(
            j + 1,
            c@.len() as int,
        ));
        j += 1;
    }
    j
}

/// Where `"name"` first occurs in `c`.
fn find_key(c: &Vec<char>) -> (r: Option<usize>)
    ensures
        match find_from(c@, name_key(), 0) {
            Some(at) => r is Some && r->0 == at + 6 && at + 6 <= c@.len(),
            None => r is None,
        },
{
    let n = c.len();
    let mut at: usize = 0;
    while at < n && n - at >= 6
        invariant
            n == c@.len(),
            at <= n,
            find_from(c@, name_key(), 0) == find_from(c@, name_key(), at as int),
        decreases n - at,
    {
        if key_at(c, at) {
            return Some(at + 6);
        }
        at += 1;
    }
    None
}

/// Where the quoted value starts when `c` from `from` on holds `: "`,
/// white space aside.
fn value_at(c: &Vec<char>, from: usize) -> (r: Option<usize>)
    requires
        from <= c@.len(),
    ensures
        match after_colon_quote(c@.subrange(from as int, c@.len() as int)) {
            Some(v) => r is Some && r->0 <= c@.len() && v == c@.subrange(
                r->0 as int,
                c@.len() as int,
            ),
            None => r is None,
        },
{
    let ghost s = c@;
    let ghost a_all = trim_start(s.subrange(from as int, s.len() as int));
    let a = skip_space(c, from);
    if a >= c.len() || c[a] != ':' {
        return None;
    }
    assert(a_all[0] == s[a as int]);
    assert(a_all.subrange(1, a_all.len() as int) =~= s.subrange(a + 1, s.len() as int));
    let b = skip_space(c, a + 1);
    let ghost b_all = trim_start(a_all.subrange(1, a_all.len() as int));
    if b >= c.len() || c[b] != '"' {
        return None;
    }
    assert(b_all[0] == s[b as int]);
    assert(b_all.subrange(1, b_all.len() as int) =~= s.subrange(b + 1, s.len() as int));
    Some(b + 1)
}

/// Where the first `"` of `c` at or after `start` is, or the end of `c`.
fn name_end(c: &Vec<char>, start: usize) -> (r: usize)
    requires
        start <= c@.len(),
    ensures
        start <= r <= c@.len(),
        r - start == quote_from(c@.subrange(start as int, c@.len() as int), 0),
{
    let ghost v = c@.subrange(start as int, c@.len() as int);
    let mut end = start;
    while end < c.len() && c[end] != '"'
        invariant
            start <= end <= c@.len(),
            v == c@.subrange(start as int, c@.len() as int),
            quote_from(v, 0) == quote_from(v, end - start),
        decreases c@.len() - end,
    {
        end += 1;
    }
    end
}

/// Whether every character of `c[start..end)` can stand in an identifier.
fn all_symbol(c: &Vec<char>, start: usize, end: usize) -> (r: bool)
    requires
        start <= end <= c@.len(),
    ensures
        r == forall|i: int| 0 <= i < end - start ==> is_symbol_char(#[trigger] c@[start + i]),
{
    let mut k = start;
    while k < end
        invariant
            start <= k <= end <= c@.len(),
            forall|i: int| 0 <= i < k - start ==> is_symbol_char(#[trigger] c@[start + i]),
        decreases end - k,
    {
        let ch = c[k];
        if !(('a' <= ch && ch <= 'z') || ('A' <= ch && ch <= 'Z') || ('0' <= ch && ch <= '9') || ch
            == '_') {
            assert(!is_symbol_char(c@[start + (k - start)]));
            return false;
        }
        k += 1;
    }
    true
}

/// The `name` field of a `grammar.json`.
///
/// `grammar.json` can be many megabytes of rule definitions, and only the very
/// first field is interesting, so this scans for it rather than deserialising
/// the whole document.
pub fn grammar_name(grammar_json: &str) -> (r: Option<String>)
    ensures
        match grammar_name_of(grammar_json@) {
            Some(name) => r is Some && r->0@ == name,
            None => r is None,
        },
{
    let c = chars_of(grammar_json);
    let after_key = match find_key(&c) {
        Some(after_key) => after_key,
        None => {
            return None;
        },
    };
    let start = match value_at(&c, after_key) {
        Some(start) => start,
        None => {
            return None;
        },
    };
    let end = name_end(&c, start);
    let ghost v = c@.subrange(start as int, c@.len() as int);
    let ghost name = c@.subrange(start as int, end as int);
    assert(v.take(quote_from(v, 0)) =~= name);
    if end > start && all_symbol(&c, start, end) {
        assert(is_symbol(name)) by {
            assert forall|i: int| 0 <= i < name.len() implies is_symbol_char(#[trigger] name[i]) by {
                assert(name[i] == c@[start + i]);
            }
        }
        Some(string_of(c.as_slice(), start, end))
    } else {
        assert(!is_symbol(name)) by {
            if end > start {
                let i = choose|i: int| 0 <= i < end - start && !is_symbol_char(#[trigger] c@[start + i]);
                assert(name[i] == c@[start + i]);
            }
        }
        None
    }
}

/// The constructor to look a parser up by: the grammar's own name when its
/// `grammar.json` gives a usable one, else the language id.
pub fn parser_symbol(grammar_json: &str, language: &str) -> (r: String)
    ensures
        r@ == match grammar_name_of(grammar_json@) {
            Some(name) => name,
            None => language@,
        },
{
    match grammar_name(grammar_json) {
        Some(name) => name,
        None => String::from_str(language),
    }
}

/// The machine-wide cache entry a language's parser is built into, named by
/// the language and its pinned revision; none for a query-only language,
/// which has no parser to build.
pub fn parser_cache_key(language: &LanguageInfo) -> (r: Option<String>)
    ensures
        match language.install {
            None => r is None,
            Some(install) => r is Some && r->0@ == seq!['p', 'a', 'r', 's', 'e', 'r', '-']
                + language.name@ + seq!['-'] + decode_utf8(
                if is_sha(encode_utf8(install.revision@)) {
                    encode_utf8(install.revision@).take(8)
                } else {
                    encode_utf8(install.revision@)
                },
            ),
        },
{
    match &language.install {
        None => None,
        Some(install) => {
            let short = short_revision(install.revision.as_str());
            proof {
                encode_utf8_decode_utf8(short@);
            }
            let mut key = String::from_str("parser-");
            proof {
                reveal_strlit("parser-");
            }
            key.append(language.name.as_str());
            key.append("-");
            proof {
                reveal_strlit("-");
            }
            key.append(short);
            Some(key)
        },
    }
}

} // verus!

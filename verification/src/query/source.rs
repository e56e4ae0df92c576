//! Assembling a language's query text the way Neovim's runtime does.
//!
//! nvim-treesitter queries are not self-contained. A file may open with a
//! modeline such as
//!
//! ```scm
//! ; inherits: c
//! ```
//!
//! which means "prepend the whole of C's query of the same kind". Without it,
//! `cpp/highlights.scm` highlights almost nothing, because everything C-shaped
//! lives in C's file. Inherited text goes *before* the file's own, so the
//! file's patterns are matched later and therefore win where they overlap.
//!
//! A language in parentheses -- `; inherits: (foo)` -- is only pulled in when
//! the file is being read directly, not when it is itself being inherited.
use vstd::prelude::*;

use crate::text::{
    chars_of, copy_range, push_char, str_eq, string_of, trim_range, trim_start, trim_start_index,
    trimmed,
};

verus! {

broadcast use vstd::seq_lib::group_seq_properties;

/// The query files a language can define.
pub const HIGHLIGHTS: &'static str = "highlights";

/// Injected-language definitions.
pub const INJECTIONS: &'static str = "injections";

/// One entry of an `; inherits:` modeline.
#[derive(Debug, PartialEq, Eq)]
pub struct Inherit {
    /// The language whose query is pulled in.
    pub language: String,
    /// Written as `(lang)`: skipped when this file is itself being inherited.
    pub optional: bool,
}

/// The first `c` in `t` from `i` on, or the end.
pub open spec fn next_of(t: Seq<char>, c: char, i: int) -> int
    decreases t.len() - i,
{
    if i < 0 || i >= t.len() {
        t.len() as int
    } else if t[i] == c {
        i
    } else {
        next_of(t, c, i + 1)
    }
}

/// The lines of `t` from `i` on, as `str::lines` gives them: split at each
/// `\n`, a `\r` right before it dropped, and no empty line after a final `\n`.
pub open spec fn lines_from(t: Seq<char>, i: int) -> Seq<Seq<char>>
    decreases t.len() - i,
{
    if i < 0 || i >= t.len() {
        seq![]
    } else {
        let j = next_of(t, '\n', i);
        if j < t.len() {
            let line = t.subrange(i, j);
            let line = if line.len() > 0 && line.last() == '\r' {
                line.drop_last()
            } else {
                line
            };
            if j + 1 > i {
                seq![line] + lines_from(t, j + 1)
            } else {
                seq![]
            }
        } else {
            seq![t.subrange(i, t.len() as int)]
        }
    }
}

/// `t` without the copies of `c` at its start.
pub open spec fn strip_leading(t: Seq<char>, c: char) -> Seq<char>
    decreases t.len(),
{
    if t.len() > 0 && t[0] == c {
        strip_leading(t.drop_first(), c)
    } else {
        t
    }
}

/// The pieces of `t` between commas, from `i` on, the piece in progress being
/// `current`.
pub open spec fn comma_pieces(t: Seq<char>, i: int, current: Seq<char>) -> Seq<Seq<char>>
    decreases t.len() - i,
{
    if i < 0 || i >= t.len() {
        seq![current]
    } else if t[i] == ',' {
        seq![current] + comma_pieces(t, i + 1, seq![])
    } else {
        comma_pieces(t, i + 1, current.push(t[i]))
    }
}

/// What one entry of a modeline names: the language, and whether it was
/// written in parentheses; nothing for an entry that names none.
pub open spec fn entry_inherit(piece: Seq<char>) -> Option<(Seq<char>, bool)> {
    let e = trimmed(piece);
    let optional = e.len() > 0 && e[0] == '(' && e.last() == ')';
    let language = if optional {
        e.subrange(1, e.len() - 1)
    } else {
        e
    };
    if e.len() == 0 || language.len() == 0 {
        None
    } else {
        Some((language, optional))
    }
}

/// The inherits the comma-separated `pieces` name, in order.
pub open spec fn entries_of(pieces: Seq<Seq<char>>) -> Seq<(Seq<char>, bool)>
    decreases pieces.len(),
{
    if pieces.len() == 0 {
        seq![]
    } else {
        let rest = entries_of(pieces.drop_last());
        match entry_inherit(pieces.last()) {
            Some(entry) => rest.push(entry),
            None => rest,
        }
    }
}

/// The inherits a comment line names: after the `;`s and white space comes
/// `inherits`, then white space and `:`s, then the comma-separated list.
pub open spec fn line_inherits(line: Seq<char>) -> Seq<(Seq<char>, bool)> {
    let rest = trimmed(strip_leading(line, ';'));
    if rest.len() >= 8 && rest.take(8) == "inherits"@ {
        let list = trimmed(strip_leading(trim_start(rest.skip(8)), ':'));
        entries_of(comma_pieces(list, 0, seq![]))
    } else {
        seq![]
    }
}

/// The inherits named by the leading run of comment lines.
pub open spec fn leading_inherits(lines: Seq<Seq<char>>) -> Seq<(Seq<char>, bool)>
    decreases lines.len(),
{
    if lines.len() == 0 || !(lines[0].len() > 0 && lines[0][0] == ';') {
        seq![]
    } else {
        line_inherits(lines[0]) + leading_inherits(lines.drop_first())
    }
}

/// The languages named by the `inherits` modelines at the top of `text`.
pub open spec fn inherits_of(text: Seq<char>) -> Seq<(Seq<char>, bool)> {
    leading_inherits(lines_from(text, 0))
}

/// Inherits as plain values.
pub open spec fn inherit_views(v: Seq<Inherit>) -> Seq<(Seq<char>, bool)> {
    v.map_values(|i: Inherit| (i.language@, i.optional))
}

/// `t` with copies of `c` at its start removed.
fn strip_leading_exec(t: &[char], from: usize, c: char) -> (r: usize)
    requires
        from <= t@.len(),
    ensures
        from <= r <= t@.len(),
        t@.subrange(r as int, t@.len() as int) == strip_leading(
            t@.subrange(from as int, t@.len() as int),
            c,
        ),
{
    let mut i = from;
    while i < t.len() && t[i] == c
        invariant
            from <= i <= t@.len(),
            strip_leading(t@.subrange(from as int, t@.len() as int), c) == strip_leading(
                t@.subrange(i as int, t@.len() as int),
                c,
            ),
        decreases t@.len() - i,
    {
        assert(t@.subrange(i as int, t@.len() as int).drop_first() =~= t@.subrange(
            i + 1,
            t@.len() as int,
        ));
        i += 1;
    }
    i
}

/// The inherits the comma-separated list `list` names, appended to `out`.
fn push_entries(list: &[char], out: &mut Vec<Inherit>)
    ensures
        inherit_views(final(out)@) == inherit_views(old(out)@) + entries_of(
            comma_pieces(list@, 0, seq![]),
        ),
{
    let ghost start = inherit_views(out@);
    let mut pieces: Vec<Vec<char>> = Vec::new();
    let mut current: Vec<char> = Vec::new();
    let mut i: usize = 0;
    while i < list.len()
        invariant
            i <= list@.len(),
            comma_pieces(list@, 0, seq![]) == pieces@.map_values(|p: Vec<char>| p@) + comma_pieces(
                list@,
                i as int,
                current@,
            ),
        decreases list@.len() - i,
    {
        let ghost before = pieces@.map_values(|p: Vec<char>| p@);
        if list[i] == ',' {
            let done = current;
            current = Vec::new();
            pieces.push(done);
            assert(pieces@.map_values(|p: Vec<char>| p@) =~= before.push(done@));
            assert(before + comma_pieces(list@, i as int, done@) =~= before.push(done@)
                + comma_pieces(list@, i + 1, seq![]));
        } else {
            current.push(list[i]);
        }
        i += 1;
    }
    let ghost before = pieces@.map_values(|p: Vec<char>| p@);
    pieces.push(current);
    let ghost all = pieces@.map_values(|p: Vec<char>| p@);
    assert(all =~= before.push(pieces@.last()@));
    assert(comma_pieces(list@, 0, seq![]) =~= all);
    let mut k: usize = 0;
    while k < pieces.len()
        invariant
            k <= pieces@.len(),
            all == pieces@.map_values(|p: Vec<char>| p@),
            inherit_views(out@) == start + entries_of(all.take(k as int)),
        decreases pieces@.len() - k,
    {
        assert(all.take(k + 1).drop_last() =~= all.take(k as int));
        assert(all.take(k + 1).last() == pieces@[k as int]@);
        let piece = pieces[k].as_slice();
        let (lo, hi) = trim_range(piece);
        let ghost e = trimmed(piece@);
        let ghost before_out = out@;
        if lo < hi {
            let optional = piece[lo] == '(' && piece[hi - 1] == ')';
            let (a, b) = if optional {
                (lo + 1, hi - 1)
            } else {
                (lo, hi)
            };
            if a < b {
                out.push(Inherit { language: string_of(piece, a, b), optional });
                assert(e[0] == piece@[lo as int] && e.last() == piece@[hi - 1]);
                proof {
                    if optional {
                        assert(e.subrange(1, e.len() - 1) =~= piece@.subrange(lo + 1, hi - 1));
                    }
                }
                assert(inherit_views(out@) =~= inherit_views(before_out).push(
                    (piece@.subrange(a as int, b as int), optional),
                ));
            } else {
                assert(e[0] == piece@[lo as int] && e.last() == piece@[hi - 1]);
            }
        }
        k += 1;
    }
    assert(all.take(all.len() as int) =~= all);
}

/// Append the inherits a comment line names to `out`.
fn push_line_inherits(line: &[char], out: &mut Vec<Inherit>)
    ensures
        inherit_views(final(out)@) == inherit_views(old(out)@) + line_inherits(line@),
{
    let a = strip_leading_exec(line, 0, ';');
    assert(line@.subrange(0, line@.len() as int) =~= line@);
    let s1 = copy_range(line, a, line.len());
    let (lo, hi) = trim_range(s1.as_slice());
    let rest = copy_range(s1.as_slice(), lo, hi);
    let keyword = chars_of("inherits");
    proof {
        reveal_strlit("inherits");
    }
    if rest.len() < 8 || keyword.len() != 8 {
        return;
    }
    let mut k: usize = 0;
    while k < 8
        invariant
            k <= 8,
            rest@.len() >= 8,
            keyword@.len() == 8,
            keyword@ == "inherits"@,
            rest@ == trimmed(strip_leading(line@, ';')),
            out@ == old(out)@,
            forall|m: int| 0 <= m < k ==> rest@[m] == keyword@[m],
        decreases 8 - k,
    {
        if rest[k] != keyword[k] {
            assert(rest@.take(8)[k as int] != "inherits"@[k as int]);
            return;
        }
        k += 1;
    }
    assert(rest@.take(8) =~= "inherits"@);
    let r2 = copy_range(rest.as_slice(), 8, rest.len());
    assert(r2@ =~= rest@.skip(8));
    let l2 = trim_start_index(r2.as_slice());
    let r3 = copy_range(r2.as_slice(), l2, r2.len());
    let c = strip_leading_exec(r3.as_slice(), 0, ':');
    assert(r3@.subrange(0, r3@.len() as int) =~= r3@);
    let r4 = copy_range(r3.as_slice(), c, r3.len());
    let (l5, h5) = trim_range(r4.as_slice());
    let list = copy_range(r4.as_slice(), l5, h5);
    push_entries(list.as_slice(), out);
}

/// The languages named by the `inherits` modelines at the top of `text`.
///
/// Only the leading run of comment lines is inspected, matching Neovim, so an
/// `inherits` written further down is an ordinary comment.
#[verifier::spinoff_prover]
#[verifier::rlimit(30)]
pub fn parse_inherits(text: &str) -> (r: Vec<Inherit>)
    ensures
        inherit_views(r@) == inherits_of(text@),
{
    let t = chars_of(text);
    let ghost tv = t@;
    let mut inherits: Vec<Inherit> = Vec::new();
    let mut i: usize = 0;
    assert(inherit_views(inherits@) =~= seq![]);
    while i < t.len()
        invariant_except_break
            inherits_of(tv) == inherit_views(inherits@) + leading_inherits(lines_from(tv, i as int)),
        invariant
            i <= tv.len(),
            tv == t@,
            tv == text@,
        ensures
            inherits_of(tv) == inherit_views(inherits@),
        decreases tv.len() - i,
    {
        let mut j = i;
        while j < t.len() && t[j] != '\n'
            invariant
                i <= j <= tv.len(),
                tv == t@,
                next_of(tv, '\n', i as int) == next_of(tv, '\n', j as int),
            decreases tv.len() - j,
        {
            j += 1;
        }
        let end = if j < t.len() && j > i && t[j - 1] == '\r' {
            j - 1
        } else {
            j
        };
        let line = copy_range(t.as_slice(), i, end);
        proof {
            let raw = tv.subrange(i as int, j as int);
            if j < tv.len() && j > i && tv[j - 1] == '\r' {
                assert(line@ =~= raw.drop_last());
            } else {
                assert(line@ =~= raw);
            }
        }
        assert(lines_from(tv, i as int) =~= seq![line@] + if j < tv.len() {
            lines_from(tv, j + 1)
        } else {
            Seq::<Seq<char>>::empty()
        });
        if !(end > i && t[i] == ';') {
            assert(leading_inherits(lines_from(tv, i as int)) =~= Seq::<(Seq<char>, bool)>::empty());
            assert(inherit_views(inherits@) + Seq::<(Seq<char>, bool)>::empty() =~= inherit_views(inherits@));
            break;
        }
        let ghost before = inherit_views(inherits@);
        push_line_inherits(line.as_slice(), &mut inherits);
        if j >= t.len() {
            assert(lines_from(tv, i as int).drop_first() =~= Seq::<Seq<char>>::empty());
            assert(leading_inherits(Seq::<Seq<char>>::empty()) =~= Seq::<(Seq<char>, bool)>::empty());
            assert(leading_inherits(lines_from(tv, i as int)) =~= line_inherits(line@)
                + Seq::<(Seq<char>, bool)>::empty());
            break;
        }
        assert(lines_from(tv, i as int).drop_first() =~= lines_from(tv, j + 1));
        i = j + 1;
    }
    assert(i >= tv.len() ==> lines_from(tv, i as int) =~= Seq::<Seq<char>>::empty());
    inherits
}

/// The query files at hand as plain values: each language with its text.
pub open spec fn texts_view(texts: Seq<(String, String)>) -> Seq<(Seq<char>, Seq<char>)> {
    texts.map_values(|entry: (String, String)| (entry.0@, entry.1@))
}

/// The text of the first file, from `i` on, for `language`.
pub open spec fn text_of(texts: Seq<(Seq<char>, Seq<char>)>, language: Seq<char>, i: int) -> Option<
    Seq<char>,
>
    decreases texts.len() - i,
{
    if i < 0 || i >= texts.len() {
        None
    } else if texts[i].0 == language {
        Some(texts[i].1)
    } else {
        text_of(texts, language, i + 1)
    }
}

/// The files at hand other than `language`'s.
pub open spec fn without(texts: Seq<(Seq<char>, Seq<char>)>, language: Seq<char>) -> Seq<
    (Seq<char>, Seq<char>),
>
    decreases texts.len(),
{
    if texts.len() == 0 {
        seq![]
    } else {
        let rest = without(texts.drop_last(), language);
        if texts.last().0 == language {
            rest
        } else {
            rest.push(texts.last())
        }
    }
}

/// A file's text as it is added to a query: with a final newline.
pub open spec fn with_newline(text: Seq<char>) -> Seq<char> {
    if text.len() > 0 && text.last() == '\n' {
        text
    } else {
        text.push('\n')
    }
}

pub proof fn lemma_without(texts: Seq<(Seq<char>, Seq<char>)>, language: Seq<char>, i: int)
    requires
        0 <= i,
    ensures
        without(texts, language).len() <= texts.len(),
        text_of(texts, language, i) is Some ==> without(texts, language).len() < texts.len(),
    decreases texts.len(),
{
    if texts.len() > 0 {
        lemma_without(texts.drop_last(), language, i);
        if text_of(texts, language, i) is Some && texts.last().0 != language {
            lemma_text_of_prefix(texts, language, i);
        }
    }
}

pub proof fn lemma_text_of_prefix(texts: Seq<(Seq<char>, Seq<char>)>, language: Seq<char>, i: int)
    requires
        0 <= i,
        texts.len() > 0,
        texts.last().0 != language,
    ensures
        text_of(texts, language, i) == text_of(texts.drop_last(), language, i),
    decreases texts.len() - i,
{
    if i < texts.len() - 1 && texts[i].0 != language {
        lemma_text_of_prefix(texts, language, i + 1);
    } else if i == texts.len() - 1 {
        assert(text_of(texts, language, i + 1) is None);
    }
}

/// The text of `language`'s query assembled from the files at hand: the
/// queries it inherits, in order, then its own file. A language written in
/// parentheses is skipped when `inherited`, and a language is never pulled
/// into its own ancestry: each level sees the files without its own.
pub open spec fn assembled(texts: Seq<(Seq<char>, Seq<char>)>, language: Seq<char>, inherited: bool) -> Seq<
    char,
>
    decreases texts.len(), 0int,
{
    match text_of(texts, language, 0) {
        None => seq![],
        Some(text) => {
            proof {
                lemma_without(texts, language, 0);
            }
            inherited_text(without(texts, language), inherits_of(text), inherited, 0)
                + with_newline(text)
        },
    }
}

/// A language's own query file comes last in its assembled query, after
/// everything it inherits, so its patterns are matched later and win where
/// they overlap; a language with no file has an empty query.
pub proof fn lemma_own_text_last(texts: Seq<(Seq<char>, Seq<char>)>, language: Seq<char>, inherited: bool)
    ensures
        match text_of(texts, language, 0) {
            Some(text) => {
                let whole = assembled(texts, language, inherited);
                &&& whole.len() >= with_newline(text).len()
                &&& whole.skip(whole.len() - with_newline(text).len()) == with_newline(text)
            },
            None => assembled(texts, language, inherited) == Seq::<char>::empty(),
        },
{
    match text_of(texts, language, 0) {
        Some(text) => {
            let head = inherited_text(without(texts, language), inherits_of(text), inherited, 0);
            let whole = assembled(texts, language, inherited);
            assert(whole == head + with_newline(text));
            assert(whole.skip(whole.len() - with_newline(text).len()) =~= with_newline(text));
        },
        None => {},
    }
}

/// The assembled queries of the inherits from the `i`-th on.
pub open spec fn inherited_text(
    texts: Seq<(Seq<char>, Seq<char>)>,
    bases: Seq<(Seq<char>, bool)>,
    inherited: bool,
    i: int,
) -> Seq<char>
    decreases texts.len(), bases.len() - i,
{
    if i < 0 || i >= bases.len() {
        seq![]
    } else {
        (if bases[i].1 && inherited {
            seq![]
        } else {
            assembled(texts, bases[i].0, true)
        }) + inherited_text(texts, bases, inherited, i + 1)
    }
}

/// The files at hand other than `language`'s.
fn without_exec(texts: &[(String, String)], language: &str) -> (r: Vec<(String, String)>)
    ensures
        texts_view(r@) == without(texts_view(texts@), language@),
{
    let mut r: Vec<(String, String)> = Vec::new();
    let mut i: usize = 0;
    assert(texts_view(r@) =~= without(texts_view(texts@).take(0), language@));
    while i < texts.len()
        invariant
            i <= texts@.len(),
            texts_view(r@) == without(texts_view(texts@).take(i as int), language@),
        decreases texts@.len() - i,
    {
        let ghost before = texts_view(r@);
        assert(texts_view(texts@).take(i + 1).drop_last() =~= texts_view(texts@).take(i as int));
        if !str_eq(texts[i].0.as_str(), language) {
            r.push((texts[i].0.clone(), texts[i].1.clone()));
            assert(texts_view(r@) =~= before.push(texts_view(texts@)[i as int]));
        }
        i += 1;
    }
    assert(texts_view(texts@).take(texts@.len() as int) =~= texts_view(texts@));
    r
}

/// The text of the first file for `language`.
fn text_of_exec<'t>(texts: &'t [(String, String)], language: &str) -> (r: Option<&'t String>)
    ensures
        match text_of(texts_view(texts@), language@, 0) {
            Some(text) => r is Some && r->0@ == text,
            None => r is None,
        },
{
    let mut i: usize = 0;
    while i < texts.len()
        invariant
            i <= texts@.len(),
            text_of(texts_view(texts@), language@, 0) == text_of(texts_view(texts@), language@, i as int),
        decreases texts@.len() - i,
    {
        if str_eq(texts[i].0.as_str(), language) {
            return Some(&texts[i].1);
        }
        i += 1;
    }
    None
}

/// Append `language`'s assembled query to `out`.
fn assemble_into(texts: &[(String, String)], language: &str, inherited: bool, out: &mut String)
    ensures
        final(out)@ == old(out)@ + assembled(texts_view(texts@), language@, inherited),
    decreases texts@.len(), 0int,
{
    let ghost tv = texts_view(texts@);
    match text_of_exec(texts, language) {
        None => {},
        Some(text) => {
            let rest = without_exec(texts, language);
            proof {
                lemma_without(tv, language@, 0);
            }
            let bases = parse_inherits(text.as_str());
            let ghost rv = texts_view(rest@);
            let ghost bv = inherit_views(bases@);
            let ghost start = out@;
            let mut i: usize = 0;
            while i < bases.len()
                invariant
                    i <= bases@.len(),
                    rv == texts_view(rest@),
                    bv == inherit_views(bases@),
                    rest@.len() < texts@.len(),
                    out@ + inherited_text(rv, bv, inherited, i as int) == start + inherited_text(
                        rv,
                        bv,
                        inherited,
                        0,
                    ),
                decreases bases@.len() - i,
            {
                let ghost before = out@;
                if !(bases[i].optional && inherited) {
                    assemble_into(rest.as_slice(), bases[i].language.as_str(), true, out);
                }
                assert(before + inherited_text(rv, bv, inherited, i as int) =~= out@
                    + inherited_text(rv, bv, inherited, i + 1));
                i += 1;
            }
            assert(out@ =~= start + inherited_text(rv, bv, inherited, 0));
            out.append(text.as_str());
            let n = text.as_str().unicode_len();
            if !(n > 0 && text.as_str().get_char(n - 1) == '\n') {
                push_char(out, '\n');
            }
            assert(out@ =~= start + assembled(tv, language@, inherited));
        },
    }
}

/// The text of `language`'s query assembled from the query files at hand,
/// `texts` pairing each language with the text of its file: the queries it
/// inherits, each assembled the same way, come first, then its own file.
pub fn assemble_query(language: &str, texts: &[(String, String)]) -> (r: String)
    ensures
        r@ == assembled(texts_view(texts@), language@, false),
{
    let mut out = String::new();
    assemble_into(texts, language, false, &mut out);
    out
}

} // verus!

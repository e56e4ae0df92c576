//! Preparing query source for tree-sitter's query compiler.
//!
//! tree-sitter recognises `#match?` and compiles its argument as a Rust regex
//! while building the query. Neovim's queries mean something else by it -- a
//! Vim regex -- so a pattern like `\c^return$` is a *compile error* that takes
//! the whole file's highlighting with it. Renaming the predicate before
//! compilation moves it out of tree-sitter's known set and into the general
//! predicates evaluated here, with Neovim's semantics.
//!
//! `#set!` is moved for a different reason. tree-sitter parses it into a
//! key/value property and rejects anything that does not fit that shape, so a
//! Neovim directive that names two captures -- `(#set! @url url @url)` -- is a
//! compile error for the whole file. Reading it from the raw arguments accepts
//! every shape Neovim does.
use vstd::prelude::*;
use vstd::string::StringSliceAdditionalSpecFns;
use vstd::utf8::*;

use crate::text::{
    char_start, lemma_after_ascii, lemma_ascii_valid, lemma_str_valid, lemma_valid_subrange, push_all,
    push_range, range_eq, utf8_to_string, all_ascii,
};

verus! {

broadcast use vstd::seq_lib::group_seq_properties;

/// The name `#set!` is compiled under, so that it is parsed here rather than
/// by tree-sitter.
pub const NVIM_SET: &'static str = "nvim-set!";

/// The predicate renames applied before a query is compiled.
pub open spec fn rename_of(name: Seq<u8>) -> Option<Seq<u8>> {
    if name == "match?".spec_bytes() {
        Some("vim-match?".spec_bytes())
    } else if name == "not-match?".spec_bytes() {
        Some("not-vim-match?".spec_bytes())
    } else if name == "any-match?".spec_bytes() {
        Some("any-vim-match?".spec_bytes())
    } else if name == "any-not-match?".spec_bytes() {
        Some("any-not-vim-match?".spec_bytes())
    } else if name == "set!".spec_bytes() {
        Some(NVIM_SET.spec_bytes())
    } else {
        None
    }
}

/// Just past the end of the line containing `from`.
pub open spec fn line_end(b: Seq<u8>, from: int) -> int
    decreases b.len() - from,
{
    if from >= b.len() {
        b.len() as int
    } else if b[from] == 0x0a {
        from + 1
    } else {
        line_end(b, from + 1)
    }
}

/// Scanning a string literal from `index`: just past the closing quote, or
/// the end. A backslash always takes the next byte with it.
pub open spec fn string_scan(b: Seq<u8>, index: int) -> int
    decreases b.len() - index,
{
    if index >= b.len() {
        b.len() as int
    } else if b[index] == 0x5c {
        if index + 1 >= b.len() {
            b.len() as int
        } else {
            string_scan(b, index + 2)
        }
    } else if b[index] == 0x22 {
        index + 1
    } else {
        string_scan(b, index + 1)
    }
}

/// Just past the closing quote of the string opening at `open`.
pub open spec fn string_end(b: Seq<u8>, open: int) -> int {
    string_scan(b, open + 1)
}

/// Whether a byte may appear in a predicate name.
pub open spec fn is_name_byte(c: u8) -> bool {
    (0x61 <= c <= 0x7a) || (0x41 <= c <= 0x5a) || (0x30 <= c <= 0x39) || c == 0x2d || c == 0x5f
        || c == 0x3f || c == 0x21
}

/// The end of the predicate name starting at `from`.
pub open spec fn name_end(b: Seq<u8>, from: int) -> int
    decreases b.len() - from,
{
    if from >= b.len() {
        b.len() as int
    } else if !is_name_byte(b[from]) {
        from
    } else {
        name_end(b, from + 1)
    }
}

/// Whether a byte starts a comment, a string, or a predicate.
pub open spec fn is_token_start(c: u8) -> bool {
    c == 0x3b || c == 0x22 || c == 0x23
}

/// The end of the run of ordinary text starting at `from`.
pub open spec fn run_end(b: Seq<u8>, from: int) -> int
    decreases b.len() - from,
{
    if from >= b.len() {
        b.len() as int
    } else if is_token_start(b[from]) {
        from
    } else {
        run_end(b, from + 1)
    }
}

/// The rewritten text of `b` from `index` on.
///
/// A comment runs to the end of its line and a string to its closing quote;
/// both are copied unchanged, so a pattern that merely contains the text
/// `#match?` is left alone. A `#` followed by a renamed predicate name is
/// rewritten; everything else is copied.
pub open spec fn rewrite_from(b: Seq<u8>, index: int) -> Seq<u8>
    decreases b.len() - index,
{
    if index < 0 || index >= b.len() {
        seq![]
    } else {
        let c = b[index];
        let end = if c == 0x3b {
            line_end(b, index)
        } else if c == 0x22 {
            string_end(b, index)
        } else if c == 0x23 {
            name_end(b, index + 1)
        } else {
            run_end(b, index)
        };
        let piece = if c == 0x23 {
            match rename_of(b.subrange(index + 1, end)) {
                Some(to) => seq![0x23u8] + to,
                None => b.subrange(index, end),
            }
        } else {
            b.subrange(index, end)
        };
        if end <= index || end > b.len() {
            seq![]
        } else {
            piece + rewrite_from(b, end)
        }
    }
}

/// The query text `q` with the predicates evaluated here renamed.
pub open spec fn rewrite_spec(q: Seq<u8>) -> Seq<u8> {
    rewrite_from(q, 0)
}

proof fn lemma_line_end(b: Seq<u8>, from: int)
    requires
        0 <= from <= b.len(),
    ensures
        from <= line_end(b, from) <= b.len(),
        line_end(b, from) == b.len() || (line_end(b, from) > from && b[line_end(b, from) - 1] == 0x0a),
    decreases b.len() - from,
{
    if from < b.len() && b[from] != 0x0a {
        lemma_line_end(b, from + 1);
    }
}

proof fn lemma_string_scan(b: Seq<u8>, index: int)
    requires
        0 <= index,
    ensures
        index <= string_scan(b, index) || string_scan(b, index) == b.len(),
        string_scan(b, index) <= b.len(),
        string_scan(b, index) == b.len() || (string_scan(b, index) > index && b[string_scan(b, index) - 1] == 0x22),
    decreases b.len() - index,
{
    if index < b.len() {
        if b[index] == 0x5c {
            if index + 1 < b.len() {
                lemma_string_scan(b, index + 2);
            }
        } else if b[index] != 0x22 {
            lemma_string_scan(b, index + 1);
        }
    }
}

proof fn lemma_name_end(b: Seq<u8>, from: int)
    requires
        0 <= from <= b.len(),
    ensures
        from <= name_end(b, from) <= b.len(),
        name_end(b, from) == from || is_name_byte(b[name_end(b, from) - 1]),
    decreases b.len() - from,
{
    if from < b.len() && is_name_byte(b[from]) {
        lemma_name_end(b, from + 1);
    }
}

proof fn lemma_run_end(b: Seq<u8>, from: int)
    requires
        0 <= from <= b.len(),
    ensures
        from <= run_end(b, from) <= b.len(),
        run_end(b, from) == b.len() || is_token_start(b[run_end(b, from)]),
    decreases b.len() - from,
{
    if from < b.len() && !is_token_start(b[from]) {
        lemma_run_end(b, from + 1);
    }
}

/// Rewriting UTF-8 text from a character start gives UTF-8 text.
proof fn lemma_rewrite_valid(b: Seq<u8>, index: int)
    requires
        valid_utf8(b),
        0 <= index <= b.len(),
        char_start(b, index),
    ensures
        valid_utf8(rewrite_from(b, index)),
    decreases b.len() - index,
{
    if index < b.len() {
        let c = b[index];
        lemma_line_end(b, index);
        lemma_string_scan(b, index + 1);
        lemma_name_end(b, index + 1);
        lemma_run_end(b, index);
        let end = if c == 0x3b {
            line_end(b, index)
        } else if c == 0x22 {
            string_end(b, index)
        } else if c == 0x23 {
            name_end(b, index + 1)
        } else {
            run_end(b, index)
        };
        if end > index && end <= b.len() {
            // Every piece ends where a character starts.
            if end < b.len() {
                if c == 0x3b || c == 0x22 {
                    lemma_after_ascii(b, end - 1);
                } else if c == 0x23 {
                    lemma_after_ascii(b, end - 1);
                } else {
                    assert(!is_continuation_byte(b[end]));
                }
            }
            assert(char_start(b, end));
            lemma_rewrite_valid(b, end);
            let rest = rewrite_from(b, end);
            if c == 0x23 {
                match rename_of(b.subrange(index + 1, end)) {
                    Some(to) => {
                        let hash = seq![0x23u8];
                        assert(all_ascii(hash));
                        lemma_ascii_valid(hash);
                        assert(valid_utf8(to)) by {
                            lemma_str_valid("vim-match?");
                            lemma_str_valid("not-vim-match?");
                            lemma_str_valid("any-vim-match?");
                            lemma_str_valid("any-not-vim-match?");
                            lemma_str_valid(NVIM_SET);
                        }
                        valid_utf8_concat(hash, to);
                        valid_utf8_concat(hash + to, rest);
                    },
                    None => {
                        lemma_valid_subrange(b, index, end);
                        valid_utf8_concat(b.subrange(index, end), rest);
                    },
                }
            } else {
                lemma_valid_subrange(b, index, end);
                valid_utf8_concat(b.subrange(index, end), rest);
            }
        }
    }
}

/// Text with no `#` in it -- no predicate or directive at all -- comes out
/// of the rewrite byte for byte as it went in.
pub proof fn lemma_no_predicate_unchanged(q: Seq<u8>)
    requires
        forall|i: int| 0 <= i < q.len() ==> q[i] != 0x23,
    ensures
        rewrite_spec(q) == q,
{
    lemma_unchanged_from(q, 0);
    assert(q.subrange(0, q.len() as int) =~= q);
}

proof fn lemma_unchanged_from(b: Seq<u8>, index: int)
    requires
        0 <= index <= b.len(),
        forall|i: int| 0 <= i < b.len() ==> b[i] != 0x23,
    ensures
        rewrite_from(b, index) == b.subrange(index, b.len() as int),
    decreases b.len() - index,
{
    if index < b.len() {
        let c = b[index];
        lemma_line_end(b, index);
        lemma_string_scan(b, index + 1);
        lemma_run_end(b, index);
        let end = if c == 0x3b {
            line_end(b, index)
        } else if c == 0x22 {
            string_end(b, index)
        } else {
            run_end(b, index)
        };
        if c == 0x3b {
            assert(b[index] != 0x0a);
            assert(line_end(b, index) == line_end(b, index + 1));
            lemma_line_end(b, index + 1);
        }
        assert(end > index);
        lemma_unchanged_from(b, end);
        assert(b.subrange(index, end) + b.subrange(end, b.len() as int) =~= b.subrange(
            index,
            b.len() as int,
        ));
    } else {
        assert(b.subrange(index, b.len() as int) =~= seq![]);
    }
}

fn line_end_exec(b: &[u8], from: usize) -> (r: usize)
    requires
        from <= b@.len(),
    ensures
        r == line_end(b@, from as int),
{
    let mut i = from;
    while i < b.len()
        invariant
            from <= i <= b@.len(),
            line_end(b@, from as int) == line_end(b@, i as int),
        decreases b@.len() - i,
    {
        if b[i] == 0x0a {
            return i + 1;
        }
        i += 1;
    }
    b.len()
}

fn string_end_exec(b: &[u8], open: usize) -> (r: usize)
    requires
        open < b.len(),
    ensures
        r == string_end(b@, open as int),
{
    let mut index = open + 1;
    while index < b.len()
        invariant
            open < index,
            string_end(b@, open as int) == string_scan(b@, index as int),
        decreases b@.len() - index,
    {
        if b[index] == 0x5c {
            if index + 1 >= b.len() {
                return b.len();
            }
            index += 2;
        } else if b[index] == 0x22 {
            return index + 1;
        } else {
            index += 1;
        }
    }
    b.len()
}

fn name_end_exec(b: &[u8], from: usize) -> (r: usize)
    requires
        from <= b@.len(),
    ensures
        r == name_end(b@, from as int),
{
    let mut i = from;
    while i < b.len()
        invariant
            from <= i <= b@.len(),
            name_end(b@, from as int) == name_end(b@, i as int),
        decreases b@.len() - i,
    {
        let c = b[i];
        let name_byte = (0x61 <= c && c <= 0x7a) || (0x41 <= c && c <= 0x5a) || (0x30 <= c && c <= 0x39)
            || c == 0x2d || c == 0x5f || c == 0x3f || c == 0x21;
        if !name_byte {
            return i;
        }
        i += 1;
    }
    b.len()
}

fn run_end_exec(b: &[u8], from: usize) -> (r: usize)
    requires
        from <= b@.len(),
    ensures
        r == run_end(b@, from as int),
{
    let mut i = from;
    while i < b.len()
        invariant
            from <= i <= b@.len(),
            run_end(b@, from as int) == run_end(b@, i as int),
        decreases b@.len() - i,
    {
        let c = b[i];
        if c == 0x3b || c == 0x22 || c == 0x23 {
            return i;
        }
        i += 1;
    }
    b.len()
}

fn rename_exec(b: &[u8], from: usize, to: usize) -> (r: Option<&'static str>)
    requires
        from <= to <= b@.len(),
    ensures
        match r {
            Some(t) => rename_of(b@.subrange(from as int, to as int)) == Some(t.spec_bytes()),
            None => rename_of(b@.subrange(from as int, to as int)) is None,
        },
{
    if range_eq(b, from, to, "match?".as_bytes()) {
        Some("vim-match?")
    } else if range_eq(b, from, to, "not-match?".as_bytes()) {
        Some("not-vim-match?")
    } else if range_eq(b, from, to, "any-match?".as_bytes()) {
        Some("any-vim-match?")
    } else if range_eq(b, from, to, "any-not-match?".as_bytes()) {
        Some("any-not-vim-match?")
    } else if range_eq(b, from, to, "set!".as_bytes()) {
        Some(NVIM_SET)
    } else {
        None
    }
}

/// Rewrite the predicates evaluated here out of tree-sitter's known set.
///
/// Comments and string literals are skipped, so a pattern that merely
/// contains the text `#match?` is left alone; every other byte is preserved.
pub fn for_compilation(query: &str) -> (out: String)
    ensures
        encode_utf8(out@) == rewrite_spec(query.spec_bytes()),
{
    let bytes = query.as_bytes();
    let ghost b = bytes@;
    let mut out: Vec<u8> = Vec::new();
    let mut index: usize = 0;
    proof {
        lemma_str_valid(query);
        lemma_rewrite_valid(b, 0);
    }
    while index < bytes.len()
        invariant
            b == bytes@,
            index <= b.len(),
            rewrite_spec(b) == out@ + rewrite_from(b, index as int),
        decreases b.len() - index,
    {
        let ghost before = out@;
        let ghost bi = index as int;
        let c = bytes[index];
        let end;
        if c == 0x3b {
            end = line_end_exec(bytes, index);
            proof { lemma_line_end(b, bi); }
            push_range(&mut out, bytes, index, end);
        } else if c == 0x22 {
            end = string_end_exec(bytes, index);
            proof { lemma_string_scan(b, bi + 1); }
            push_range(&mut out, bytes, index, end);
        } else if c == 0x23 {
            end = name_end_exec(bytes, index + 1);
            proof { lemma_name_end(b, bi + 1); }
            match rename_exec(bytes, index + 1, end) {
                Some(to) => {
                    out.push(0x23);
                    push_all(&mut out, to.as_bytes());
                },
                None => {
                    push_range(&mut out, bytes, index, end);
                },
            }
        } else {
            end = run_end_exec(bytes, index);
            proof { lemma_run_end(b, bi); }
            push_range(&mut out, bytes, index, end);
        }
        proof {
            assert(end > bi);
            assert(rewrite_from(b, bi) == out@.subrange(before.len() as int, out@.len() as int) + rewrite_from(b, end as int));
            assert(out@ =~= before + out@.subrange(before.len() as int, out@.len() as int));
        }
        index = end;
    }
    utf8_to_string(out)
}

/// `s` from `i` on holds the same `m` bytes as `t` from `j` on.
pub open spec fn agree(s: Seq<u8>, i: int, t: Seq<u8>, j: int, m: int) -> bool {
    &&& 0 <= i
    &&& 0 <= j
    &&& i + m <= s.len()
    &&& j + m <= t.len()
    &&& forall|k: int| 0 <= k < m ==> #[trigger] s[i + k] == t[j + k]
}

proof fn lemma_agree_next(s: Seq<u8>, i: int, t: Seq<u8>, j: int, m: int)
    requires
        agree(s, i, t, j, m),
        m > 0,
    ensures
        agree(s, i + 1, t, j + 1, m - 1),
        s[i] == t[j],
{
    assert(s[i + 0] == t[j + 0]);
    assert forall|k: int| 0 <= k < m - 1 implies #[trigger] s[i + 1 + k] == t[j + 1 + k] by {
        assert(s[i + (k + 1)] == t[j + (k + 1)]);
    }
}

proof fn lemma_agree_sub(s: Seq<u8>, i: int, t: Seq<u8>, j: int, n: int, k: int, m: int)
    requires
        agree(s, i, t, j, n),
        0 <= k,
        0 <= m,
        k + m <= n,
    ensures
        agree(s, i + k, t, j + k, m),
{
    assert forall|q: int| 0 <= q < m implies #[trigger] s[i + k + q] == t[j + k + q] by {
        assert(s[i + (k + q)] == t[j + (k + q)]);
    }
}

/// Where a comment ends depends only on the bytes up to its end.
proof fn lemma_line_end_agree(s: Seq<u8>, i: int, t: Seq<u8>, j: int)
    requires
        j <= t.len(),
        agree(s, i, t, j, line_end(t, j) - j),
        line_end(t, j) == t.len() ==> s.len() == i + t.len() - j,
    ensures
        line_end(s, i) - i == line_end(t, j) - j,
    decreases t.len() - j,
{
    lemma_line_end(t, j);
    if j < t.len() {
        lemma_agree_next(s, i, t, j, line_end(t, j) - j);
        if t[j] != 0x0a {
            lemma_line_end(t, j + 1);
            lemma_line_end_agree(s, i + 1, t, j + 1);
        }
    }
}

/// Where a string ends depends only on the bytes up to its end.
proof fn lemma_string_scan_agree(s: Seq<u8>, i: int, t: Seq<u8>, j: int)
    requires
        j <= t.len(),
        agree(s, i, t, j, string_scan(t, j) - j),
        string_scan(t, j) == t.len() ==> s.len() == i + t.len() - j,
    ensures
        string_scan(s, i) - i == string_scan(t, j) - j,
    decreases t.len() - j,
{
    lemma_string_scan(t, j);
    if j < t.len() {
        lemma_agree_next(s, i, t, j, string_scan(t, j) - j);
        if t[j] == 0x5c {
            if j + 1 < t.len() {
                lemma_string_scan(t, j + 2);
                lemma_agree_next(s, i + 1, t, j + 1, string_scan(t, j) - j - 1);
                lemma_string_scan_agree(s, i + 2, t, j + 2);
            }
        } else if t[j] != 0x22 {
            lemma_string_scan(t, j + 1);
            lemma_string_scan_agree(s, i + 1, t, j + 1);
        }
    }
}

/// Where a name ends depends only on its bytes and the one after it.
proof fn lemma_name_end_agree(s: Seq<u8>, i: int, t: Seq<u8>, j: int)
    requires
        j <= t.len(),
        agree(s, i, t, j, name_end(t, j) - j),
        name_end(t, j) < t.len() ==> i + name_end(t, j) - j < s.len() && s[i + name_end(t, j) - j]
            == t[name_end(t, j)],
        name_end(t, j) == t.len() ==> s.len() == i + t.len() - j,
    ensures
        name_end(s, i) - i == name_end(t, j) - j,
    decreases t.len() - j,
{
    lemma_name_end(t, j);
    if j < t.len() && is_name_byte(t[j]) {
        lemma_name_end(t, j + 1);
        lemma_agree_next(s, i, t, j, name_end(t, j) - j);
        lemma_name_end_agree(s, i + 1, t, j + 1);
    }
}

/// Where a run of text ends depends only on its bytes and the one after it.
proof fn lemma_run_end_agree(s: Seq<u8>, i: int, t: Seq<u8>, j: int)
    requires
        j <= t.len(),
        agree(s, i, t, j, run_end(t, j) - j),
        run_end(t, j) < t.len() ==> i + run_end(t, j) - j < s.len() && s[i + run_end(t, j) - j]
            == t[run_end(t, j)],
        run_end(t, j) == t.len() ==> s.len() == i + t.len() - j,
    ensures
        run_end(s, i) - i == run_end(t, j) - j,
    decreases t.len() - j,
{
    lemma_run_end(t, j);
    if j < t.len() && !is_token_start(t[j]) {
        lemma_run_end(t, j + 1);
        lemma_agree_next(s, i, t, j, run_end(t, j) - j);
        lemma_run_end_agree(s, i + 1, t, j + 1);
    }
}

/// A run of name bytes ends where the first other byte is.
proof fn lemma_name_run(s: Seq<u8>, i: int, m: int)
    requires
        0 <= i <= m <= s.len(),
        forall|k: int| i <= k < m ==> is_name_byte(#[trigger] s[k]),
        m == s.len() || !is_name_byte(s[m]),
    ensures
        name_end(s, i) == m,
    decreases m - i,
{
    if i < m {
        lemma_name_run(s, i + 1, m);
    }
}

/// What the rewrite makes of text from `i` on depends on nothing before it.
proof fn lemma_rewrite_shift(s: Seq<u8>, i: int, t: Seq<u8>, j: int)
    requires
        0 <= i <= s.len(),
        0 <= j <= t.len(),
        s.len() - i == t.len() - j,
        agree(s, i, t, j, t.len() - j),
    ensures
        rewrite_from(s, i) == rewrite_from(t, j),
    decreases t.len() - j,
{
    if j < t.len() {
        let c = t[j];
        assert(s[i + 0] == t[j + 0]);
        lemma_line_end(t, j);
        lemma_string_scan(t, j + 1);
        lemma_name_end(t, j + 1);
        lemma_run_end(t, j);
        let n = t.len() - j;
        let te = if c == 0x3b {
            line_end(t, j)
        } else if c == 0x22 {
            string_end(t, j)
        } else if c == 0x23 {
            name_end(t, j + 1)
        } else {
            run_end(t, j)
        };
        if c == 0x3b {
            lemma_agree_sub(s, i, t, j, n, 0, line_end(t, j) - j);
            lemma_line_end_agree(s, i, t, j);
        } else if c == 0x22 {
            lemma_agree_sub(s, i, t, j, n, 1, string_scan(t, j + 1) - (j + 1));
            lemma_string_scan_agree(s, i + 1, t, j + 1);
        } else if c == 0x23 {
            lemma_agree_sub(s, i, t, j, n, 1, name_end(t, j + 1) - (j + 1));
            if name_end(t, j + 1) < t.len() {
                let k = name_end(t, j + 1) - j;
                assert(s[i + k] == t[j + k]);
            }
            lemma_name_end_agree(s, i + 1, t, j + 1);
        } else {
            lemma_agree_sub(s, i, t, j, n, 0, run_end(t, j) - j);
            if run_end(t, j) < t.len() {
                let k = run_end(t, j) - j;
                assert(s[i + k] == t[j + k]);
            }
            lemma_run_end_agree(s, i, t, j);
        }
        let se = i + (te - j);
        if te > j && te <= t.len() {
            assert(s.subrange(i, se) =~= t.subrange(j, te)) by {
                assert forall|q: int| 0 <= q < te - j implies #[trigger] s.subrange(i, se)[q] == t.subrange(j, te)[q] by {
                    assert(s[i + q] == t[j + q]);
                }
            }
            assert(s.subrange(i + 1, se) =~= t.subrange(j + 1, te)) by {
                assert forall|q: int| 0 <= q < te - j - 1 implies #[trigger] s.subrange(i + 1, se)[q] == t.subrange(j + 1, te)[q] by {
                    assert(s[i + (1 + q)] == t[j + (1 + q)]);
                }
            }
            lemma_agree_sub(s, i, t, j, n, te - j, t.len() - te);
            lemma_rewrite_shift(s, se, t, te);
        }
    }
}

/// What a renamed predicate is renamed to is a name the rewrite leaves
/// alone.
proof fn lemma_renames_final(name: Seq<u8>)
    ensures
        rename_of(name) matches Some(to) ==> to.len() > name.len() && rename_of(to) is None && forall|k: int|
            0 <= k < to.len() ==> is_name_byte(#[trigger] to[k]),
{
    reveal_strlit("match?");
    assert(vstd::string::is_ascii("match?"));
    vstd::string::is_ascii_spec_bytes("match?");
    reveal_strlit("not-match?");
    assert(vstd::string::is_ascii("not-match?"));
    vstd::string::is_ascii_spec_bytes("not-match?");
    reveal_strlit("any-match?");
    assert(vstd::string::is_ascii("any-match?"));
    vstd::string::is_ascii_spec_bytes("any-match?");
    reveal_strlit("any-not-match?");
    assert(vstd::string::is_ascii("any-not-match?"));
    vstd::string::is_ascii_spec_bytes("any-not-match?");
    reveal_strlit("set!");
    assert(vstd::string::is_ascii("set!"));
    vstd::string::is_ascii_spec_bytes("set!");
    reveal_strlit("vim-match?");
    assert(vstd::string::is_ascii("vim-match?"));
    vstd::string::is_ascii_spec_bytes("vim-match?");
    reveal_strlit("not-vim-match?");
    assert(vstd::string::is_ascii("not-vim-match?"));
    vstd::string::is_ascii_spec_bytes("not-vim-match?");
    reveal_strlit("any-vim-match?");
    assert(vstd::string::is_ascii("any-vim-match?"));
    vstd::string::is_ascii_spec_bytes("any-vim-match?");
    reveal_strlit("any-not-vim-match?");
    assert(vstd::string::is_ascii("any-not-vim-match?"));
    vstd::string::is_ascii_spec_bytes("any-not-vim-match?");
    reveal_strlit("nvim-set!");
    assert(vstd::string::is_ascii("nvim-set!"));
    vstd::string::is_ascii_spec_bytes("nvim-set!");
    if let Some(to) = rename_of(name) {
        let targets = seq![
            "vim-match?".spec_bytes(),
            "not-vim-match?".spec_bytes(),
            "any-vim-match?".spec_bytes(),
            "any-not-vim-match?".spec_bytes(),
            NVIM_SET.spec_bytes(),
        ];
        assert(to == targets[0] || to == targets[1] || to == targets[2] || to == targets[3] || to == targets[4]);
        assert(to.len() > 0);
        assert(to != "match?".spec_bytes());
        assert(to != "set!".spec_bytes());
        assert(to[0] != "not-match?".spec_bytes()[0] || to.len() != "not-match?".spec_bytes().len() || to[4] != "not-match?".spec_bytes()[4]);
        assert(to != "not-match?".spec_bytes());
        assert(to[0] != "any-match?".spec_bytes()[0] || to.len() != "any-match?".spec_bytes().len() || to[4] != "any-match?".spec_bytes()[4]);
        assert(to != "any-match?".spec_bytes());
        assert(to[0] != "any-not-match?".spec_bytes()[0] || to.len() != "any-not-match?".spec_bytes().len() || to[4] != "any-not-match?".spec_bytes()[4]);
        assert(to != "any-not-match?".spec_bytes());
    }
}

/// A name stops at a byte that cannot be part of it.
proof fn lemma_name_end_stops(b: Seq<u8>, from: int)
    requires
        0 <= from <= b.len(),
    ensures
        name_end(b, from) < b.len() ==> !is_name_byte(b[name_end(b, from)]),
    decreases b.len() - from,
{
    if from < b.len() && is_name_byte(b[from]) {
        lemma_name_end_stops(b, from + 1);
    }
}

/// The rewrite of text from `i` starts with the byte at `i`, and is empty
/// only past the end.
proof fn lemma_rewrite_first_byte(b: Seq<u8>, i: int)
    requires
        0 <= i,
    ensures
        i < b.len() ==> rewrite_from(b, i).len() > 0 && rewrite_from(b, i)[0] == b[i],
        i >= b.len() ==> rewrite_from(b, i) == Seq::<u8>::empty(),
{
    if i < b.len() {
        lemma_line_end(b, i);
        lemma_string_scan(b, i + 1);
        lemma_name_end(b, i + 1);
        lemma_run_end(b, i);
        if !is_token_start(b[i]) {
            assert(run_end(b, i) == run_end(b, i + 1));
            lemma_run_end(b, i + 1);
        }
        if b[i] == 0x3b {
            assert(line_end(b, i) > i);
        }
    }
}

/// Rewriting text that is already rewritten from `index` on changes nothing.
#[verifier::rlimit(60)]
proof fn lemma_rewrite_stable_from(b: Seq<u8>, index: int)
    requires
        0 <= index <= b.len(),
    ensures
        rewrite_from(rewrite_from(b, index), 0) == rewrite_from(b, index),
    decreases b.len() - index,
{
    lemma_rewrite_first_byte(b, index);
    if index < b.len() {
        let c = b[index];
        lemma_line_end(b, index);
        lemma_string_scan(b, index + 1);
        lemma_name_end(b, index + 1);
        lemma_name_end_stops(b, index + 1);
        lemma_run_end(b, index);
        if !is_token_start(c) {
            assert(run_end(b, index) == run_end(b, index + 1));
            lemma_run_end(b, index + 1);
        }
        let end = if c == 0x3b {
            line_end(b, index)
        } else if c == 0x22 {
            string_end(b, index)
        } else if c == 0x23 {
            name_end(b, index + 1)
        } else {
            run_end(b, index)
        };
        assert(index < end <= b.len());
        let p = if c == 0x23 {
            match rename_of(b.subrange(index + 1, end)) {
                Some(to) => seq![0x23u8] + to,
                None => b.subrange(index, end),
            }
        } else {
            b.subrange(index, end)
        };
        let rest = rewrite_from(b, end);
        let o = rewrite_from(b, index);
        assert(o == p + rest);
        lemma_rewrite_first_byte(b, end);
        lemma_rewrite_stable_from(b, end);
        let n = p.len() as int;
        assert(n > 0);
        // The rewritten piece is scanned as one piece again.
        let renamed = c == 0x23 && rename_of(b.subrange(index + 1, end)) is Some;
        if !renamed {
            assert(p =~= b.subrange(index, end));
            assert(agree(o, 0, b, index, end - index)) by {
                assert forall|k: int| 0 <= k < end - index implies #[trigger] o[0 + k] == b[index + k] by {
                    assert(o[k] == p[k]);
                }
            }
            assert(end < b.len() ==> o[n] == b[end]) by {
                if end < b.len() {
                    assert(o[n] == rest[0]);
                }
            }
            assert(end == b.len() ==> o.len() == n);
        }
        let oe = if c == 0x3b {
            line_end(o, 0)
        } else if c == 0x22 {
            string_end(o, 0)
        } else if c == 0x23 {
            name_end(o, 1)
        } else {
            run_end(o, 0)
        };
        if c == 0x3b {
            lemma_line_end_agree(o, 0, b, index);
        } else if c == 0x22 {
            lemma_agree_sub(o, 0, b, index, end - index, 1, string_scan(b, index + 1) - (index + 1));
            lemma_string_scan_agree(o, 1, b, index + 1);
        } else if c == 0x23 {
            if renamed {
                let to = rename_of(b.subrange(index + 1, end))->0;
                lemma_renames_final(b.subrange(index + 1, end));
                assert forall|k: int| 1 <= k < n implies is_name_byte(#[trigger] o[k]) by {
                    assert(o[k] == p[k]);
                    assert(p[k] == to[k - 1]);
                }
                if end < b.len() {
                    assert(o[n] == rest[0]);
                }
                lemma_name_run(o, 1, n);
                assert(o.subrange(1, n) =~= to);
            } else {
                lemma_agree_sub(o, 0, b, index, end - index, 1, name_end(b, index + 1) - (index + 1));
                lemma_name_end_agree(o, 1, b, index + 1);
                assert(o.subrange(1, n) =~= b.subrange(index + 1, end));
            }
        } else {
            lemma_run_end_agree(o, 0, b, index);
        }
        assert(oe == n);
        assert(o.subrange(0, n) =~= p);
        assert(o[0] == c);
        assert(rewrite_from(o, 0) == p + rewrite_from(o, n));
        assert(agree(o, n, rest, 0, rest.len() as int)) by {
            assert forall|k: int| 0 <= k < rest.len() implies #[trigger] o[n + k] == rest[0 + k] by {
                assert(o[n + k] == rest[k]);
            }
        }
        lemma_rewrite_shift(o, n, rest, 0);
    }
}

/// Preparing a query twice gives the same text as preparing it once: the
/// renamed predicates are no longer ones that get renamed, and everything
/// else comes out as it went in.
pub proof fn lemma_rewrite_idempotent(q: Seq<u8>)
    ensures
        rewrite_spec(rewrite_spec(q)) == rewrite_spec(q),
{
    lemma_rewrite_stable_from(q, 0);
}

/// Whether scanning `b` from `index` on meets a `#` outside comments and
/// strings that is directly followed by a predicate name that gets renamed.
pub open spec fn renames_from(b: Seq<u8>, index: int) -> bool
    decreases b.len() - index,
{
    if index < 0 || index >= b.len() {
        false
    } else {
        let c = b[index];
        let end = if c == 0x3b {
            line_end(b, index)
        } else if c == 0x22 {
            string_end(b, index)
        } else if c == 0x23 {
            name_end(b, index + 1)
        } else {
            run_end(b, index)
        };
        if end <= index || end > b.len() {
            false
        } else {
            (c == 0x23 && rename_of(b.subrange(index + 1, end)) is Some) || renames_from(b, end)
        }
    }
}

/// From `index` on, the rewrite copies the text unless it renames a
/// predicate, and each rename makes the text longer.
proof fn lemma_rewrite_copies(b: Seq<u8>, index: int)
    requires
        0 <= index <= b.len(),
    ensures
        !renames_from(b, index) ==> rewrite_from(b, index) == b.subrange(index, b.len() as int),
        renames_from(b, index) ==> rewrite_from(b, index).len() > b.len() - index,
        rewrite_from(b, index).len() >= b.len() - index,
    decreases b.len() - index,
{
    if index < b.len() {
        let c = b[index];
        lemma_line_end(b, index);
        lemma_string_scan(b, index + 1);
        lemma_name_end(b, index + 1);
        lemma_run_end(b, index);
        if !is_token_start(c) {
            assert(run_end(b, index) == run_end(b, index + 1));
            lemma_run_end(b, index + 1);
        }
        let end = if c == 0x3b {
            line_end(b, index)
        } else if c == 0x22 {
            string_end(b, index)
        } else if c == 0x23 {
            name_end(b, index + 1)
        } else {
            run_end(b, index)
        };
        assert(index < end <= b.len());
        lemma_rewrite_copies(b, end);
        lemma_renames_final(b.subrange(index + 1, end));
        if !renames_from(b, index) {
            assert(b.subrange(index, end) + b.subrange(end, b.len() as int) =~= b.subrange(index, b.len() as int));
        }
    } else {
        assert(b.subrange(index, b.len() as int) =~= Seq::<u8>::empty());
    }
}

/// The query comes out of preparation exactly as it went in when, and only
/// when, no `#` outside a comment or string is followed by `match?`,
/// `not-match?`, `any-match?`, `any-not-match?` or `set!`; everything else
/// is copied byte for byte.
pub proof fn lemma_rewrite_changes_only_renames(q: Seq<u8>)
    ensures
        (rewrite_spec(q) == q) == !renames_from(q, 0),
{
    lemma_rewrite_copies(q, 0);
    assert(q.subrange(0, q.len() as int) =~= q);
}

} // verus!

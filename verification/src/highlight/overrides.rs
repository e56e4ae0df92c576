//! Letting an author override a highlight from inside the code.
//!
//! Some distinctions a grammar simply cannot make. In C, a macro invocation
//! and a function call are the same syntax, so no query can tell them apart.
//! A marker comment says which one it is:
//!
//! ```c
//! /* @tree-sitter:function.macro */ASSERT(x > 0);
//! ```
//!
//! The comment is removed before the code is parsed -- so it cannot confuse
//! the grammar, and works even in a language where `/* */` is not a comment --
//! and the highlight it names is applied to whatever follows it.
use std::ops::Range;
use vstd::prelude::*;
use vstd::string::StringSliceAdditionalSpecFns;
use vstd::utf8::*;

use crate::highlight::canvas::{group_text, Span};
use crate::text::{
    all_ascii, bytes_at, char_start, lemma_after_ascii, lemma_ascii_valid, lemma_str_valid,
    lemma_valid_subrange, push_range, utf8_to_string,
};

verus! {

broadcast use vstd::seq_lib::group_seq_properties;

/// The marker that introduces a highlight group.
pub const MARKER: &'static str = "@tree-sitter:";

/// The byte length of the white-space character that starts at `i`, or 0.
///
/// White space is Unicode's `White_Space` property, the set
/// `char::is_whitespace` tests: U+0009 to U+000D, U+0020, U+0085, U+00A0,
/// U+1680, U+2000 to U+200A, U+2028, U+2029, U+202F, U+205F and U+3000,
/// each matched here by its UTF-8 encoding.
pub open spec fn whitespace_width(b: Seq<u8>, i: int) -> int {
    if i < 0 || i >= b.len() {
        0
    } else {
        let c = b[i];
        if (0x09 <= c <= 0x0d) || c == 0x20 {
            1
        } else if c == 0xc2 && i + 1 < b.len() && (b[i + 1] == 0x85 || b[i + 1] == 0xa0) {
            2
        } else if c == 0xe1 && i + 2 < b.len() && b[i + 1] == 0x9a && b[i + 2] == 0x80 {
            3
        } else if c == 0xe2 && i + 2 < b.len() && b[i + 1] == 0x80 && ((0x80 <= b[i + 2] <= 0x8a)
            || b[i + 2] == 0xa8 || b[i + 2] == 0xa9 || b[i + 2] == 0xaf) {
            3
        } else if c == 0xe2 && i + 2 < b.len() && b[i + 1] == 0x81 && b[i + 2] == 0x9f {
            3
        } else if c == 0xe3 && i + 2 < b.len() && b[i + 1] == 0x80 && b[i + 2] == 0x80 {
            3
        } else {
            0
        }
    }
}

/// Just past the white-space characters at the front of `b[i..e)`.
pub open spec fn skip_whitespace(b: Seq<u8>, i: int, e: int) -> int
    decreases e - i,
{
    if i < e && whitespace_width(b, i) > 0 && i + whitespace_width(b, i) <= e {
        skip_whitespace(b, i + whitespace_width(b, i), e)
    } else {
        i
    }
}

/// A byte that may appear in one dot-separated part of a group name.
pub open spec fn is_part_byte(c: u8) -> bool {
    (0x61 <= c <= 0x7a) || (0x41 <= c <= 0x5a) || (0x30 <= c <= 0x39) || c == 0x5f || c == 0x2d
}

/// Whether `g` is shaped like a highlight group, e.g. `function.macro`: its
/// dot-separated parts are each non-empty and made of ASCII letters, digits,
/// `_` and `-`.
pub open spec fn is_group_text(g: Seq<u8>) -> bool {
    &&& g.len() > 0
    &&& forall|k: int| 0 <= k < g.len() ==> is_part_byte(#[trigger] g[k]) || g[k] == 0x2e
    &&& g[0] != 0x2e
    &&& g.last() != 0x2e
    &&& forall|k: int| 0 <= k < g.len() - 1 ==> !(#[trigger] g[k] == 0x2e && g[k + 1] == 0x2e)
}

/// The end of the run of group-name bytes starting at `i`, within `e`.
pub open spec fn group_run_end(b: Seq<u8>, i: int, e: int) -> int
    decreases e - i,
{
    if 0 <= i < e && i < b.len() && (is_part_byte(b[i]) || b[i] == 0x2e) {
        group_run_end(b, i + 1, e)
    } else {
        i
    }
}

/// The group named by `b[s..e)` once white space is trimmed from both ends,
/// as a range of `b`, if it is shaped like one.
pub open spec fn trimmed_group(b: Seq<u8>, s: int, e: int) -> Option<(int, int)> {
    let lead = skip_whitespace(b, s, e);
    let run = group_run_end(b, lead, e);
    if skip_whitespace(b, run, e) == e && is_group_text(b.subrange(lead, run)) {
        Some((lead, run))
    } else {
        None
    }
}

/// Whether `pat` occurs in `b` at `i`.
pub open spec fn occurs_at(b: Seq<u8>, pat: Seq<u8>, i: int) -> bool {
    0 <= i && i + pat.len() <= b.len() && b.subrange(i, i + pat.len()) == pat
}

/// The first occurrence of `pat` in `b` at or after `at`.
pub open spec fn first_occurrence(b: Seq<u8>, pat: Seq<u8>, at: int) -> Option<int>
    decreases b.len() + 1 - at,
{
    if at < 0 || at + pat.len() > b.len() {
        None
    } else if occurs_at(b, pat, at) {
        Some(at)
    } else {
        first_occurrence(b, pat, at + 1)
    }
}

/// The last occurrence of `pat` in `b` starting between `lo` and `i`.
pub open spec fn last_occurrence(b: Seq<u8>, pat: Seq<u8>, lo: int, i: int) -> Option<int>
    decreases i - lo + 1,
{
    if i < lo {
        None
    } else if occurs_at(b, pat, i) {
        Some(i)
    } else {
        last_occurrence(b, pat, lo, i - 1)
    }
}

/// The opening delimiter `open` nearest in front of a marker at `marker`,
/// searching from `from`, if only white space separates the two.
pub open spec fn opening(b: Seq<u8>, from: int, marker: int, open: Seq<u8>) -> Option<int> {
    match last_occurrence(b, open, from, marker - open.len()) {
        Some(o) => if skip_whitespace(b, o + open.len(), marker) == marker {
            Some(o)
        } else {
            None
        },
        None => None,
    }
}

/// The comment form a marker at `marker` sits in: where it opens, and the
/// delimiter that closes it. Block comments are tried before HTML ones.
pub open spec fn comment_around(b: Seq<u8>, from: int, marker: int) -> Option<(int, Seq<u8>)> {
    match opening(b, from, marker, "/*".spec_bytes()) {
        Some(o) => Some((o, "*/".spec_bytes())),
        None => match opening(b, from, marker, "<!--".spec_bytes()) {
            Some(o) => Some((o, "-->".spec_bytes())),
            None => None,
        },
    }
}

/// The marker comment whose marker is at `m`, if it is usable: the comment's
/// range, and the range of the group it names.
pub open spec fn marker_comment(b: Seq<u8>, from: int, m: int) -> Option<(int, int, int, int)> {
    let group_start = m + MARKER.spec_bytes().len();
    match comment_around(b, from, m) {
        Some((o, close)) => match first_occurrence(b, close, group_start) {
            Some(c) => match trimmed_group(b, group_start, c) {
                Some((lo, hi)) => Some((o, c + close.len(), lo, hi)),
                None => None,
            },
            None => None,
        },
        None => None,
    }
}

/// The next usable marker comment at or after `at`, whose opening delimiter
/// is searched for from `from`: the comment's range and its group's range.
pub open spec fn next_marker(b: Seq<u8>, from: int, at: int) -> Option<(int, int, int, int)>
    decreases b.len() - at,
{
    if at < 0 || at > b.len() {
        None
    } else {
        match first_occurrence(b, MARKER.spec_bytes(), at) {
            None => None,
            Some(m) => match marker_comment(b, from, m) {
                Some(found) => Some(found),
                None => {
                    let group_start = m + MARKER.spec_bytes().len();
                    if at < group_start <= b.len() {
                        next_marker(b, from, group_start)
                    } else {
                        None
                    }
                },
            },
        }
    }
}

/// Stripping the marker comments of `b` from `cursor` on, after `done` has
/// been kept and `marks` recorded: the code kept, and each mark's offset in
/// it with the group it names.
#[verifier::opaque]
pub open spec fn strip_from(
    b: Seq<u8>,
    cursor: int,
    done: Seq<u8>,
    marks: Seq<(int, Seq<u8>)>,
) -> (Seq<u8>, Seq<(int, Seq<u8>)>)
    decreases b.len() - cursor,
{
    if cursor < 0 || cursor > b.len() {
        (done, marks)
    } else {
        match next_marker(b, cursor, cursor) {
            Some((o, e, lo, hi)) => if cursor <= o < e <= b.len() {
                let kept = done + b.subrange(cursor, o);
                strip_from(b, e, kept, marks.push((kept.len() as int, b.subrange(lo, hi))))
            } else {
                (done + b.subrange(cursor, b.len() as int), marks)
            },
            None => (done + b.subrange(cursor, b.len() as int), marks),
        }
    }
}

/// `b` with every marker comment removed, and the marks left behind.
pub open spec fn stripped(b: Seq<u8>) -> (Seq<u8>, Seq<(int, Seq<u8>)>) {
    strip_from(b, 0, seq![], seq![])
}

/// Code with no marker in it comes out of stripping as it went in, with no
/// overrides.
pub proof fn lemma_no_marker_untouched(b: Seq<u8>)
    requires
        first_occurrence(b, MARKER.spec_bytes(), 0) is None,
    ensures
        stripped(b) == (b, Seq::<(int, Seq<u8>)>::empty()),
{
    reveal(strip_from);
    assert(seq![] + b.subrange(0, b.len() as int) =~= b);
}

/// One override: where a marker comment was, and the group it names.
#[derive(Debug)]
pub struct Mark {
    /// Where the comment was, as an offset into the stripped code.
    pub at: usize,
    /// The group it names.
    pub group: String,
}

/// Code with its marker comments removed, and the overrides they asked for.
#[derive(Debug)]
pub struct Overrides {
    code: String,
    marks: Vec<Mark>,
}

/// A marker comment found in code.
pub struct Found {
    /// Byte range of the whole comment in the original code.
    pub comment: Range<usize>,
    /// The group it names.
    pub group: String,
}

proof fn lemma_skip_whitespace(b: Seq<u8>, i: int, e: int)
    requires
        i <= e,
    ensures
        i <= skip_whitespace(b, i, e) <= e,
    decreases e - i,
{
    if i < e && whitespace_width(b, i) > 0 && i + whitespace_width(b, i) <= e {
        lemma_skip_whitespace(b, i + whitespace_width(b, i), e);
    }
}

proof fn lemma_group_run_end(b: Seq<u8>, i: int, e: int)
    requires
        0 <= i <= e <= b.len(),
    ensures
        i <= group_run_end(b, i, e) <= e,
        forall|k: int| i <= k < group_run_end(b, i, e) ==> is_part_byte(#[trigger] b[k]) || b[k] == 0x2e,
    decreases e - i,
{
    if i < e && (is_part_byte(b[i]) || b[i] == 0x2e) {
        lemma_group_run_end(b, i + 1, e);
    }
}

proof fn lemma_first_occurrence(b: Seq<u8>, pat: Seq<u8>, at: int)
    ensures
        match first_occurrence(b, pat, at) {
            Some(m) => at <= m && occurs_at(b, pat, m),
            None => true,
        },
    decreases b.len() + 1 - at,
{
    if !(at < 0 || at + pat.len() > b.len()) && !occurs_at(b, pat, at) {
        lemma_first_occurrence(b, pat, at + 1);
    }
}

proof fn lemma_last_occurrence(b: Seq<u8>, pat: Seq<u8>, lo: int, i: int)
    ensures
        match last_occurrence(b, pat, lo, i) {
            Some(o) => lo <= o <= i && occurs_at(b, pat, o),
            None => true,
        },
    decreases i - lo + 1,
{
    if i >= lo && !occurs_at(b, pat, i) {
        lemma_last_occurrence(b, pat, lo, i - 1);
    }
}

/// The bytes of the marker and of the comment delimiters.
proof fn lemma_literals()
    ensures
        MARKER.spec_bytes().len() == 13,
        "/*".spec_bytes() == seq![0x2fu8, 0x2au8],
        "*/".spec_bytes() == seq![0x2au8, 0x2fu8],
        "<!--".spec_bytes() == seq![0x3cu8, 0x21u8, 0x2du8, 0x2du8],
        "-->".spec_bytes() == seq![0x2du8, 0x2du8, 0x3eu8],
{
    reveal_strlit("@tree-sitter:");
    assert(vstd::string::is_ascii(MARKER));
    vstd::string::is_ascii_spec_bytes(MARKER);
    reveal_strlit("/*");
    assert(vstd::string::is_ascii("/*"));
    vstd::string::is_ascii_spec_bytes("/*");
    assert("/*".spec_bytes() =~= seq![0x2fu8, 0x2au8]);
    reveal_strlit("*/");
    assert(vstd::string::is_ascii("*/"));
    vstd::string::is_ascii_spec_bytes("*/");
    assert("*/".spec_bytes() =~= seq![0x2au8, 0x2fu8]);
    reveal_strlit("<!--");
    assert(vstd::string::is_ascii("<!--"));
    vstd::string::is_ascii_spec_bytes("<!--");
    assert("<!--".spec_bytes() =~= seq![0x3cu8, 0x21u8, 0x2du8, 0x2du8]);
    reveal_strlit("-->");
    assert(vstd::string::is_ascii("-->"));
    vstd::string::is_ascii_spec_bytes("-->");
    assert("-->".spec_bytes() =~= seq![0x2du8, 0x2du8, 0x3eu8]);
}

/// What follows a marker at `m` whose comment closes with `close`: the group
/// lies after the marker and before the closing delimiter, and is ASCII.
proof fn lemma_comment_tail(b: Seq<u8>, m: int, close: Seq<u8>)
    requires
        occurs_at(b, MARKER.spec_bytes(), m),
        close.len() > 0,
        close.last() < 0x80,
    ensures
        match first_occurrence(b, close, m + MARKER.spec_bytes().len()) {
            Some(c) => match trimmed_group(b, m + MARKER.spec_bytes().len(), c) {
                Some((lo, hi)) => {
                    &&& m < lo <= hi <= c
                    &&& c + close.len() <= b.len()
                    &&& b[c + close.len() - 1] < 0x80
                    &&& all_ascii(b.subrange(lo, hi))
                    &&& is_group_text(b.subrange(lo, hi))
                },
                None => true,
            },
            None => true,
        },
{
    lemma_literals();
    let group_start = m + MARKER.spec_bytes().len();
    lemma_first_occurrence(b, close, group_start);
    match first_occurrence(b, close, group_start) {
        Some(c) => {
            assert(b[c + close.len() - 1] == b.subrange(c, c + close.len())[close.len() - 1]);
            match trimmed_group(b, group_start, c) {
                Some((lo, hi)) => {
                    let lead = skip_whitespace(b, group_start, c);
                    lemma_skip_whitespace(b, group_start, c);
                    lemma_group_run_end(b, lead, c);
                    let g = b.subrange(lo, hi);
                    assert forall|k: int| 0 <= k < g.len() implies g[k] < 0x80 by {
                        assert(g[k] == b[lo + k]);
                    }
                },
                None => {},
            }
        },
        None => {},
    }
}

/// Where a usable marker comment lies: from its opening delimiter, an ASCII
/// byte, to just past its closing one, also ASCII, around an ASCII group.
proof fn lemma_marker_comment(b: Seq<u8>, from: int, m: int)
    requires
        0 <= from,
        occurs_at(b, MARKER.spec_bytes(), m),
    ensures
        match marker_comment(b, from, m) {
            Some((o, e, lo, hi)) => {
                &&& from <= o < m < lo <= hi < e <= b.len()
                &&& b[o] < 0x80
                &&& b[e - 1] < 0x80
                &&& all_ascii(b.subrange(lo, hi))
                &&& is_group_text(b.subrange(lo, hi))
            },
            None => true,
        },
{
    lemma_literals();
    match opening(b, from, m, "/*".spec_bytes()) {
        Some(o) => {
            lemma_last_occurrence(b, "/*".spec_bytes(), from, m - 2);
            assert(b[o] == b.subrange(o, o + 2)[0]);
            lemma_comment_tail(b, m, "*/".spec_bytes());
        },
        None => match opening(b, from, m, "<!--".spec_bytes()) {
            Some(o) => {
                lemma_last_occurrence(b, "<!--".spec_bytes(), from, m - 4);
                assert(b[o] == b.subrange(o, o + 4)[0]);
                lemma_comment_tail(b, m, "-->".spec_bytes());
            },
            None => {},
        },
    }
}

proof fn lemma_next_marker(b: Seq<u8>, from: int, at: int)
    requires
        0 <= from,
    ensures
        match next_marker(b, from, at) {
            Some((o, e, lo, hi)) => {
                &&& from <= o < lo <= hi < e <= b.len()
                &&& at < e
                &&& b[o] < 0x80
                &&& b[e - 1] < 0x80
                &&& all_ascii(b.subrange(lo, hi))
                &&& is_group_text(b.subrange(lo, hi))
            },
            None => true,
        },
    decreases b.len() - at,
{
    if 0 <= at <= b.len() {
        lemma_first_occurrence(b, MARKER.spec_bytes(), at);
        match first_occurrence(b, MARKER.spec_bytes(), at) {
            Some(m) => {
                lemma_marker_comment(b, from, m);
                match marker_comment(b, from, m) {
                    Some(found) => {},
                    None => {
                        let group_start = m + MARKER.spec_bytes().len();
                        if at < group_start <= b.len() {
                            lemma_next_marker(b, from, group_start);
                        }
                    },
                }
            },
            None => {},
        }
    }
}

fn whitespace_width_exec(b: &[u8], i: usize) -> (w: usize)
    requires
        i <= b@.len(),
    ensures
        w == whitespace_width(b@, i as int),
{
    if i >= b.len() {
        return 0;
    }
    let c = b[i];
    let left = b.len() - i;
    if (0x09 <= c && c <= 0x0d) || c == 0x20 {
        1
    } else if c == 0xc2 && left > 1 && (b[i + 1] == 0x85 || b[i + 1] == 0xa0) {
        2
    } else if c == 0xe1 && left > 2 && b[i + 1] == 0x9a && b[i + 2] == 0x80 {
        3
    } else if c == 0xe2 && left > 2 && b[i + 1] == 0x80 && ((0x80 <= b[i + 2] && b[i + 2] <= 0x8a)
        || b[i + 2] == 0xa8 || b[i + 2] == 0xa9 || b[i + 2] == 0xaf) {
        3
    } else if c == 0xe2 && left > 2 && b[i + 1] == 0x81 && b[i + 2] == 0x9f {
        3
    } else if c == 0xe3 && left > 2 && b[i + 1] == 0x80 && b[i + 2] == 0x80 {
        3
    } else {
        0
    }
}

fn skip_whitespace_exec(b: &[u8], i: usize, e: usize) -> (r: usize)
    requires
        i <= e <= b@.len(),
    ensures
        r == skip_whitespace(b@, i as int, e as int),
        i <= r <= e,
{
    let mut j = i;
    while j < e
        invariant
            i <= j <= e <= b@.len(),
            skip_whitespace(b@, i as int, e as int) == skip_whitespace(b@, j as int, e as int),
        decreases e - j,
    {
        let w = whitespace_width_exec(b, j);
        if w == 0 || w > e - j {
            return j;
        }
        j += w;
    }
    j
}

fn group_run_end_exec(b: &[u8], i: usize, e: usize) -> (r: usize)
    requires
        i <= e <= b@.len(),
    ensures
        r == group_run_end(b@, i as int, e as int),
{
    let mut j = i;
    while j < e
        invariant
            i <= j <= e <= b@.len(),
            group_run_end(b@, i as int, e as int) == group_run_end(b@, j as int, e as int),
        decreases e - j,
    {
        let c = b[j];
        let part = (0x61 <= c && c <= 0x7a) || (0x41 <= c && c <= 0x5a) || (0x30 <= c && c <= 0x39)
            || c == 0x5f || c == 0x2d;
        if !(part || c == 0x2e) {
            return j;
        }
        j += 1;
    }
    j
}

fn is_group_bytes(g: &[u8], lo: usize, hi: usize) -> (r: bool)
    requires
        lo <= hi <= g@.len(),
    ensures
        r == is_group_text(g@.subrange(lo as int, hi as int)),
{
    let ghost s = g@.subrange(lo as int, hi as int);
    if lo == hi {
        return false;
    }
    let mut i = lo;
    while i < hi
        invariant
            lo <= i <= hi <= g@.len(),
            s == g@.subrange(lo as int, hi as int),
            s.len() > 0,
            forall|k: int| 0 <= k < i - lo ==> is_part_byte(#[trigger] s[k]) || s[k] == 0x2e,
            i > lo ==> s[0] != 0x2e,
            forall|k: int| 0 <= k < i - lo - 1 ==> !(#[trigger] s[k] == 0x2e && s[k + 1] == 0x2e),
        decreases hi - i,
    {
        let c = g[i];
        let part = (0x61 <= c && c <= 0x7a) || (0x41 <= c && c <= 0x5a) || (0x30 <= c && c <= 0x39)
            || c == 0x5f || c == 0x2d;
        if !part && c != 0x2e {
            assert(s[i - lo] == c);
            return false;
        }
        if c == 0x2e && (i == lo || g[i - 1] == 0x2e) {
            assert(s[i - lo] == c);
            if i > lo {
                assert(s[i - lo - 1] == 0x2e);
            }
            return false;
        }
        i += 1;
    }
    if g[hi - 1] == 0x2e {
        assert(s.last() == 0x2e);
        return false;
    }
    true
}

/// Whether a string is shaped like a highlight group, e.g. `function.macro`.
pub fn is_group(group: &str) -> (r: bool)
    ensures
        r == is_group_text(group.spec_bytes()),
{
    let b = group.as_bytes();
    let r = is_group_bytes(b, 0, b.len());
    assert(b@.subrange(0, b@.len() as int) =~= b@);
    r
}

fn first_occurrence_exec(b: &[u8], pat: &[u8], at: usize) -> (r: Option<usize>)
    requires
        at <= b@.len(),
        pat@.len() > 0,
    ensures
        match r {
            Some(m) => first_occurrence(b@, pat@, at as int) == Some(m as int),
            None => first_occurrence(b@, pat@, at as int) is None,
        },
{
    let mut i = at;
    while pat.len() <= b.len() - i
        invariant
            pat@.len() > 0,
            at <= i <= b@.len(),
            first_occurrence(b@, pat@, at as int) == first_occurrence(b@, pat@, i as int),
        decreases b@.len() - i,
    {
        if bytes_at(b, i, pat) {
            return Some(i);
        }
        i += 1;
    }
    None
}

fn last_occurrence_exec(b: &[u8], pat: &[u8], lo: usize, end: usize) -> (r: Option<usize>)
    requires
        lo <= end <= b@.len(),
    ensures
        match r {
            Some(o) => last_occurrence(b@, pat@, lo as int, end - pat@.len()) == Some(o as int),
            None => last_occurrence(b@, pat@, lo as int, end - pat@.len()) is None,
        },
{
    if end - lo < pat.len() {
        return None;
    }
    let mut i = end - pat.len();
    loop
        invariant
            lo <= i,
            i + pat@.len() <= end <= b@.len(),
            last_occurrence(b@, pat@, lo as int, end - pat@.len()) == last_occurrence(
                b@,
                pat@,
                lo as int,
                i as int,
            ),
        decreases i,
    {
        if bytes_at(b, i, pat) {
            return Some(i);
        }
        if i == lo {
            assert(last_occurrence(b@, pat@, lo as int, lo - 1) is None);
            return None;
        }
        i -= 1;
    }
}

fn opening_exec(b: &[u8], from: usize, marker: usize, open: &[u8]) -> (r: Option<usize>)
    requires
        from <= marker <= b@.len(),
    ensures
        match r {
            Some(o) => opening(b@, from as int, marker as int, open@) == Some(o as int),
            None => opening(b@, from as int, marker as int, open@) is None,
        },
{
    match last_occurrence_exec(b, open, from, marker) {
        Some(o) => {
            proof {
                lemma_last_occurrence(b@, open@, from as int, marker - open@.len());
            }
            if skip_whitespace_exec(b, o + open.len(), marker) == marker {
                Some(o)
            } else {
                None
            }
        },
        None => None,
    }
}

fn marker_comment_exec(b: &[u8], from: usize, m: usize) -> (r: Option<(usize, usize, usize, usize)>)
    requires
        from <= m,
        occurs_at(b@, MARKER.spec_bytes(), m as int),
    ensures
        match r {
            Some((o, e, lo, hi)) => marker_comment(b@, from as int, m as int) == Some(
                (o as int, e as int, lo as int, hi as int),
            ),
            None => marker_comment(b@, from as int, m as int) is None,
        },
{
    proof {
        lemma_literals();
    }
    assert(m + MARKER.len() <= b.len());
    let group_start = m + MARKER.len();
    let candidate = match opening_exec(b, from, m, "/*".as_bytes()) {
        Some(o) => Some((o, "*/".as_bytes())),
        None => match opening_exec(b, from, m, "<!--".as_bytes()) {
            Some(o) => Some((o, "-->".as_bytes())),
            None => None,
        },
    };
    match candidate {
        Some((o, close)) => {
            assert(comment_around(b@, from as int, m as int) == Some((o as int, close@)));
            match first_occurrence_exec(b, close, group_start) {
                Some(c) => {
                    proof {
                        lemma_first_occurrence(b@, close@, group_start as int);
                    }
                    let lead = skip_whitespace_exec(b, group_start, c);
                    let run = group_run_end_exec(b, lead, c);
                    proof {
                        lemma_group_run_end(b@, lead as int, c as int);
                    }
                    assert(c + close.len() <= b.len());
                    if skip_whitespace_exec(b, run, c) == c && is_group_bytes(b, lead, run) {
                        Some((o, c + close.len(), lead, run))
                    } else {
                        None
                    }
                },
                None => None,
            }
        },
        None => {
            assert(comment_around(b@, from as int, m as int) is None);
            None
        },
    }
}

fn next_marker_exec(b: &[u8], from: usize) -> (r: Option<(usize, usize, usize, usize)>)
    requires
        from <= b@.len(),
    ensures
        match r {
            Some((o, e, lo, hi)) => next_marker(b@, from as int, from as int) == Some(
                (o as int, e as int, lo as int, hi as int),
            ),
            None => next_marker(b@, from as int, from as int) is None,
        },
{
    proof {
        lemma_literals();
    }
    let mut at = from;
    loop
        invariant
            from <= at <= b@.len(),
            next_marker(b@, from as int, from as int) == next_marker(b@, from as int, at as int),
        decreases b@.len() - at,
    {
        proof {
            lemma_literals();
        }
        match first_occurrence_exec(b, MARKER.as_bytes(), at) {
            None => {
                return None;
            },
            Some(m) => {
                proof {
                    lemma_first_occurrence(b@, MARKER.spec_bytes(), at as int);
                }
                match marker_comment_exec(b, from, m) {
                    Some(found) => {
                        return Some(found);
                    },
                    None => {
                        assert(m + MARKER.len() <= b.len());
                        at = m + MARKER.len();
                        assert(next_marker(b@, from as int, from as int) == next_marker(
                            b@,
                            from as int,
                            at as int,
                        ));
                    },
                }
            },
        }
    }
}

/// The next marker comment at or after `from`.
pub fn find_marker(code: &str, from: usize) -> (r: Option<Found>)
    requires
        from <= code.spec_bytes().len(),
    ensures
        match next_marker(code.spec_bytes(), from as int, from as int) {
            Some((o, e, lo, hi)) => r is Some && r->0.comment == (o as usize..e as usize) && encode_utf8(
                r->0.group@,
            ) == code.spec_bytes().subrange(lo, hi),
            None => r is None,
        },
{
    let b = code.as_bytes();
    match next_marker_exec(b, from) {
        Some((o, e, lo, hi)) => {
            proof {
                lemma_next_marker(b@, from as int, from as int);
                lemma_ascii_valid(b@.subrange(lo as int, hi as int));
            }
            let mut group: Vec<u8> = Vec::new();
            push_range(&mut group, b, lo, hi);
            Some(Found { comment: o..e, group: utf8_to_string(group) })
        },
        None => None,
    }
}

/// A span as plain values: its byte range and the text of its group.
pub open spec fn span_view(span: Span) -> (int, int, Option<Seq<char>>) {
    (span.range.start as int, span.range.end as int, group_text(span.group))
}

/// Spans as plain values.
pub open spec fn spans_view(spans: Seq<Span>) -> Seq<(int, int, Option<Seq<char>>)> {
    spans.map_values(|span: Span| span_view(span))
}

/// The first character of `text` from `from` on that is not white space.
pub open spec fn first_code(text: Seq<u8>, from: int) -> Option<int> {
    let r = skip_whitespace(text, from, text.len() as int);
    if r < text.len() {
        Some(r)
    } else {
        None
    }
}

/// The first span, from index `i` on, whose range holds byte `t`.
pub open spec fn containing(spans: Seq<(int, int, Option<Seq<char>>)>, t: int, i: int) -> Option<int>
    decreases spans.len() - i,
{
    if i < 0 || i >= spans.len() {
        None
    } else if spans[i].0 <= t < spans[i].1 {
        Some(i)
    } else {
        containing(spans, t, i + 1)
    }
}

/// `spans` with the mark at `at` naming `group` applied: the span holding
/// the first non-white-space character after the mark is retagged, split
/// first if that character is inside it.
pub open spec fn retag(
    spans: Seq<(int, int, Option<Seq<char>>)>,
    text: Seq<u8>,
    at: int,
    group: Seq<char>,
) -> Seq<(int, int, Option<Seq<char>>)> {
    match first_code(text, at) {
        None => spans,
        Some(t) => match containing(spans, t, 0) {
            None => spans,
            Some(i) => if spans[i].0 == t {
                spans.update(i, (spans[i].0, spans[i].1, Some(group)))
            } else {
                spans.update(i, (spans[i].0, t, spans[i].2)).insert(i + 1, (t, spans[i].1, Some(group)))
            },
        },
    }
}

/// `spans` with every mark applied, in order.
pub open spec fn retag_all(
    spans: Seq<(int, int, Option<Seq<char>>)>,
    text: Seq<u8>,
    marks: Seq<(int, Seq<char>)>,
) -> Seq<(int, int, Option<Seq<char>>)>
    decreases marks.len(),
{
    if marks.len() == 0 {
        spans
    } else {
        retag(retag_all(spans, text, marks.drop_last()), text, marks.last().0, marks.last().1)
    }
}

/// Marks as plain values: the offset, and the group's text.
pub open spec fn marks_view(marks: Seq<Mark>) -> Seq<(int, Seq<char>)> {
    marks.map_values(|mark: Mark| (mark.at as int, mark.group@))
}

/// Marks as plain values, with each group's UTF-8 bytes.
pub open spec fn marks_bytes(marks: Seq<Mark>) -> Seq<(int, Seq<u8>)> {
    marks.map_values(|mark: Mark| (mark.at as int, encode_utf8(mark.group@)))
}

/// The first span whose range holds byte `t`.
fn find_containing(spans: &Vec<Span>, t: usize) -> (r: Option<usize>)
    ensures
        match r {
            Some(i) => containing(spans_view(spans@), t as int, 0) == Some(i as int),
            None => containing(spans_view(spans@), t as int, 0) is None,
        },
        r is Some ==> r->0 < spans@.len(),
{
    proof {
        lemma_containing(spans_view(spans@), t as int, 0);
    }
    let ghost v = spans_view(spans@);
    let mut i: usize = 0;
    while i < spans.len()
        invariant
            i <= spans@.len(),
            v == spans_view(spans@),
            containing(v, t as int, 0) == containing(v, t as int, i as int),
        decreases spans@.len() - i,
    {
        if spans[i].range.start <= t && t < spans[i].range.end {
            return Some(i);
        }
        i += 1;
    }
    None
}

proof fn lemma_containing(spans: Seq<(int, int, Option<Seq<char>>)>, t: int, i: int)
    requires
        0 <= i,
    ensures
        containing(spans, t, i) is Some ==> i <= containing(spans, t, i)->0 < spans.len(),
    decreases spans.len() - i,
{
    if i < spans.len() && !(spans[i].0 <= t < spans[i].1) {
        lemma_containing(spans, t, i + 1);
    }
}

/// Code with no marker in it is kept whole.
proof fn lemma_strip_nothing(b: Seq<u8>)
    requires
        first_occurrence(b, MARKER.spec_bytes(), 0) is None,
    ensures
        stripped(b) == (b, Seq::<(int, Seq<u8>)>::empty()),
{
    reveal(strip_from);
    assert(next_marker(b, 0, 0) is None);
    assert(seq![] + b.subrange(0, b.len() as int) =~= b);
}

/// One step of stripping: the comment found at `cursor` is cut out.
proof fn lemma_strip_step(
    b: Seq<u8>,
    cursor: int,
    done: Seq<u8>,
    marks: Seq<(int, Seq<u8>)>,
)
    requires
        0 <= cursor <= b.len(),
        next_marker(b, cursor, cursor) is Some,
    ensures
        ({
            let (o, e, lo, hi) = next_marker(b, cursor, cursor)->0;
            let kept = done + b.subrange(cursor, o);
            strip_from(b, cursor, done, marks) == strip_from(
                b,
                e,
                kept,
                marks.push((kept.len() as int, b.subrange(lo, hi))),
            )
        }),
{
    lemma_next_marker(b, cursor, cursor);
    reveal(strip_from);
}

/// The last step of stripping: nothing is left to cut.
proof fn lemma_strip_end(b: Seq<u8>, cursor: int, done: Seq<u8>, marks: Seq<(int, Seq<u8>)>)
    requires
        0 <= cursor <= b.len(),
        next_marker(b, cursor, cursor) is None,
    ensures
        strip_from(b, cursor, done, marks) == (done + b.subrange(cursor, b.len() as int), marks),
{
    reveal(strip_from);
}

/// Stripping from `cursor` on records a mark exactly when it cuts something:
/// with no new mark the rest is kept whole, and each new mark makes the kept
/// code shorter than the text.
proof fn lemma_strip_shortens(b: Seq<u8>, cursor: int, done: Seq<u8>, marks: Seq<(int, Seq<u8>)>)
    requires
        0 <= cursor <= b.len(),
    ensures
        ({
            let (kept, all) = strip_from(b, cursor, done, marks);
            &&& all.len() >= marks.len()
            &&& all.len() == marks.len() ==> kept == done + b.subrange(cursor, b.len() as int)
            &&& all.len() > marks.len() ==> kept.len() < done.len() + b.len() - cursor
            &&& kept.len() <= done.len() + b.len() - cursor
        }),
    decreases b.len() - cursor,
{
    lemma_next_marker(b, cursor, cursor);
    match next_marker(b, cursor, cursor) {
        Some((o, e, lo, hi)) => {
            lemma_strip_step(b, cursor, done, marks);
            let kept = done + b.subrange(cursor, o);
            lemma_strip_shortens(b, e, kept, marks.push((kept.len() as int, b.subrange(lo, hi))));
        },
        None => {
            lemma_strip_end(b, cursor, done, marks);
        },
    }
}

/// Code comes out of stripping unchanged exactly when no override was found
/// in it: no marks means nothing was cut, and any mark means its comment was.
pub proof fn lemma_no_marks_iff_unchanged(b: Seq<u8>)
    ensures
        (stripped(b).1.len() == 0) == (stripped(b).0 == b),
{
    lemma_strip_shortens(b, 0, seq![], seq![]);
    assert(Seq::<u8>::empty() + b.subrange(0, b.len() as int) =~= b);
}

impl Overrides {
    /// The stripped code, as UTF-8 bytes.
    pub closed spec fn text(&self) -> Seq<u8> {
        encode_utf8(self.code@)
    }

    /// The marks, in the order their comments appeared.
    pub closed spec fn mark_list(&self) -> Seq<Mark> {
        self.marks@
    }

    /// Every mark points into the stripped code.
    pub closed spec fn wf(&self) -> bool {
        forall|k: int| 0 <= k < self.marks@.len() ==> #[trigger] self.marks@[k].at <= encode_utf8(
            self.code@,
        ).len()
    }

    /// The code to parse and highlight, without the marker comments.
    pub fn code(&self) -> (r: &str)
        ensures
            r.spec_bytes() == self.text(),
    {
        self.code.as_str()
    }

    /// Whether any marker was found.
    pub fn is_empty(&self) -> (r: bool)
        ensures
            r == (self.mark_list().len() == 0),
    {
        self.marks.len() == 0
    }

    /// The marks, in the order their comments appeared.
    pub fn marks(&self) -> (r: &[Mark])
        ensures
            r@ == self.mark_list(),
    {
        self.marks.as_slice()
    }

    /// The first byte at or after `from` that starts a character other than
    /// white space.
    pub fn first_code_byte(&self, from: usize) -> (r: Option<usize>)
        requires
            from <= self.text().len(),
        ensures
            match r {
                Some(t) => first_code(self.text(), from as int) == Some(t as int),
                None => first_code(self.text(), from as int) is None,
            },
    {
        let b = self.code.as_str().as_bytes();
        let r = skip_whitespace_exec(b, from, b.len());
        if r < b.len() {
            Some(r)
        } else {
            None
        }
    }

    /// Retag the spans each marker points at.
    ///
    /// A marker applies to the first non-whitespace character after it. If
    /// that character sits inside a longer span, the span is split so only the
    /// part from there on is retagged.
    pub fn apply<'a>(&'a self, spans: Vec<Span<'a>>) -> (r: Vec<Span<'a>>)
        requires
            self.wf(),
        ensures
            spans_view(r@) == retag_all(spans_view(spans@), self.text(), marks_view(self.mark_list())),
    {
        let ghost marks = marks_view(self.marks@);
        let ghost text = self.text();
        let ghost original = spans_view(spans@);
        if self.marks.len() == 0 {
            assert(marks =~= seq![]);
            return spans;
        }
        let mut spans = spans;
        let mut k: usize = 0;
        while k < self.marks.len()
            invariant
                self.wf(),
                text == self.text(),
                marks == marks_view(self.marks@),
                k <= self.marks@.len(),
                spans_view(spans@) == retag_all(original, text, marks.take(k as int)),
            decreases self.marks@.len() - k,
        {
            let ghost before = spans_view(spans@);
            let mark = &self.marks[k];
            assert(marks.take(k + 1).drop_last() =~= marks.take(k as int));
            assert(marks.take(k + 1).last() == (mark.at as int, mark.group@));
            let ghost tag_text = mark.group@;
            match self.first_code_byte(mark.at) {
                None => {
                    assert(spans_view(spans@) == retag(before, text, mark.at as int, tag_text));
                },
                Some(target) => {
                    let found = find_containing(&spans, target);
                    match found {
                        None => {
                            assert(spans_view(spans@) == retag(before, text, mark.at as int, tag_text));
                        },
                        Some(index) => {
                            assert(index < spans.len());
                            let start = spans[index].range.start;
                            let end = spans[index].range.end;
                            let group = spans[index].group;
                            let tag: Option<&'a str> = Some(mark.group.as_str());
                            if start == target {
                                spans.set(index, Span { range: start..end, group: tag });
                                assert(spans_view(spans@) =~= before.update(
                                    index as int,
                                    (before[index as int].0, before[index as int].1, Some(mark.group@)),
                                ));
                            } else {
                                spans.set(index, Span { range: start..target, group });
                                let ghost mid = spans@;
                                spans.insert(index + 1, Span { range: target..end, group: tag });
                                assert(spans_view(mid) =~= before.update(
                                    index as int,
                                    (before[index as int].0, target as int, before[index as int].2),
                                ));
                                assert(spans_view(spans@) =~= spans_view(mid).insert(
                                    index + 1,
                                    (target as int, before[index as int].1, Some(mark.group@)),
                                ));
                            }
                            assert(spans_view(spans@) == retag(before, text, mark.at as int, tag_text));
                        },
                    }
                },
            }
            k += 1;
        }
        assert(marks.take(self.marks@.len() as int) =~= marks);
        spans
    }
}

/// The overrides of some code are empty exactly when stripping left the
/// code as it was: `is_empty` says so, and then `code` is the input itself.
pub proof fn lemma_is_empty_iff_code_unchanged(code: &str, o: &Overrides)
    requires
        o.text() == stripped(code.spec_bytes()).0,
        marks_bytes(o.mark_list()) == stripped(code.spec_bytes()).1,
    ensures
        (o.mark_list().len() == 0) == (o.text() == code.spec_bytes()),
{
    lemma_no_marks_iff_unchanged(code.spec_bytes());
}

/// Remove every marker comment from `code` and record what it asked for.
pub fn strip_overrides(code: &str) -> (o: Overrides)
    ensures
        o.wf(),
        o.text() == stripped(code.spec_bytes()).0,
        marks_bytes(o.mark_list()) == stripped(code.spec_bytes()).1,
{
    let b = code.as_bytes();
    let ghost bytes = b@;
    proof {
        lemma_literals();
        lemma_str_valid(code);
    }
    if first_occurrence_exec(b, MARKER.as_bytes(), 0).is_none() {
        proof {
            lemma_strip_nothing(bytes);
        }
        let no_marks: Vec<Mark> = Vec::new();
        assert(marks_bytes(no_marks@) =~= seq![]);
        return Overrides { code: String::from_str(code), marks: no_marks };
    }
    let mut kept: Vec<u8> = Vec::new();
    let mut marks: Vec<Mark> = Vec::new();
    let mut cursor: usize = 0;
    assert(marks_bytes(marks@) =~= seq![]);
    loop
        invariant_except_break
            stripped(bytes) == strip_from(bytes, cursor as int, kept@, marks_bytes(marks@)),
        invariant
            bytes == b@,
            valid_utf8(bytes),
            cursor <= bytes.len(),
            char_start(bytes, cursor as int),
            valid_utf8(kept@),
            forall|k: int| 0 <= k < marks@.len() ==> #[trigger] marks@[k].at <= kept@.len(),
        ensures
            stripped(bytes) == (kept@, marks_bytes(marks@)),
        decreases bytes.len() - cursor,
    {
        proof {
            lemma_next_marker(bytes, cursor as int, cursor as int);
        }
        match next_marker_exec(b, cursor) {
            Some((o, e, lo, hi)) => {
                let ghost before = kept@;
                let ghost old_marks = marks@;
                proof {
                    lemma_strip_step(bytes, cursor as int, before, marks_bytes(old_marks));
                    assert(char_start(bytes, o as int));
                    lemma_valid_subrange(bytes, cursor as int, o as int);
                    valid_utf8_concat(before, bytes.subrange(cursor as int, o as int));
                    lemma_after_ascii(bytes, e - 1);
                    lemma_ascii_valid(bytes.subrange(lo as int, hi as int));
                }
                push_range(&mut kept, b, cursor, o);
                let mut group: Vec<u8> = Vec::new();
                push_range(&mut group, b, lo, hi);
                let group = utf8_to_string(group);
                marks.push(Mark { at: kept.len(), group });
                assert(marks_bytes(marks@) =~= marks_bytes(old_marks).push(
                    (kept@.len() as int, bytes.subrange(lo as int, hi as int)),
                ));
                assert forall|k: int| 0 <= k < marks@.len() implies #[trigger] marks@[k].at
                    <= kept@.len() by {
                    if k < old_marks.len() {
                        assert(marks@[k] == old_marks[k]);
                    }
                }
                cursor = e;
            },
            None => {
                proof {
                    lemma_strip_end(bytes, cursor as int, kept@, marks_bytes(marks@));
                    lemma_valid_subrange(bytes, cursor as int, bytes.len() as int);
                    valid_utf8_concat(kept@, bytes.subrange(cursor as int, bytes.len() as int));
                }
                push_range(&mut kept, b, cursor, b.len());
                break;
            },
        }
    }
    let text = utf8_to_string(kept);
    Overrides { code: text, marks }
}

} // verus!

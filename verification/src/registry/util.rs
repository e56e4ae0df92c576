//! Small text rules shared by the registry's users.
use vstd::prelude::*;
use vstd::string::StringSliceAdditionalSpecFns;
use vstd::utf8::*;

use crate::text::{
    char_start, chars_of, lemma_char_start_is_boundary, lemma_str_valid, push_char, str_get,
    is_white_space, trim_end, trim_range, trim_start, trimmed,
};

verus! {

broadcast use vstd::seq_lib::group_seq_properties;

/// Whether a byte is an ASCII hex digit.
pub open spec fn is_hex_digit(b: u8) -> bool {
    (0x30 <= b <= 0x39) || (0x61 <= b <= 0x66) || (0x41 <= b <= 0x46)
}

/// Whether a revision is a full commit SHA: forty hex digits.
pub open spec fn is_sha(b: Seq<u8>) -> bool {
    b.len() == 40 && forall|k: int| 0 <= k < b.len() ==> is_hex_digit(#[trigger] b[k])
}

/// A short, filesystem-safe form of a pinned revision, for cache keys.
///
/// Commit SHAs are truncated to 8 characters; anything else -- nvim-treesitter
/// pins a handful of grammars to a tag such as `v1.2.3` -- is kept whole, since
/// truncating it would collide across versions.
pub fn short_revision(revision: &str) -> (r: &str)
    ensures
        r.spec_bytes() == if is_sha(revision.spec_bytes()) {
            revision.spec_bytes().take(8)
        } else {
            revision.spec_bytes()
        },
{
    let b = revision.as_bytes();
    if b.len() != 40 {
        return revision;
    }
    let mut i: usize = 0;
    while i < b.len()
        invariant
            b@ == revision.spec_bytes(),
            b@.len() == 40,
            i <= 40,
            forall|k: int| 0 <= k < i ==> is_hex_digit(#[trigger] b@[k]),
        decreases 40 - i,
    {
        let c = b[i];
        if !((0x30 <= c && c <= 0x39) || (0x61 <= c && c <= 0x66) || (0x41 <= c && c <= 0x46)) {
            return revision;
        }
        i += 1;
    }
    proof {
        lemma_str_valid(revision);
        assert(char_start(b@, 8));
        lemma_char_start_is_boundary(b@, 8);
        lemma_char_start_is_boundary(b@, 0);
    }
    match str_get(revision, 0, 8) {
        Some(head) => head,
        None => revision,
    }
}

/// A character in lower case, when it is an ASCII letter.
pub open spec fn ascii_lower(c: char) -> char {
    if 'A' <= c <= 'Z' {
        ((c as u32) + 32) as char
    } else {
        c
    }
}

/// A tag in the form the lookup tables are keyed by: trimmed of white space
/// and with ASCII letters in lower case.
pub open spec fn normalized(tag: Seq<char>) -> Seq<char> {
    trimmed(tag).map_values(|c: char| ascii_lower(c))
}

/// Reduce a tag to the form the lookup tables are keyed by.
///
/// Tags arrive from three places that all have to agree -- a markdown fence, an
/// `include`/`exclude` entry in `book.toml`, and the language an injections
/// query names -- so the normalisation lives in one place rather than at each
/// call site.
pub fn normalize_tag(tag: &str) -> (r: String)
    ensures
        r@ == normalized(tag@),
{
    let chars = chars_of(tag);
    let (lo, hi) = trim_range(chars.as_slice());
    let ghost t = trimmed(tag@);
    let mut out = String::new();
    let mut i = lo;
    while i < hi
        invariant
            lo <= i <= hi <= chars@.len(),
            t == chars@.subrange(lo as int, hi as int),
            out@ == t.take(i - lo).map_values(|c: char| ascii_lower(c)),
        decreases hi - i,
    {
        let c = chars[i];
        let lower = if 'A' <= c && c <= 'Z' {
            ((c as u8) + 32) as char
        } else {
            c
        };
        push_char(&mut out, lower);
        i += 1;
        assert(t.take(i - lo) =~= t.take(i - lo - 1).push(c));
        assert(out@ =~= t.take(i - lo).map_values(|c: char| ascii_lower(c)));
    }
    assert(t.take(hi - lo) =~= t);
    out
}

/// What trimming the start leaves begins with no white space.
proof fn lemma_trim_start_front(t: Seq<char>)
    ensures
        trim_start(t).len() > 0 ==> !is_white_space(trim_start(t)[0]),
    decreases t.len(),
{
    if t.len() > 0 && is_white_space(t[0]) {
        lemma_trim_start_front(t.drop_first());
    }
}

/// What trimming the end leaves ends with no white space, and starts as the
/// text did.
proof fn lemma_trim_end_ends(t: Seq<char>)
    ensures
        trim_end(t).len() > 0 ==> !is_white_space(trim_end(t).last()) && trim_end(t)[0] == t[0],
    decreases t.len(),
{
    if t.len() > 0 && is_white_space(t.last()) {
        lemma_trim_end_ends(t.drop_last());
    }
}

/// A normalized tag is its own normal form: normalizing twice changes
/// nothing. It has no white space at either end and no ASCII capital, and
/// every character that is not an ASCII capital is kept as it was.
pub proof fn lemma_normalize_tag_stable(tag: Seq<char>)
    ensures
        normalized(normalized(tag)) == normalized(tag),
        normalized(tag).len() == trimmed(tag).len(),
        normalized(tag).len() > 0 ==> !is_white_space(normalized(tag)[0]) && !is_white_space(
            normalized(tag).last(),
        ),
        forall|i: int| 0 <= i < normalized(tag).len() ==> !('A' <= #[trigger] normalized(tag)[i] <= 'Z'),
        forall|i: int|
            0 <= i < trimmed(tag).len() && !('A' <= #[trigger] trimmed(tag)[i] <= 'Z') ==> normalized(tag)[i]
                == trimmed(tag)[i],
{
    let u = trimmed(tag);
    let n = normalized(tag);
    lemma_trim_start_front(tag);
    lemma_trim_end_ends(trim_start(tag));
    assert forall|i: int| 0 <= i < n.len() implies !('A' <= #[trigger] n[i] <= 'Z') && (is_white_space(n[i])
        == is_white_space(u[i])) by {
        let c = u[i];
        if 'A' <= c <= 'Z' {
            assert(n[i] == ((c as u32) + 32) as char);
            assert(65 <= (c as u32) <= 90);
            assert(97 <= (n[i] as u32) <= 122);
        }
    }
    if n.len() > 0 {
        assert(n[0] == ascii_lower(u[0]));
        assert(n.last() == ascii_lower(u.last()));
    }
    assert(trim_start(n) == n);
    assert(trim_end(n) == n);
    assert(trimmed(n) == n);
    assert(n.map_values(|c: char| ascii_lower(c)) =~= n);
}

} // verus!

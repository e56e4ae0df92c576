//! Facts and helpers about text shared by the rest of the library.
//!
//! Most of the library scans text as UTF-8 bytes, as tree-sitter and the
//! Markdown parser report positions, and cuts it only where a character
//! starts. The lemmas here say when a byte position is such a place, and that text assembled
//! from such pieces is still UTF-8.
use vstd::prelude::*;
use vstd::string::StringSliceAdditionalSpecFns;
use vstd::utf8::*;

verus! {

broadcast use vstd::seq_lib::group_seq_properties;

/// The lower-case hex digit for a value below 16.
pub open spec fn hex_digit(n: u8) -> char {
    if n < 10 {
        ((48 + n) as u8) as char
    } else {
        ((87 + n) as u8) as char
    }
}

/// Whether position `i` of `b` is where a character starts, or the end.
pub open spec fn char_start(b: Seq<u8>, i: int) -> bool {
    i == b.len() || (0 <= i < b.len() && !is_continuation_byte(b[i]))
}

/// Whether every byte of `b` is ASCII.
pub open spec fn all_ascii(b: Seq<u8>) -> bool {
    forall|k: int| 0 <= k < b.len() ==> b[k] < 0x80
}

/// In UTF-8 text, a character starts exactly where no continuation byte is.
pub proof fn lemma_char_start_is_boundary(b: Seq<u8>, i: int)
    requires
        valid_utf8(b),
        char_start(b, i),
    ensures
        is_char_boundary(b, i),
{
    if i == b.len() {
        is_char_boundary_start_end_of_seq(b);
    } else {
        is_char_boundary_iff_not_is_continuation_byte(b, i);
    }
}

/// In UTF-8 text, a character starts right after an ASCII byte.
pub proof fn lemma_after_ascii(b: Seq<u8>, i: int)
    requires
        valid_utf8(b),
        0 <= i < b.len(),
        b[i] < 0x80,
    ensures
        char_start(b, i + 1),
    decreases b.len(),
{
    let l = length_of_first_scalar(b);
    let rest = pop_first_scalar(b);
    assert(valid_first_scalar(b) && valid_utf8(rest));
    assert(1 <= l <= b.len());
    assert(rest.len() == b.len() - l);
    assert forall|k: int| 0 <= k < rest.len() implies rest[k] == b[k + l] by {}
    if i < l {
        // Only a one-byte character holds an ASCII byte.
        assert(l == 1 && i == 0);
        if i + 1 < b.len() {
            assert(valid_first_scalar(rest));
            assert(rest[0] == b[1]);
        }
    } else {
        lemma_after_ascii(rest, i - l);
        assert(rest[i - l] == b[i]);
    }
}

/// A piece of UTF-8 text cut where characters start is UTF-8.
pub proof fn lemma_valid_subrange(b: Seq<u8>, i: int, j: int)
    requires
        valid_utf8(b),
        char_start(b, i),
        char_start(b, j),
        i <= j,
    ensures
        valid_utf8(b.subrange(i, j)),
{
    lemma_char_start_is_boundary(b, i);
    valid_utf8_split(b, i);
    let tail = b.subrange(i, b.len() as int);
    assert(char_start(tail, j - i));
    lemma_char_start_is_boundary(tail, j - i);
    valid_utf8_split(tail, j - i);
    assert(tail.subrange(0, j - i) =~= b.subrange(i, j));
}

/// ASCII text is UTF-8.
pub proof fn lemma_ascii_valid(b: Seq<u8>)
    requires
        all_ascii(b),
    ensures
        valid_utf8(b),
    decreases b.len(),
{
    if b.len() > 0 {
        let rest = b.subrange(1, b.len() as int);
        assert(all_ascii(rest));
        lemma_ascii_valid(rest);
        assert(length_of_first_scalar(b) == 1);
        assert(pop_first_scalar(b) =~= rest);
    }
}

/// The UTF-8 encoding of a string is UTF-8.
pub proof fn lemma_str_valid(s: &str)
    ensures
        valid_utf8(s.spec_bytes()),
{
    encode_utf8_valid_utf8(s@);
}

/// `String::push` from std: append one character.
#[verifier::external_body]
pub(crate) fn push_char(s: &mut String, c: char)
    ensures
        final(s)@ == old(s)@.push(c),
{
    s.push(c);
}

/// `String::from_utf8` from std, on bytes known to be UTF-8.
///
/// The contract claims the resulting string holds exactly the characters the
/// bytes encode.
#[verifier::external_body]
pub(crate) fn string_from_utf8(bytes: Vec<u8>) -> (s: String)
    requires
        valid_utf8(bytes@),
    ensures
        s@ == decode_utf8(bytes@),
{
    String::from_utf8(bytes).unwrap()
}

/// A string from UTF-8 bytes, with its encoding being exactly those bytes.
pub fn utf8_to_string(bytes: Vec<u8>) -> (s: String)
    requires
        valid_utf8(bytes@),
    ensures
        encode_utf8(s@) == bytes@,
        s@ == decode_utf8(bytes@),
{
    let ghost b = bytes@;
    let s = string_from_utf8(bytes);
    proof {
        decode_utf8_encode_utf8(b);
    }
    s
}

/// Append `src[from..to)` to `out`.
pub fn push_range(out: &mut Vec<u8>, src: &[u8], from: usize, to: usize)
    requires
        from <= to <= src@.len(),
    ensures
        final(out)@ == old(out)@ + src@.subrange(from as int, to as int),
{
    let mut i: usize = from;
    while i < to
        invariant
            from <= i <= to <= src@.len(),
            out@ == old(out)@ + src@.subrange(from as int, i as int),
        decreases to - i,
    {
        out.push(src[i]);
        i += 1;
        assert(out@ =~= old(out)@ + src@.subrange(from as int, i as int));
    }
}

/// Append all of `src` to `out`.
pub fn push_all(out: &mut Vec<u8>, src: &[u8])
    ensures
        final(out)@ == old(out)@ + src@,
{
    push_range(out, src, 0, src.len());
    assert(src@.subrange(0, src@.len() as int) =~= src@);
}

/// Whether `a[from..from + b.len())` is exactly `b`.
pub fn bytes_at(a: &[u8], from: usize, b: &[u8]) -> (r: bool)
    requires
        from <= a@.len(),
    ensures
        r == (from + b@.len() <= a@.len() && a@.subrange(from as int, from + b@.len()) == b@),
{
    if b.len() > a.len() - from {
        return false;
    }
    let mut i: usize = 0;
    while i < b.len()
        invariant
            from + b.len() <= a.len(),
            i <= b@.len(),
            forall|k: int| 0 <= k < i ==> a@[from + k] == b@[k],
        decreases b@.len() - i,
    {
        if a[from + i] != b[i] {
            assert(a@.subrange(from as int, from + b@.len())[i as int] != b@[i as int]);
            return false;
        }
        i += 1;
    }
    assert(a@.subrange(from as int, from + b@.len()) =~= b@);
    true
}

/// Whether `a[from..to)` is exactly `b`.
pub fn range_eq(a: &[u8], from: usize, to: usize, b: &[u8]) -> (r: bool)
    requires
        from <= to <= a@.len(),
    ensures
        r == (a@.subrange(from as int, to as int) == b@),
{
    if to - from != b.len() {
        assert(a@.subrange(from as int, to as int).len() != b@.len());
        return false;
    }
    bytes_at(a, from, b)
}

/// Whether two strings hold the same text.
pub fn str_eq(a: &str, b: &str) -> (r: bool)
    ensures
        r == (a@ == b@),
{
    let ab = a.as_bytes();
    let bb = b.as_bytes();
    let r = range_eq(ab, 0, ab.len(), bb);
    proof {
        assert(ab@.subrange(0, ab@.len() as int) =~= ab@);
        encode_utf8_decode_utf8(a@);
        encode_utf8_decode_utf8(b@);
    }
    r
}

/// In UTF-8 text, a position is a character boundary of a prefix that
/// reaches past it exactly when it is one of the whole text.
pub proof fn lemma_boundary_of_prefix(b: Seq<u8>, n: int, i: int)
    requires
        valid_utf8(b),
        valid_utf8(b.subrange(0, n)),
        0 <= i <= n <= b.len(),
        is_char_boundary(b, i),
    ensures
        is_char_boundary(b.subrange(0, n), i),
{
    let p = b.subrange(0, n);
    if i == n {
        is_char_boundary_start_end_of_seq(p);
    } else {
        is_char_boundary_iff_not_is_continuation_byte(b, i);
        is_char_boundary_iff_not_is_continuation_byte(p, i);
        assert(p[i] == b[i]);
    }
}

/// `source[start..end]`: the text between two byte offsets, when both are
/// character boundaries in order within it, and `None` otherwise.
pub fn str_get(source: &str, start: usize, end: usize) -> (r: Option<&str>)
    ensures
        match r {
            Some(piece) => {
                &&& start <= end <= source.spec_bytes().len()
                &&& is_char_boundary(source.spec_bytes(), start as int)
                &&& is_char_boundary(source.spec_bytes(), end as int)
                &&& piece.spec_bytes() == source.spec_bytes().subrange(start as int, end as int)
                &&& piece@ == decode_utf8(source.spec_bytes().subrange(start as int, end as int))
            },
            None => !(start <= end <= source.spec_bytes().len() && is_char_boundary(
                source.spec_bytes(),
                start as int,
            ) && is_char_boundary(source.spec_bytes(), end as int)),
        },
{
    let n = source.as_bytes().len();
    if start > end || end > n || !source.is_char_boundary(start)
        || !source.is_char_boundary(end) {
        return None;
    }
    let ghost b = source.spec_bytes();
    let (head, _) = source.split_at(end);
    proof {
        lemma_str_valid(source);
        lemma_str_valid(head);
        lemma_boundary_of_prefix(b, end as int, start as int);
    }
    let (_, piece) = head.split_at(start);
    proof {
        assert(piece.spec_bytes() =~= b.subrange(start as int, end as int));
        encode_utf8_decode_utf8(piece@);
    }
    Some(piece)
}

/// Whether a character is white space: Unicode's `White_Space` property,
/// the set `char::is_whitespace` tests.
pub open spec fn is_white_space(c: char) -> bool {
    ('\u{9}' <= c <= '\u{d}') || c == ' ' || c == '\u{85}' || c == '\u{a0}' || c == '\u{1680}'
        || ('\u{2000}' <= c <= '\u{200a}') || c == '\u{2028}' || c == '\u{2029}' || c == '\u{202f}'
        || c == '\u{205f}' || c == '\u{3000}'
}

/// Whether a character is white space.
pub fn is_white_space_exec(c: char) -> (r: bool)
    ensures
        r == is_white_space(c),
{
    ('\u{9}' <= c && c <= '\u{d}') || c == ' ' || c == '\u{85}' || c == '\u{a0}' || c == '\u{1680}'
        || ('\u{2000}' <= c && c <= '\u{200a}') || c == '\u{2028}' || c == '\u{2029}' || c
        == '\u{202f}' || c == '\u{205f}' || c == '\u{3000}'
}

/// `t` without the white space at its start.
pub open spec fn trim_start(t: Seq<char>) -> Seq<char>
    decreases t.len(),
{
    if t.len() > 0 && is_white_space(t[0]) {
        trim_start(t.drop_first())
    } else {
        t
    }
}

/// `t` without the white space at its end.
pub open spec fn trim_end(t: Seq<char>) -> Seq<char>
    decreases t.len(),
{
    if t.len() > 0 && is_white_space(t.last()) {
        trim_end(t.drop_last())
    } else {
        t
    }
}

/// `t` without white space at either end.
pub open spec fn trimmed(t: Seq<char>) -> Seq<char> {
    trim_end(trim_start(t))
}

/// The characters of a string.
pub fn chars_of(s: &str) -> (v: Vec<char>)
    ensures
        v@ == s@,
{
    let mut v: Vec<char> = Vec::new();
    for c in it: s.chars()
        invariant
            it.seq() == s@,
            v@ == s@.take(it.index() as int),
    {
        v.push(c);
        assert(v@ =~= s@.take(it.index() + 1));
    }
    assert(s@.take(s@.len() as int) =~= s@);
    v
}

/// A string holding `chars[from..to)`.
pub fn string_of(chars: &[char], from: usize, to: usize) -> (s: String)
    requires
        from <= to <= chars@.len(),
    ensures
        s@ == chars@.subrange(from as int, to as int),
{
    let mut s = String::new();
    let mut i = from;
    while i < to
        invariant
            from <= i <= to <= chars@.len(),
            s@ == chars@.subrange(from as int, i as int),
        decreases to - i,
    {
        push_char(&mut s, chars[i]);
        i += 1;
        assert(s@ =~= chars@.subrange(from as int, i as int));
    }
    s
}

/// The range of `chars` left once white space is trimmed from both ends.
pub fn trim_range(chars: &[char]) -> (r: (usize, usize))
    ensures
        r.0 <= r.1 <= chars@.len(),
        chars@.subrange(r.0 as int, r.1 as int) == trimmed(chars@),
{
    let ghost c = chars@;
    let mut lo: usize = 0;
    while lo < chars.len() && is_white_space_exec(chars[lo])
        invariant
            lo <= c.len(),
            c == chars@,
            trim_start(c) == trim_start(c.subrange(lo as int, c.len() as int)),
        decreases c.len() - lo,
    {
        assert(c.subrange(lo as int, c.len() as int).drop_first() =~= c.subrange(
            lo + 1,
            c.len() as int,
        ));
        lo += 1;
    }
    let ghost start = c.subrange(lo as int, c.len() as int);
    assert(trim_start(start) == start);
    let mut hi: usize = chars.len();
    while hi > lo && is_white_space_exec(chars[hi - 1])
        invariant
            lo <= hi <= c.len(),
            c == chars@,
            start == c.subrange(lo as int, c.len() as int),
            trim_end(start) == trim_end(c.subrange(lo as int, hi as int)),
        decreases hi,
    {
        assert(c.subrange(lo as int, hi as int).drop_last() =~= c.subrange(lo as int, hi - 1));
        hi -= 1;
    }
    (lo, hi)
}

/// The character of a decimal digit.
pub open spec fn digit_char(d: nat) -> char {
    ((48 + d) as u32) as char
}

/// A number written in decimal.
pub open spec fn decimal_text(n: nat) -> Seq<char>
    decreases n,
{
    if n < 10 {
        seq![digit_char(n)]
    } else {
        decimal_text(n / 10).push(digit_char(n % 10))
    }
}

/// A number written in decimal.
pub fn decimal(n: usize) -> (s: String)
    ensures
        s@ == decimal_text(n as nat),
    decreases n,
{
    let d = ((n % 10) as u8 + 48) as char;
    if n < 10 {
        let mut s = String::new();
        push_char(&mut s, d);
        s
    } else {
        let mut s = decimal(n / 10);
        push_char(&mut s, d);
        s
    }
}

/// A copy of `v[from..to)`.
pub fn copy_range(v: &[char], from: usize, to: usize) -> (r: Vec<char>)
    requires
        from <= to <= v@.len(),
    ensures
        r@ == v@.subrange(from as int, to as int),
{
    let mut r: Vec<char> = Vec::new();
    let mut i = from;
    while i < to
        invariant
            from <= i <= to <= v@.len(),
            r@ == v@.subrange(from as int, i as int),
        decreases to - i,
    {
        r.push(v[i]);
        i += 1;
        assert(r@ =~= v@.subrange(from as int, i as int));
    }
    r
}

/// Where the text of `chars` starts once leading white space is skipped.
pub fn trim_start_index(chars: &[char]) -> (r: usize)
    ensures
        r <= chars@.len(),
        chars@.subrange(r as int, chars@.len() as int) == trim_start(chars@),
{
    let ghost c = chars@;
    let mut lo: usize = 0;
    assert(c.subrange(0, c.len() as int) =~= c);
    while lo < chars.len() && is_white_space_exec(chars[lo])
        invariant
            lo <= c.len(),
            c == chars@,
            trim_start(c) == trim_start(c.subrange(lo as int, c.len() as int)),
        decreases c.len() - lo,
    {
        assert(c.subrange(lo as int, c.len() as int).drop_first() =~= c.subrange(
            lo + 1,
            c.len() as int,
        ));
        lo += 1;
    }
    lo
}

} // verus!

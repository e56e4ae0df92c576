//! Translating Lua patterns into Rust regexes.
//!
//! `#lua-match?` is by far the most common conditional predicate in
//! nvim-treesitter's queries, and its argument is a Lua pattern, not a regex.
//! The two look similar enough to be dangerous: `%` escapes instead of `\`,
//! `-` is a *lazy quantifier* rather than a literal, `^` and `$` are anchors
//! only at the very ends, and a backslash is an ordinary character. Each
//! pattern is therefore translated token by token.
//!
//! The result is compiled in byte mode with Unicode off, because Lua patterns
//! are defined over bytes, and with `.` matching newlines, which it does in
//! Lua but not by default in a regex.
use vstd::prelude::*;
use vstd::string::StringSliceAdditionalSpecFns;

use crate::query::regex_engine::{build_regex, regex_accepts, CompiledRegex, RegexError};
use crate::text::{hex_digit, push_char};

verus! {

/// Why a Lua pattern could not be translated.
#[derive(Debug, Clone, PartialEq, Eq)]
pub enum LuaPatternError {
    /// A `%` with nothing after it.
    DanglingPercent,
    /// A `[` with no closing `]`.
    UnterminatedSet,
    /// A complemented class such as `%D` inside a `[...]` set, which has no
    /// regex equivalent.
    ComplementedClassInSet { class: u8 },
    /// The translation is not a regex the engine accepts.
    InvalidRegex { source: String, error: RegexError },
}

/// The description of a translation error.
pub open spec fn lua_error_text(e: LuaPatternError) -> Seq<char> {
    match e {
        LuaPatternError::DanglingPercent => "lua pattern ends with a dangling `%`"@,
        LuaPatternError::UnterminatedSet => "lua pattern has an unterminated `[` set"@,
        LuaPatternError::ComplementedClassInSet { .. } =>
            "lua pattern uses a complemented class inside a `[...]` set, which has no regex equivalent"@,
        LuaPatternError::InvalidRegex { .. } => "lua pattern became an invalid regex"@,
    }
}

impl LuaPatternError {
    /// A human-readable description.
    pub fn message(&self) -> (r: String)
        ensures
            r@ == lua_error_text(*self),
    {
        match self {
            LuaPatternError::DanglingPercent => String::from_str("lua pattern ends with a dangling `%`"),
            LuaPatternError::UnterminatedSet => String::from_str("lua pattern has an unterminated `[` set"),
            LuaPatternError::ComplementedClassInSet { .. } => String::from_str(
                "lua pattern uses a complemented class inside a `[...]` set, which has no regex equivalent",
            ),
            LuaPatternError::InvalidRegex { .. } => String::from_str("lua pattern became an invalid regex"),
        }
    }
}

/// The bytes that a regex treats as operators outside a character class.
pub open spec fn is_regex_special(b: u8) -> bool {
    b == 0x2e /* . */ || b == 0x5e /* ^ */ || b == 0x24 /* $ */ || b == 0x2a /* * */
    || b == 0x2b /* + */ || b == 0x3f /* ? */ || b == 0x28 /* ( */ || b == 0x29 /* ) */
    || b == 0x5b /* [ */ || b == 0x5d /* ] */ || b == 0x7b /* { */ || b == 0x7d /* } */
    || b == 0x7c /* | */ || b == 0x5c /* \ */
}

/// The bytes that a regex treats as operators inside a character class.
pub open spec fn is_set_special(b: u8) -> bool {
    b == 0x5d /* ] */ || b == 0x5e /* ^ */ || b == 0x2d /* - */ || b == 0x5c /* \ */
    || b == 0x5b /* [ */ || b == 0x26 /* & */
}

/// `\xNN` with two lower-case hex digits: how a non-ASCII byte is written
/// when Unicode is off.
pub open spec fn byte_escape(b: u8) -> Seq<char> {
    seq!['\\', 'x', hex_digit((b / 16) as u8), hex_digit((b % 16) as u8)]
}

/// A byte as a regex literal outside a character class.
pub open spec fn regex_literal(b: u8) -> Seq<char> {
    if is_regex_special(b) {
        seq!['\\', b as char]
    } else if b < 0x80 {
        seq![b as char]
    } else {
        byte_escape(b)
    }
}

/// A byte as a literal inside a character class.
pub open spec fn set_literal(b: u8) -> Seq<char> {
    if is_set_special(b) {
        seq!['\\', b as char]
    } else if b < 0x80 {
        seq![b as char]
    } else {
        byte_escape(b)
    }
}

/// ASCII lower-casing of one byte.
pub open spec fn ascii_lower(b: u8) -> u8 {
    if 0x41 <= b <= 0x5a { (b + 32) as u8 } else { b }
}

/// The range body of a Lua character class, by its lower-case letter.
pub open spec fn class_ranges(lower: u8) -> Option<Seq<char>> {
    if lower == 0x61 { Some("a-zA-Z"@) }
    else if lower == 0x64 { Some("0-9"@) }
    else if lower == 0x6c { Some("a-z"@) }
    else if lower == 0x75 { Some("A-Z"@) }
    else if lower == 0x77 { Some("0-9a-zA-Z"@) }
    else if lower == 0x78 { Some("0-9a-fA-F"@) }
    else if lower == 0x73 { Some(" \\t\\n\\x0b\\f\\r"@) }
    else if lower == 0x70 { Some("!-/:-@\\[-`{-~"@) }
    else if lower == 0x63 { Some("\\x00-\\x1f\\x7f"@) }
    else if lower == 0x67 { Some("\\x21-\\x7e"@) }
    else { None }
}

/// The translation of the byte after a `%`, standalone or inside a set.
///
/// A class letter becomes its ranges (bracketed when standalone); an
/// upper-case class letter is the complement, which has no form inside a set.
/// Anything else is a `%`-escaped literal.
pub open spec fn escape_spec(class: u8, in_set: bool) -> Result<Seq<char>, LuaPatternError> {
    match class_ranges(ascii_lower(class)) {
        None => Ok(if in_set { set_literal(class) } else { regex_literal(class) }),
        Some(ranges) => {
            let negated = 0x41 <= class <= 0x5a;
            if !in_set && !negated {
                Ok(seq!['['] + ranges + seq![']'])
            } else if !in_set && negated {
                Ok(seq!['[', '^'] + ranges + seq![']'])
            } else if in_set && !negated {
                Ok(ranges)
            } else {
                Err(LuaPatternError::ComplementedClassInSet { class })
            }
        },
    }
}

/// The `]` that closes a set whose members start at `from`, before `end`:
/// the first `]` not escaped by a `%`, as Lua skips each `%` together with
/// the character after it while looking for the close.
pub open spec fn find_close(p: Seq<u8>, from: int, end: int) -> Option<int>
    decreases end - from + 1,
{
    if from >= end {
        None
    } else if p[from] == 0x5d {
        Some(from)
    } else if p[from] == 0x25 {
        find_close(p, from + 2, end)
    } else {
        find_close(p, from + 1, end)
    }
}

/// The members of a `[...]` set from `index` up to its closing bracket.
///
/// Lua reads `x-y` as a range only when a third character follows the `-`
/// before the closing bracket; otherwise the dash is an ordinary member.
pub open spec fn set_members(p: Seq<u8>, index: int, close: int) -> Result<Seq<char>, LuaPatternError>
    decreases p.len() - index,
{
    if index >= close || index < 0 || close >= p.len() {
        Ok(seq![])
    } else if p[index] == 0x25 {
        match escape_spec(p[index + 1], true) {
            Err(e) => Err(e),
            Ok(s) => match set_members(p, index + 2, close) {
                Err(e) => Err(e),
                Ok(rest) => Ok(s + rest),
            },
        }
    } else if p[index + 1] == 0x2d && index + 2 < close {
        match set_members(p, index + 3, close) {
            Err(e) => Err(e),
            Ok(rest) => Ok(set_literal(p[index]) + seq!['-'] + set_literal(p[index + 2]) + rest),
        }
    } else {
        match set_members(p, index + 1, close) {
            Err(e) => Err(e),
            Ok(rest) => Ok(set_literal(p[index]) + rest),
        }
    }
}

/// The translation of the `[...]` set opening at `open`, and the index just
/// past its closing bracket.
pub open spec fn set_spec(p: Seq<u8>, open: int, end: int) -> Result<(Seq<char>, int), LuaPatternError> {
    let i0 = open + 1;
    let negated = i0 < p.len() && p[i0] == 0x5e;
    let i1 = if negated { i0 + 1 } else { i0 };
    let leading_bracket = i1 < p.len() && p[i1] == 0x5d;
    let i2 = if leading_bracket { i1 + 1 } else { i1 };
    let head = seq!['['] + (if negated { seq!['^'] } else { seq![] }) + (if leading_bracket {
        seq!['\\', ']']
    } else {
        seq![]
    });
    match find_close(p, i2, end) {
        None => Err(LuaPatternError::UnterminatedSet),
        Some(close) => close_set(head, set_members(p, i2, close), close),
    }
}

/// A set's head and members, closed with `]`, and the index past the close.
pub open spec fn close_set(head: Seq<char>, members: Result<Seq<char>, LuaPatternError>, close: int) -> Result<
    (Seq<char>, int),
    LuaPatternError,
> {
    match members {
        Err(e) => Err(e),
        Ok(members) => Ok((head + members + seq![']'], close + 1)),
    }
}

/// The translation of the pattern body from `index` to `end`.
///
/// `quantifiable` says whether something precedes `index` that a quantifier
/// could repeat: that is what makes `^-` a literal dash but `data-` a lazily
/// repeated `a`. A `$` read as a pattern item at the very end of the pattern
/// is the end anchor; a `$` taken by a `%` escape or a set is not.
pub open spec fn body_spec(p: Seq<u8>, index: int, end: int, quantifiable: bool) -> Result<Seq<char>, LuaPatternError>
    decreases p.len() - index,
{
    if index >= end || index < 0 || end > p.len() {
        Ok(seq![])
    } else {
        let b = p[index];
        if b == 0x25 {
            if index + 1 >= p.len() {
                Err(LuaPatternError::DanglingPercent)
            } else {
                match escape_spec(p[index + 1], false) {
                    Err(e) => Err(e),
                    Ok(s) => match body_spec(p, index + 2, end, true) {
                        Err(e) => Err(e),
                        Ok(rest) => Ok(s + rest),
                    },
                }
            }
        } else if b == 0x5b {
            match set_spec(p, index, end) {
                Err(e) => Err(e),
                Ok((s, next)) => if next <= index || next > end {
                    Ok(seq![])
                } else {
                    match body_spec(p, next, end, true) {
                        Err(e) => Err(e),
                        Ok(rest) => Ok(s + rest),
                    }
                },
            }
        } else {
            let (s, q) = if b == 0x24 && index + 1 == p.len() {
                (seq!['$'], false)
            } else if b == 0x2e {
                (seq!['.'], true)
            } else if b == 0x28 {
                (seq!['('], false)
            } else if b == 0x29 {
                (seq![')'], true)
            } else if quantifiable && (b == 0x2a || b == 0x2b || b == 0x3f) {
                (seq![b as char], false)
            } else if quantifiable && b == 0x2d {
                (seq!['*', '?'], false)
            } else {
                (regex_literal(b), true)
            };
            match body_spec(p, index + 1, end, q) {
                Err(e) => Err(e),
                Ok(rest) => Ok(s + rest),
            }
        }
    }
}

/// The regex source equivalent to the Lua pattern `p`.
///
/// `^` is an anchor only at the very start, and `$` only as the last pattern
/// item (see [`body_spec`]); anywhere else they are ordinary characters.
pub open spec fn translate_spec(p: Seq<u8>) -> Result<Seq<char>, LuaPatternError> {
    let start_anchor = p.len() > 0 && p[0] == 0x5e;
    let index: int = if start_anchor { 1 } else { 0 };
    anchor(start_anchor, body_spec(p, index, p.len() as int, false), false)
}

/// The body between the anchors that were found at either end.
pub open spec fn anchor(start: bool, body: Result<Seq<char>, LuaPatternError>, end: bool) -> Result<
    Seq<char>,
    LuaPatternError,
> {
    match body {
        Err(e) => Err(e),
        Ok(body) => Ok((if start { seq!['^'] } else { seq![] }) + body + (if end {
            seq!['$']
        } else {
            seq![]
        })),
    }
}

/// `pre` in front of a successful result.
pub open spec fn prefixed(pre: Seq<char>, r: Result<Seq<char>, LuaPatternError>) -> Result<Seq<char>, LuaPatternError> {
    match r {
        Ok(s) => Ok(pre + s),
        Err(e) => Err(e),
    }
}

pub(crate) fn push_literal(byte: u8, out: &mut String)
    ensures
        final(out)@ == old(out)@ + regex_literal(byte),
{
    let special = byte == 0x2e || byte == 0x5e || byte == 0x24 || byte == 0x2a || byte == 0x2b
        || byte == 0x3f || byte == 0x28 || byte == 0x29 || byte == 0x5b || byte == 0x5d
        || byte == 0x7b || byte == 0x7d || byte == 0x7c || byte == 0x5c;
    if special {
        push_char(out, '\\');
        push_char(out, byte as char);
    } else if byte < 0x80 {
        push_char(out, byte as char);
    } else {
        push_byte_escape(byte, out);
    }
}

fn push_set_literal(byte: u8, out: &mut String)
    ensures
        final(out)@ == old(out)@ + set_literal(byte),
{
    let special = byte == 0x5d || byte == 0x5e || byte == 0x2d || byte == 0x5c || byte == 0x5b
        || byte == 0x26;
    if special {
        push_char(out, '\\');
        push_char(out, byte as char);
    } else if byte < 0x80 {
        push_char(out, byte as char);
    } else {
        push_byte_escape(byte, out);
    }
}

/// Append `\xNN` for a byte.
pub fn push_byte_escape(byte: u8, out: &mut String)
    ensures
        final(out)@ == old(out)@ + byte_escape(byte),
{
    push_char(out, '\\');
    push_char(out, 'x');
    push_char(out, hex_digit_of(byte / 16));
    push_char(out, hex_digit_of(byte % 16));
}

/// The lower-case hex digit for a value below 16.
pub fn hex_digit_of(n: u8) -> (c: char)
    requires
        n < 16,
    ensures
        c == hex_digit(n),
{
    if n < 10 {
        (0x30 + n) as char
    } else {
        (0x61 + (n - 10)) as char
    }
}

fn class_ranges_exec(lower: u8) -> (r: Option<&'static str>)
    ensures
        match r {
            Some(s) => class_ranges(lower) == Some(s@),
            None => class_ranges(lower) is None,
        },
{
    if lower == 0x61 { Some("a-zA-Z") }
    else if lower == 0x64 { Some("0-9") }
    else if lower == 0x6c { Some("a-z") }
    else if lower == 0x75 { Some("A-Z") }
    else if lower == 0x77 { Some("0-9a-zA-Z") }
    else if lower == 0x78 { Some("0-9a-fA-F") }
    else if lower == 0x73 { Some(" \\t\\n\\x0b\\f\\r") }
    else if lower == 0x70 { Some("!-/:-@\\[-`{-~") }
    else if lower == 0x63 { Some("\\x00-\\x1f\\x7f") }
    else if lower == 0x67 { Some("\\x21-\\x7e") }
    else { None }
}

/// Translate the character after a `%` onto `out`.
fn escape_sequence(class: u8, in_set: bool, out: &mut String) -> (r: Result<(), LuaPatternError>)
    ensures
        match escape_spec(class, in_set) {
            Ok(s) => r is Ok && final(out)@ == old(out)@ + s,
            Err(e) => r == Err::<(), LuaPatternError>(e),
        },
{
    let lower = if 0x41 <= class && class <= 0x5a { class + 32 } else { class };
    match class_ranges_exec(lower) {
        None => {
            if in_set {
                push_set_literal(class, out);
            } else {
                push_literal(class, out);
            }
            Ok(())
        },
        Some(ranges) => {
            let negated = 0x41 <= class && class <= 0x5a;
            if in_set && negated {
                return Err(LuaPatternError::ComplementedClassInSet { class });
            }
            if !in_set {
                push_char(out, '[');
                if negated {
                    push_char(out, '^');
                }
            }
            out.append(ranges);
            if !in_set {
                push_char(out, ']');
            }
            Ok(())
        },
    }
}

/// The index of the `]` closing a set whose members start at `from`,
/// skipping `%` escapes.
fn find_close_exec(bytes: &[u8], from: usize, end: usize) -> (r: Option<usize>)
    requires
        end <= bytes@.len(),
    ensures
        match r {
            Some(i) => find_close(bytes@, from as int, end as int) == Some(i as int),
            None => find_close(bytes@, from as int, end as int) is None,
        },
{
    let mut i = from;
    while i < end
        invariant
            end <= bytes@.len(),
            from <= i,
            find_close(bytes@, from as int, end as int) == find_close(bytes@, i as int, end as int),
        decreases end - i,
    {
        if bytes[i] == 0x5d {
            return Some(i);
        }
        if bytes[i] == 0x25 {
            if i + 1 >= end {
                assert(find_close(bytes@, i + 2, end as int) is None);
                return None;
            }
            i += 2;
        } else {
            i += 1;
        }
    }
    None
}

/// Translate `[...]` opening at `open`, returning the index just past the
/// closing bracket.
fn translate_set(bytes: &[u8], open: usize, end: usize, out: &mut String) -> (r: Result<usize, LuaPatternError>)
    requires
        open < end <= bytes@.len(),
        bytes@[open as int] == 0x5b,
    ensures
        match set_spec(bytes@, open as int, end as int) {
            Ok((s, next)) => r == Ok::<usize, LuaPatternError>(next as usize) && final(out)@ == old(out)@ + s
                && open < next <= end,
            Err(e) => r == Err::<usize, LuaPatternError>(e),
        },
{
    let ghost p = bytes@;
    let ghost start = out@;
    let mut index = open + 1;
    push_char(out, '[');
    let ghost mut head: Seq<char> = seq!['['];
    if index < bytes.len() && bytes[index] == 0x5e {
        push_char(out, '^');
        index += 1;
        proof { head = head + seq!['^']; }
    }
    if index < bytes.len() && bytes[index] == 0x5d {
        push_char(out, '\\');
        push_char(out, ']');
        index += 1;
        proof { head = head + seq!['\\', ']']; }
    }
    let ghost i2 = index as int;
    assert(out@ == start + head);
    let close = match find_close_exec(bytes, index, end) {
        Some(close) => close,
        None => {
            return Err(LuaPatternError::UnterminatedSet);
        },
    };
    proof {
        lemma_find_close_bounds(p, i2, end as int);
    }
    assert(set_spec(p, open as int, end as int) == close_set(head, set_members(p, i2, close as int), close as int));
    let ghost mut acc: Seq<char> = seq![];
    while index < close
        invariant
            set_spec(p, open as int, end as int) == close_set(head, set_members(p, i2, close as int), close as int),
            open < close,
            close < end <= bytes@.len(),
            p == bytes@,
            p[close as int] == 0x5d,
            i2 <= index <= close + 1,
            set_members(p, i2, close as int) == prefixed(acc, set_members(p, index as int, close as int)),
            out@ == start + head + acc,
        decreases bytes@.len() - index,
    {
        let ghost before = out@;
        let ghost bi = index as int;
        let ghost mut piece: Seq<char> = seq![];
        if bytes[index] == 0x25 {
            let class = bytes[index + 1];
            match escape_sequence(class, true, out) {
                Ok(()) => {},
                Err(e) => {
                    return Err(e);
                },
            }
            proof { piece = escape_spec(class, true)->Ok_0; }
            index += 2;
        } else if bytes[index + 1] == 0x2d && index + 2 < close {
            push_set_literal(bytes[index], out);
            push_char(out, '-');
            push_set_literal(bytes[index + 2], out);
            proof { piece = set_literal(p[bi]) + seq!['-'] + set_literal(p[bi + 2]); }
            index += 3;
        } else {
            push_set_literal(bytes[index], out);
            proof { piece = set_literal(p[bi]); }
            index += 1;
        }
        proof {
            assert(out@ =~= before + piece);
            assert(set_members(p, bi, close as int) == prefixed(piece, set_members(p, index as int, close as int)));
            lemma_prefixed_assoc(acc, piece, set_members(p, index as int, close as int));
            acc = acc + piece;
            assert(out@ =~= start + head + acc);
        }
    }
    push_char(out, ']');
    proof {
        assert(set_members(p, index as int, close as int) == Ok::<Seq<char>, LuaPatternError>(seq![]));
        assert(acc + seq![] == acc);
    }
    Ok(close + 1)
}

/// Prepending in two steps is prepending the concatenation.
pub proof fn lemma_prefixed_assoc(a: Seq<char>, b: Seq<char>, r: Result<Seq<char>, LuaPatternError>)
    ensures
        prefixed(a, prefixed(b, r)) == prefixed(a + b, r),
{
    if let Ok(s) = r {
        assert(a + (b + s) == (a + b) + s);
    }
}

proof fn lemma_find_close_bounds(p: Seq<u8>, from: int, end: int)
    ensures
        find_close(p, from, end) matches Some(c) ==> from <= c < end && p[c] == 0x5d,
    decreases end - from + 1,
{
    if from < end && p[from] != 0x5d {
        if p[from] == 0x25 {
            lemma_find_close_bounds(p, from + 2, end);
        } else {
            lemma_find_close_bounds(p, from + 1, end);
        }
    }
}

/// Translate a Lua pattern to equivalent Rust regex source.
pub fn translate(pattern: &str) -> (r: Result<String, LuaPatternError>)
    ensures
        match translate_spec(pattern.spec_bytes()) {
            Ok(s) => r matches Ok(out) && out@ == s,
            Err(e) => r == Err::<String, LuaPatternError>(e),
        },
{
    let bytes = pattern.as_bytes();
    let ghost p = bytes@;
    let mut out = String::new();
    let mut index: usize = 0;
    let start_anchor = bytes.len() > 0 && bytes[0] == 0x5e;
    if start_anchor {
        push_char(&mut out, '^');
        index = 1;
    }
    let end = bytes.len();
    let mut quantifiable = false;
    let ghost prefix = out@;

    let ghost i0: int = if start_anchor { 1 } else { 0 };
    assert(translate_spec(p) == anchor(start_anchor, body_spec(p, i0, end as int, false), false));
    let ghost mut acc: Seq<char> = seq![];
    while index < end
        invariant
            translate_spec(p) == anchor(start_anchor, body_spec(p, i0, end as int, false), false),
            prefix == (if start_anchor { seq!['^'] } else { Seq::<char>::empty() }),
            p == bytes@,
            p == pattern.spec_bytes(),
            end <= bytes@.len(),
            out@ == prefix + acc,
            body_spec(p, i0, end as int, false) == prefixed(acc, body_spec(p, index as int, end as int, quantifiable)),
        decreases bytes@.len() - index,
    {
        let ghost before = out@;
        let ghost bi = index as int;
        let ghost bq = quantifiable;
        let ghost mut piece: Seq<char> = seq![];
        let byte = bytes[index];
        if byte == 0x25 {
            if index + 1 >= bytes.len() {
                assert(body_spec(p, bi, end as int, bq) == Err::<Seq<char>, LuaPatternError>(
                    LuaPatternError::DanglingPercent,
                ));
                return Err(LuaPatternError::DanglingPercent);
            }
            match escape_sequence(bytes[index + 1], false, &mut out) {
                Ok(()) => {},
                Err(e) => {
                    return Err(e);
                },
            }
            proof { piece = escape_spec(p[bi + 1], false)->Ok_0; }
            quantifiable = true;
            index += 2;
        } else if byte == 0x5b {
            match translate_set(bytes, index, end, &mut out) {
                Ok(next) => {
                    index = next;
                },
                Err(e) => {
                    assert(body_spec(p, bi, end as int, bq) == Err::<Seq<char>, LuaPatternError>(e));
                    return Err(e);
                },
            }
            proof { piece = set_spec(p, bi, end as int)->Ok_0.0; }
            quantifiable = true;
        } else if byte == 0x24 && index + 1 == bytes.len() {
            push_char(&mut out, '$');
            proof { piece = seq!['$']; }
            quantifiable = false;
            index += 1;
        } else if byte == 0x2e {
            push_char(&mut out, '.');
            proof { piece = seq!['.']; }
            quantifiable = true;
            index += 1;
        } else if byte == 0x28 {
            push_char(&mut out, '(');
            proof { piece = seq!['(']; }
            quantifiable = false;
            index += 1;
        } else if byte == 0x29 {
            push_char(&mut out, ')');
            proof { piece = seq![')']; }
            quantifiable = true;
            index += 1;
        } else if quantifiable && (byte == 0x2a || byte == 0x2b || byte == 0x3f) {
            push_char(&mut out, byte as char);
            proof { piece = seq![byte as char]; }
            quantifiable = false;
            index += 1;
        } else if quantifiable && byte == 0x2d {
            push_char(&mut out, '*');
            push_char(&mut out, '?');
            proof { piece = seq!['*', '?']; }
            quantifiable = false;
            index += 1;
        } else {
            push_literal(byte, &mut out);
            proof { piece = regex_literal(byte); }
            quantifiable = true;
            index += 1;
        }
        proof {
            assert(out@ =~= before + piece);
            assert(body_spec(p, bi, end as int, bq) == prefixed(piece, body_spec(p, index as int, end as int, quantifiable)));
            lemma_prefixed_assoc(acc, piece, body_spec(p, index as int, end as int, quantifiable));
            acc = acc + piece;
            assert(out@ =~= prefix + acc);
        }
    }
    proof {
        assert(body_spec(p, index as int, end as int, quantifiable) == Ok::<Seq<char>, LuaPatternError>(seq![]));
        assert(acc + seq![] == acc);
    }
    Ok(out)
}

/// Compile a Lua pattern into a regex with Lua's matching semantics.
pub fn compile(pattern: &str) -> (r: Result<CompiledRegex, LuaPatternError>)
    ensures
        r is Ok <==> (translate_spec(pattern.spec_bytes()) matches Ok(source) && regex_accepts(
            source,
            false,
            true,
        )),
        r matches Ok(regex) ==> (translate_spec(pattern.spec_bytes()) matches Ok(source)
            && regex.pattern() == source && !regex.ignores_case() && regex.dot_all()),
        r matches Err(e) ==> match translate_spec(pattern.spec_bytes()) {
            Err(t) => e == t,
            Ok(_) => e is InvalidRegex,
        },
{
    let source = translate(pattern)?;
    match build_regex(&source, false, true) {
        Ok(regex) => Ok(regex),
        Err(error) => Err(LuaPatternError::InvalidRegex { source, error }),
    }
}

} // verus!

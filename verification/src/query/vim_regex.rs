//! Translating Vim regexes into Rust regexes.
//!
//! `#match?` in a Neovim query is *not* a standard tree-sitter `#match?`: it
//! is evaluated with `vim.regex()`, and Neovim prepends `\v` ("very magic")
//! unless the pattern already opens with a magic prefix. Very magic mode is
//! close to PCRE, but not identical -- `<` and `>` are word boundaries, `=`
//! is a quantifier, `%(` opens a non-capturing group, and `\c` switches the
//! whole pattern to case-insensitive wherever it appears.
use vstd::prelude::*;
use vstd::string::StringSliceAdditionalSpecFns;

use crate::query::lua_pattern::{push_byte_escape, push_literal, regex_literal, byte_escape};
use crate::query::regex_engine::{build_regex, regex_accepts, CompiledRegex, RegexError};
use crate::text::push_char;

verus! {

/// Why a Vim regex could not be translated.
#[derive(Debug, Clone, PartialEq, Eq)]
pub enum VimRegexError {
    /// The pattern selects a magic level other than very magic.
    UnsupportedMagic,
    /// A `\` with nothing after it.
    DanglingBackslash,
    /// A `[` with no closing `]`.
    UnterminatedSet,
    /// A construct (`@`, `&` or `~`) with no regex equivalent.
    NoEquivalent { byte: u8 },
    /// The translation is not a regex the engine accepts.
    InvalidRegex { source: String, error: RegexError },
}

/// The description of a translation error.
pub open spec fn vim_error_text(e: VimRegexError) -> Seq<char> {
    match e {
        VimRegexError::UnsupportedMagic =>
            "vim regex selects a magic level other than very magic, which is not supported"@,
        VimRegexError::DanglingBackslash => "vim regex ends with a dangling backslash"@,
        VimRegexError::UnterminatedSet => "vim regex has an unterminated `[` set"@,
        VimRegexError::NoEquivalent { .. } => "vim regex uses a construct with no regex equivalent"@,
        VimRegexError::InvalidRegex { .. } => "vim regex became an invalid regex"@,
    }
}

impl VimRegexError {
    /// A human-readable description.
    pub fn message(&self) -> (r: String)
        ensures
            r@ == vim_error_text(*self),
    {
        match self {
            VimRegexError::UnsupportedMagic => String::from_str(
                "vim regex selects a magic level other than very magic, which is not supported",
            ),
            VimRegexError::DanglingBackslash => String::from_str("vim regex ends with a dangling backslash"),
            VimRegexError::UnterminatedSet => String::from_str("vim regex has an unterminated `[` set"),
            VimRegexError::NoEquivalent { .. } => String::from_str(
                "vim regex uses a construct with no regex equivalent",
            ),
            VimRegexError::InvalidRegex { .. } => String::from_str("vim regex became an invalid regex"),
        }
    }
}

/// What a backslash-escaped byte stands for in very magic mode, when it is a
/// class, a boundary or a control character.
pub open spec fn escaped_class(b: u8) -> Option<Seq<char>> {
    if b == 0x3c || b == 0x3e { Some("\\b"@) }
    else if b == 0x77 { Some("[0-9A-Za-z_]"@) }
    else if b == 0x57 { Some("[^0-9A-Za-z_]"@) }
    else if b == 0x64 { Some("[0-9]"@) }
    else if b == 0x44 { Some("[^0-9]"@) }
    else if b == 0x61 { Some("[A-Za-z]"@) }
    else if b == 0x41 { Some("[^A-Za-z]"@) }
    else if b == 0x6c { Some("[a-z]"@) }
    else if b == 0x4c { Some("[^a-z]"@) }
    else if b == 0x75 { Some("[A-Z]"@) }
    else if b == 0x55 { Some("[^A-Z]"@) }
    else if b == 0x78 { Some("[0-9A-Fa-f]"@) }
    else if b == 0x58 { Some("[^0-9A-Fa-f]"@) }
    else if b == 0x68 { Some("[A-Za-z_]"@) }
    else if b == 0x48 { Some("[^A-Za-z_]"@) }
    else if b == 0x6f { Some("[0-7]"@) }
    else if b == 0x4f { Some("[^0-7]"@) }
    else if b == 0x73 { Some("[ \\t]"@) }
    else if b == 0x53 { Some("[^ \\t]"@) }
    else if b == 0x6e { Some("\\n"@) }
    else if b == 0x74 { Some("\\t"@) }
    else if b == 0x72 { Some("\\r"@) }
    else if b == 0x65 { Some("\\x1b"@) }
    else { None }
}

/// The bytes that mean the same in very magic mode as in a regex.
pub open spec fn is_shared_operator(b: u8) -> bool {
    b == 0x5e || b == 0x24 || b == 0x2e || b == 0x2a || b == 0x2b || b == 0x3f || b == 0x28
    || b == 0x29 || b == 0x7c || b == 0x7b || b == 0x7d
}

/// A byte copied into a `[...]` set.
pub open spec fn set_byte(b: u8) -> Seq<char> {
    if b == 0x26 {
        seq!['\\', '&']
    } else if b < 0x80 {
        seq![b as char]
    } else {
        byte_escape(b)
    }
}

/// The contents of a `[...]` set from `index` to its closing bracket, and the
/// index of that bracket.
pub open spec fn set_members(p: Seq<u8>, index: int) -> Result<(Seq<char>, int), VimRegexError>
    decreases p.len() - index,
{
    if index < 0 || index >= p.len() {
        Err(VimRegexError::UnterminatedSet)
    } else if p[index] == 0x5d {
        Ok((seq![], index))
    } else if p[index] == 0x5c {
        if index + 1 >= p.len() {
            Err(VimRegexError::DanglingBackslash)
        } else {
            match set_members(p, index + 2) {
                Err(e) => Err(e),
                Ok((rest, close)) => Ok((seq!['\\', p[index + 1] as char] + rest, close)),
            }
        }
    } else {
        match set_members(p, index + 1) {
            Err(e) => Err(e),
            Ok((rest, close)) => Ok((set_byte(p[index]) + rest, close)),
        }
    }
}

/// The translation of the set opening at `open`, and the index past its close.
pub open spec fn set_spec(p: Seq<u8>, open: int) -> Result<(Seq<char>, int), VimRegexError> {
    let i0 = open + 1;
    let negated = i0 < p.len() && p[i0] == 0x5e;
    let i1 = if negated { i0 + 1 } else { i0 };
    let leading_bracket = i1 < p.len() && p[i1] == 0x5d;
    let i2 = if leading_bracket { i1 + 1 } else { i1 };
    let head = seq!['['] + (if negated { seq!['^'] } else { seq![] }) + (if leading_bracket {
        seq!['\\', ']']
    } else {
        seq![]
    });
    match set_members(p, i2) {
        Err(e) => Err(e),
        Ok((members, close)) => Ok((head + members + seq![']'], close + 1)),
    }
}

/// The translation of `p` from `index` on, and whether the pattern ends up
/// case-insensitive (`ci` says whether a `\c` came before `index`): a `\c`
/// anywhere makes the whole pattern case-insensitive, and `\C`, which only
/// asks for the default, cannot undo it.
pub open spec fn body_spec(p: Seq<u8>, index: int, ci: bool) -> Result<(Seq<char>, bool), VimRegexError>
    decreases p.len() - index,
{
    if index < 0 || index >= p.len() {
        Ok((seq![], ci))
    } else {
        let b = p[index];
        if b == 0x5c {
            if index + 1 >= p.len() {
                Err(VimRegexError::DanglingBackslash)
            } else {
                let e = p[index + 1];
                let (s, ci2) = if e == 0x63 {
                    (seq![], true)
                } else if e == 0x43 {
                    (seq![], ci)
                } else {
                    match escaped_class(e) {
                        Some(s) => (s, ci),
                        None => (regex_literal(e), ci),
                    }
                };
                then_spec(s, body_spec(p, index + 2, ci2))
            }
        } else if b == 0x3c || b == 0x3e {
            then_spec("\\b"@, body_spec(p, index + 1, ci))
        } else if b == 0x3d {
            then_spec(seq!['?'], body_spec(p, index + 1, ci))
        } else if b == 0x25 && index + 1 < p.len() && p[index + 1] == 0x28 {
            then_spec("(?:"@, body_spec(p, index + 2, ci))
        } else if b == 0x5b {
            match set_spec(p, index) {
                Err(e) => Err(e),
                Ok((s, next)) => if next <= index || next > p.len() {
                    Ok((seq![], ci))
                } else {
                    then_spec(s, body_spec(p, next, ci))
                },
            }
        } else if b == 0x40 || b == 0x26 || b == 0x7e {
            Err(VimRegexError::NoEquivalent { byte: b })
        } else if is_shared_operator(b) {
            then_spec(seq![b as char], body_spec(p, index + 1, ci))
        } else {
            then_spec(regex_literal(b), body_spec(p, index + 1, ci))
        }
    }
}

/// `pre` in front of a successful translation.
pub open spec fn then_spec(pre: Seq<char>, r: Result<(Seq<char>, bool), VimRegexError>) -> Result<
    (Seq<char>, bool),
    VimRegexError,
> {
    match r {
        Ok((s, ci)) => Ok((pre + s, ci)),
        Err(e) => Err(e),
    }
}

/// Where the very-magic body of `p` starts, or why it cannot be read.
///
/// Neovim only leaves the magic level alone when the pattern sets it
/// explicitly; everything else is forced to very magic.
pub open spec fn body_start(p: Seq<u8>) -> Result<int, VimRegexError> {
    if p.len() >= 2 && p[0] == 0x5c && p[1] == 0x76 {
        Ok(2)
    } else if p.len() >= 2 && p[0] == 0x5c && (p[1] == 0x6d || p[1] == 0x4d || p[1] == 0x56) {
        Err(VimRegexError::UnsupportedMagic)
    } else {
        Ok(0)
    }
}

/// The regex source equivalent to the Vim regex `p`, and whether it is
/// case-insensitive.
pub open spec fn translate_spec(p: Seq<u8>) -> Result<(Seq<char>, bool), VimRegexError> {
    match body_start(p) {
        Err(e) => Err(e),
        Ok(start) => body_spec(p, start, false),
    }
}

/// Copy `[...]` across, returning the index just past the closing bracket.
fn translate_set(bytes: &[u8], open: usize, out: &mut String) -> (r: Result<usize, VimRegexError>)
    requires
        open < bytes.len(),
        bytes@[open as int] == 0x5b,
    ensures
        match set_spec(bytes@, open as int) {
            Ok((s, next)) => r == Ok::<usize, VimRegexError>(next as usize) && final(out)@ == old(out)@ + s
                && open < next <= bytes@.len(),
            Err(e) => r == Err::<usize, VimRegexError>(e),
        },
{
    let ghost p = bytes@;
    let ghost start = out@;
    let mut index = open + 1;
    push_char(out, '[');
    let ghost mut head: Seq<char> = seq!['['];
    if index < bytes.len() && bytes[index] == 0x5e {
        push_char(out, '^');
        index += 1;
        proof { head = head + seq!['^']; }
    }
    if index < bytes.len() && bytes[index] == 0x5d {
        push_char(out, '\\');
        push_char(out, ']');
        index += 1;
        proof { head = head + seq!['\\', ']']; }
    }
    let ghost i2 = index as int;
    assert(out@ =~= start + head);
    let ghost mut acc: Seq<char> = seq![];
    while index < bytes.len() && bytes[index] != 0x5d
        invariant
            p == bytes@,
            open < i2 <= index <= bytes@.len(),
            set_spec(p, open as int) == (match set_members(p, i2) {
                Err(e) => Err(e),
                Ok((members, close)) => Ok((head + members + seq![']'], close + 1)),
            }),
            set_members(p, i2) == (match set_members(p, index as int) {
                Err(e) => Err(e),
                Ok((rest, close)) => Ok((acc + rest, close)),
            }),
            out@ == start + head + acc,
        decreases bytes@.len() - index,
    {
        let ghost before = out@;
        let ghost bi = index as int;
        let ghost mut piece: Seq<char> = seq![];
        if bytes[index] == 0x5c {
            if index + 1 >= bytes.len() {
                return Err(VimRegexError::DanglingBackslash);
            }
            let escaped = bytes[index + 1];
            push_char(out, '\\');
            push_char(out, escaped as char);
            proof { piece = seq!['\\', escaped as char]; }
            index += 2;
        } else {
            let byte = bytes[index];
            if byte == 0x26 {
                push_char(out, '\\');
                push_char(out, '&');
            } else if byte < 0x80 {
                push_char(out, byte as char);
            } else {
                push_byte_escape(byte, out);
            }
            proof { piece = set_byte(byte); }
            index += 1;
        }
        proof {
            assert(out@ =~= before + piece);
            let r = set_members(p, index as int);
            if let Ok((rest, close)) = r {
                assert(acc + (piece + rest) =~= (acc + piece) + rest);
            }
            acc = acc + piece;
            assert(out@ =~= start + head + acc);
        }
    }
    if index >= bytes.len() {
        return Err(VimRegexError::UnterminatedSet);
    }
    push_char(out, ']');
    proof {
        assert(acc + seq![] =~= acc);
    }
    Ok(index + 1)
}

/// Translate a Vim regex to Rust regex source, plus whether `\c` was seen.
pub fn translate(pattern: &str) -> (r: Result<(String, bool), VimRegexError>)
    ensures
        match translate_spec(pattern.spec_bytes()) {
            Ok((s, ci)) => r matches Ok((out, case_insensitive)) && out@ == s && case_insensitive == ci,
            Err(e) => r == Err::<(String, bool), VimRegexError>(e),
        },
{
    let bytes = pattern.as_bytes();
    let ghost p = bytes@;
    let mut index: usize = 0;
    if bytes.len() >= 2 && bytes[0] == 0x5c {
        if bytes[1] == 0x76 {
            index = 2;
        } else if bytes[1] == 0x6d || bytes[1] == 0x4d || bytes[1] == 0x56 {
            return Err(VimRegexError::UnsupportedMagic);
        }
    }
    let ghost i0 = index as int;
    let mut out = String::new();
    let mut case_insensitive = false;
    let ghost mut acc: Seq<char> = seq![];
    assert(out@ =~= acc);
    while index < bytes.len()
        invariant
            p == bytes@,
            p == pattern.spec_bytes(),
            translate_spec(p) == body_spec(p, i0, false),
            i0 <= index,
            out@ == acc,
            body_spec(p, i0, false) == then_spec(acc, body_spec(p, index as int, case_insensitive)),
        decreases bytes@.len() - index,
    {
        let ghost before = out@;
        let ghost bi = index as int;
        let ghost bci = case_insensitive;
        let ghost mut piece: Seq<char> = seq![];
        let byte = bytes[index];
        if byte == 0x5c {
            if index + 1 >= bytes.len() {
                assert(body_spec(p, bi, bci) == Err::<(Seq<char>, bool), VimRegexError>(
                    VimRegexError::DanglingBackslash,
                ));
                return Err(VimRegexError::DanglingBackslash);
            }
            let escaped = bytes[index + 1];
            index += 2;
            if escaped == 0x63 {
                case_insensitive = true;
            } else if escaped == 0x43 {
                // `\C` asks for the default, which an earlier `\c` overrides.
            } else {
                match escaped_class_exec(escaped) {
                    Some(s) => {
                        out.append(s);
                        proof { piece = s@; }
                    },
                    None => {
                        push_literal(escaped, &mut out);
                        proof { piece = regex_literal(escaped); }
                    },
                }
            }
        } else if byte == 0x3c || byte == 0x3e {
            out.append("\\b");
            proof { piece = "\\b"@; }
            index += 1;
        } else if byte == 0x3d {
            push_char(&mut out, '?');
            proof { piece = seq!['?']; }
            index += 1;
        } else if byte == 0x25 && index + 1 < bytes.len() && bytes[index + 1] == 0x28 {
            out.append("(?:");
            proof { piece = "(?:"@; }
            index += 2;
        } else if byte == 0x5b {
            match translate_set(bytes, index, &mut out) {
                Ok(next) => {
                    index = next;
                },
                Err(e) => {
                    assert(body_spec(p, bi, bci) == Err::<(Seq<char>, bool), VimRegexError>(e));
                    return Err(e);
                },
            }
            proof { piece = set_spec(p, bi)->Ok_0.0; }
        } else if byte == 0x40 || byte == 0x26 || byte == 0x7e {
            assert(body_spec(p, bi, bci) == Err::<(Seq<char>, bool), VimRegexError>(
                VimRegexError::NoEquivalent { byte },
            ));
            return Err(VimRegexError::NoEquivalent { byte });
        } else if byte == 0x5e || byte == 0x24 || byte == 0x2e || byte == 0x2a || byte == 0x2b
            || byte == 0x3f || byte == 0x28 || byte == 0x29 || byte == 0x7c || byte == 0x7b
            || byte == 0x7d {
            push_char(&mut out, byte as char);
            proof { piece = seq![byte as char]; }
            index += 1;
        } else {
            push_literal(byte, &mut out);
            proof { piece = regex_literal(byte); }
            index += 1;
        }
        proof {
            assert(out@ =~= before + piece);
            assert(body_spec(p, bi, bci) == then_spec(piece, body_spec(p, index as int, case_insensitive)));
            let r = body_spec(p, index as int, case_insensitive);
            if let Ok((rest, ci)) = r {
                assert(acc + (piece + rest) =~= (acc + piece) + rest);
            }
            acc = acc + piece;
        }
    }
    proof {
        assert(acc + seq![] =~= acc);
    }
    Ok((out, case_insensitive))
}

fn escaped_class_exec(b: u8) -> (r: Option<&'static str>)
    ensures
        match r {
            Some(s) => escaped_class(b) == Some(s@),
            None => escaped_class(b) is None,
        },
{
    if b == 0x3c || b == 0x3e { Some("\\b") }
    else if b == 0x77 { Some("[0-9A-Za-z_]") }
    else if b == 0x57 { Some("[^0-9A-Za-z_]") }
    else if b == 0x64 { Some("[0-9]") }
    else if b == 0x44 { Some("[^0-9]") }
    else if b == 0x61 { Some("[A-Za-z]") }
    else if b == 0x41 { Some("[^A-Za-z]") }
    else if b == 0x6c { Some("[a-z]") }
    else if b == 0x4c { Some("[^a-z]") }
    else if b == 0x75 { Some("[A-Z]") }
    else if b == 0x55 { Some("[^A-Z]") }
    else if b == 0x78 { Some("[0-9A-Fa-f]") }
    else if b == 0x58 { Some("[^0-9A-Fa-f]") }
    else if b == 0x68 { Some("[A-Za-z_]") }
    else if b == 0x48 { Some("[^A-Za-z_]") }
    else if b == 0x6f { Some("[0-7]") }
    else if b == 0x4f { Some("[^0-7]") }
    else if b == 0x73 { Some("[ \\t]") }
    else if b == 0x53 { Some("[^ \\t]") }
    else if b == 0x6e { Some("\\n") }
    else if b == 0x74 { Some("\\t") }
    else if b == 0x72 { Some("\\r") }
    else if b == 0x65 { Some("\\x1b") }
    else { None }
}

/// Compile a Vim regex, as Neovim's query predicates would.
pub fn compile(pattern: &str) -> (r: Result<CompiledRegex, VimRegexError>)
    ensures
        r is Ok <==> (translate_spec(pattern.spec_bytes()) matches Ok((source, ci)) && regex_accepts(
            source,
            ci,
            false,
        )),
        r matches Ok(regex) ==> (translate_spec(pattern.spec_bytes()) matches Ok((source, ci))
            && regex.pattern() == source && regex.ignores_case() == ci && !regex.dot_all()),
        r matches Err(e) ==> match translate_spec(pattern.spec_bytes()) {
            Err(t) => e == t,
            Ok(_) => e is InvalidRegex,
        },
{
    let (source, case_insensitive) = translate(pattern)?;
    match build_regex(&source, case_insensitive, false) {
        Ok(regex) => Ok(regex),
        Err(error) => Err(VimRegexError::InvalidRegex { source, error }),
    }
}

} // verus!

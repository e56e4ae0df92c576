//! Which bytes the character classes of Lua patterns and Vim regexes stand
//! for, and that their translations into regex class syntax stand for the
//! same bytes.
//!
//! A class body is read as the regex engine reads one: a run of members,
//! each a single character or a range `x-y`, where a character is written
//! plainly, as `\xNN`, as one of `\t` `\n` `\f` `\r`, or as any other
//! character behind a backslash.
use vstd::prelude::*;

use crate::query::lua_pattern::{ascii_lower, class_ranges, escape_spec, LuaPatternError};
use crate::query::vim_regex::escaped_class;

verus! {

/// The value of a hex digit.
pub open spec fn hex_value(c: char) -> Option<int> {
    if '0' <= c <= '9' {
        Some(c as int - 48)
    } else if 'a' <= c <= 'f' {
        Some(c as int - 87)
    } else if 'A' <= c <= 'F' {
        Some(c as int - 55)
    } else {
        None
    }
}

/// The character written at `i` of a class body, as a number, and where the
/// next member starts.
pub open spec fn class_atom(body: Seq<char>, i: int) -> Option<(int, int)> {
    if i < 0 || i >= body.len() {
        None
    } else if body[i] == '\\' {
        if i + 1 >= body.len() {
            None
        } else {
            let e = body[i + 1];
            if e == 'x' {
                if i + 3 < body.len() {
                    match (hex_value(body[i + 2]), hex_value(body[i + 3])) {
                        (Some(h), Some(l)) => Some((16 * h + l, i + 4)),
                        _ => None,
                    }
                } else {
                    None
                }
            } else if e == 't' {
                Some((9, i + 2))
            } else if e == 'n' {
                Some((10, i + 2))
            } else if e == 'f' {
                Some((12, i + 2))
            } else if e == 'r' {
                Some((13, i + 2))
            } else {
                Some((e as int, i + 2))
            }
        }
    } else {
        Some((body[i] as int, i + 1))
    }
}

/// Whether byte `b` is a member of the class body from `i` on.
pub open spec fn in_class_body(body: Seq<char>, i: int, b: int) -> bool
    decreases body.len() - i,
{
    if i < 0 || i >= body.len() {
        false
    } else {
        match class_atom(body, i) {
            None => false,
            Some((lo, j)) => if j <= i {
                false
            } else if j < body.len() && body[j] == '-' && class_atom(body, j + 1) is Some {
                let (hi, k) = class_atom(body, j + 1)->0;
                if k <= j {
                    false
                } else {
                    (lo <= b <= hi) || in_class_body(body, k, b)
                }
            } else {
                b == lo || in_class_body(body, j, b)
            },
        }
    }
}

/// Whether byte `b` matches a bracket expression `[...]` or `[^...]`.
pub open spec fn bracket_matches(expr: Seq<char>, b: int) -> bool {
    if expr.len() >= 3 && expr[0] == '[' && expr[1] == '^' && expr.last() == ']' {
        !in_class_body(expr.subrange(2, expr.len() - 1), 0, b)
    } else if expr.len() >= 2 && expr[0] == '[' && expr.last() == ']' {
        in_class_body(expr.subrange(1, expr.len() - 1), 0, b)
    } else {
        false
    }
}

/// ASCII digits.
pub open spec fn is_digit(b: int) -> bool {
    0x30 <= b <= 0x39
}

/// ASCII upper-case letters.
pub open spec fn is_upper(b: int) -> bool {
    0x41 <= b <= 0x5a
}

/// ASCII lower-case letters.
pub open spec fn is_lower(b: int) -> bool {
    0x61 <= b <= 0x7a
}

/// ASCII letters.
pub open spec fn is_letter(b: int) -> bool {
    is_upper(b) || is_lower(b)
}

/// The bytes Lua's class `%c` stands for, by its lower-case letter, as the
/// Lua manual defines them in the C locale: `%a` letters, `%d` digits, `%l`
/// lower case, `%u` upper case, `%w` letters and digits, `%x` hex digits,
/// `%s` white space, `%p` punctuation, `%c` control characters and `%g`
/// printable characters other than space.
pub open spec fn lua_class(c: u8, b: int) -> bool {
    if c == 0x61 {
        is_letter(b)
    } else if c == 0x64 {
        is_digit(b)
    } else if c == 0x6c {
        is_lower(b)
    } else if c == 0x75 {
        is_upper(b)
    } else if c == 0x77 {
        is_letter(b) || is_digit(b)
    } else if c == 0x78 {
        is_digit(b) || (0x41 <= b <= 0x46) || (0x61 <= b <= 0x66)
    } else if c == 0x73 {
        b == 0x20 || (0x09 <= b <= 0x0d)
    } else if c == 0x70 {
        0x21 <= b <= 0x7e && !is_letter(b) && !is_digit(b)
    } else if c == 0x63 {
        (0 <= b <= 0x1f) || b == 0x7f
    } else if c == 0x67 {
        0x21 <= b <= 0x7e
    } else {
        false
    }
}

/// The bytes Vim's class `\c` stands for, by its lower-case letter, as
/// Vim's documentation defines them: `\w` word characters, `\d` digits,
/// `\a` letters, `\l` lower case, `\u` upper case, `\x` hex digits, `\h`
/// letters and `_`, `\o` octal digits and `\s` space and tab.
pub open spec fn vim_class(c: u8, b: int) -> bool {
    if c == 0x77 {
        is_letter(b) || is_digit(b) || b == 0x5f
    } else if c == 0x64 {
        is_digit(b)
    } else if c == 0x61 {
        is_letter(b)
    } else if c == 0x6c {
        is_lower(b)
    } else if c == 0x75 {
        is_upper(b)
    } else if c == 0x78 {
        is_digit(b) || (0x41 <= b <= 0x46) || (0x61 <= b <= 0x66)
    } else if c == 0x68 {
        is_letter(b) || b == 0x5f
    } else if c == 0x6f {
        0x30 <= b <= 0x37
    } else if c == 0x73 {
        b == 0x20 || b == 0x09
    } else {
        false
    }
}

/// The letters that name a Lua class: `a c d g l p s u w x`.
pub open spec fn is_lua_class_letter(c: u8) -> bool {
    c == 0x61 || c == 0x63 || c == 0x64 || c == 0x67 || c == 0x6c || c == 0x70 || c == 0x73
        || c == 0x75 || c == 0x77 || c == 0x78
}

proof fn lemma_lua_class_a()
    ensures
        class_ranges(0x61) is Some,
        class_ranges(0x61)->0.len() > 0 && class_ranges(0x61)->0[0] != '^',
        forall|b: int| 0 <= b < 256 ==> in_class_body(class_ranges(0x61)->0, 0, b) == lua_class(0x61, b),
{
    reveal_strlit("a-zA-Z");
    reveal_with_fuel(in_class_body, 8);
}

proof fn lemma_lua_class_d()
    ensures
        class_ranges(0x64) is Some,
        class_ranges(0x64)->0.len() > 0 && class_ranges(0x64)->0[0] != '^',
        forall|b: int| 0 <= b < 256 ==> in_class_body(class_ranges(0x64)->0, 0, b) == lua_class(0x64, b),
{
    reveal_strlit("0-9");
    reveal_with_fuel(in_class_body, 8);
}

proof fn lemma_lua_class_l()
    ensures
        class_ranges(0x6c) is Some,
        class_ranges(0x6c)->0.len() > 0 && class_ranges(0x6c)->0[0] != '^',
        forall|b: int| 0 <= b < 256 ==> in_class_body(class_ranges(0x6c)->0, 0, b) == lua_class(0x6c, b),
{
    reveal_strlit("a-z");
    reveal_with_fuel(in_class_body, 8);
}

proof fn lemma_lua_class_u()
    ensures
        class_ranges(0x75) is Some,
        class_ranges(0x75)->0.len() > 0 && class_ranges(0x75)->0[0] != '^',
        forall|b: int| 0 <= b < 256 ==> in_class_body(class_ranges(0x75)->0, 0, b) == lua_class(0x75, b),
{
    reveal_strlit("A-Z");
    reveal_with_fuel(in_class_body, 8);
}

proof fn lemma_lua_class_w()
    ensures
        class_ranges(0x77) is Some,
        class_ranges(0x77)->0.len() > 0 && class_ranges(0x77)->0[0] != '^',
        forall|b: int| 0 <= b < 256 ==> in_class_body(class_ranges(0x77)->0, 0, b) == lua_class(0x77, b),
{
    reveal_strlit("0-9a-zA-Z");
    reveal_with_fuel(in_class_body, 8);
}

proof fn lemma_lua_class_x()
    ensures
        class_ranges(0x78) is Some,
        class_ranges(0x78)->0.len() > 0 && class_ranges(0x78)->0[0] != '^',
        forall|b: int| 0 <= b < 256 ==> in_class_body(class_ranges(0x78)->0, 0, b) == lua_class(0x78, b),
{
    reveal_strlit("0-9a-fA-F");
    reveal_with_fuel(in_class_body, 8);
}

proof fn lemma_lua_class_s()
    ensures
        class_ranges(0x73) is Some,
        class_ranges(0x73)->0.len() > 0 && class_ranges(0x73)->0[0] != '^',
        forall|b: int| 0 <= b < 256 ==> in_class_body(class_ranges(0x73)->0, 0, b) == lua_class(0x73, b),
{
    reveal_strlit(" \\t\\n\\x0b\\f\\r");
    reveal_with_fuel(in_class_body, 8);
}

proof fn lemma_lua_class_p()
    ensures
        class_ranges(0x70) is Some,
        class_ranges(0x70)->0.len() > 0 && class_ranges(0x70)->0[0] != '^',
        forall|b: int| 0 <= b < 256 ==> in_class_body(class_ranges(0x70)->0, 0, b) == lua_class(0x70, b),
{
    reveal_strlit("!-/:-@\\[-`{-~");
    reveal_with_fuel(in_class_body, 8);
}

proof fn lemma_lua_class_c()
    ensures
        class_ranges(0x63) is Some,
        class_ranges(0x63)->0.len() > 0 && class_ranges(0x63)->0[0] != '^',
        forall|b: int| 0 <= b < 256 ==> in_class_body(class_ranges(0x63)->0, 0, b) == lua_class(0x63, b),
{
    reveal_strlit("\\x00-\\x1f\\x7f");
    reveal_with_fuel(in_class_body, 8);
}

proof fn lemma_lua_class_g()
    ensures
        class_ranges(0x67) is Some,
        class_ranges(0x67)->0.len() > 0 && class_ranges(0x67)->0[0] != '^',
        forall|b: int| 0 <= b < 256 ==> in_class_body(class_ranges(0x67)->0, 0, b) == lua_class(0x67, b),
{
    reveal_strlit("\\x21-\\x7e");
    reveal_with_fuel(in_class_body, 8);
}

/// Each Lua class letter is translated to a class body that holds exactly
/// the bytes the Lua manual gives that class, and no other letter is a
/// class. So `%w` is exactly `%a` and `%d` together, `%x` holds `%d`, and
/// so on.
pub proof fn lemma_lua_classes(c: u8)
    ensures
        class_ranges(c) is Some <==> is_lua_class_letter(c),
        is_lua_class_letter(c) ==> forall|b: int|
            0 <= b < 256 ==> in_class_body(class_ranges(c)->0, 0, b) == lua_class(c, b),
        is_lua_class_letter(c) ==> class_ranges(c)->0.len() > 0 && class_ranges(c)->0[0] != '^',
{
    if c == 0x61 {
        lemma_lua_class_a();
    } else if c == 0x64 {
        lemma_lua_class_d();
    } else if c == 0x6c {
        lemma_lua_class_l();
    } else if c == 0x75 {
        lemma_lua_class_u();
    } else if c == 0x77 {
        lemma_lua_class_w();
    } else if c == 0x78 {
        lemma_lua_class_x();
    } else if c == 0x73 {
        lemma_lua_class_s();
    } else if c == 0x70 {
        lemma_lua_class_p();
    } else if c == 0x63 {
        lemma_lua_class_c();
    } else if c == 0x67 {
        lemma_lua_class_g();
    }
}

/// Lua's `%w` is translated to exactly the letters and digits: the bytes
/// of `%a` and of `%d` together.
pub proof fn lemma_lua_word_class()
    ensures
        forall|b: int|
            0 <= b < 256 ==> in_class_body(class_ranges(0x77)->0, 0, b) == (in_class_body(
                class_ranges(0x61)->0,
                0,
                b,
            ) || in_class_body(class_ranges(0x64)->0, 0, b)),
        forall|b: int|
            0 <= b < 256 ==> (in_class_body(class_ranges(0x77)->0, 0, b) <==> is_letter(b) || is_digit(b)),
{
    lemma_lua_class_w();
    lemma_lua_class_a();
    lemma_lua_class_d();
    assert forall|b: int| 0 <= b < 256 implies in_class_body(class_ranges(0x77)->0, 0, b) == (in_class_body(
        class_ranges(0x61)->0,
        0,
        b,
    ) || in_class_body(class_ranges(0x64)->0, 0, b)) by {
        assert(lua_class(0x77, b) == (is_letter(b) || is_digit(b)));
        assert(lua_class(0x61, b) == is_letter(b));
        assert(lua_class(0x64, b) == is_digit(b));
        assert(in_class_body(class_ranges(0x77)->0, 0, b) == lua_class(0x77, b));
        assert(in_class_body(class_ranges(0x61)->0, 0, b) == lua_class(0x61, b));
        assert(in_class_body(class_ranges(0x64)->0, 0, b) == lua_class(0x64, b));
    }
    assert forall|b: int|
        0 <= b < 256 implies (in_class_body(class_ranges(0x77)->0, 0, b) <==> is_letter(b) || is_digit(b)) by {
        assert(in_class_body(class_ranges(0x77)->0, 0, b) == lua_class(0x77, b));
    }
}

/// A bracketed body matches what the body holds; with `^`, the rest.
proof fn lemma_bracket(body: Seq<char>, negated: bool)
    requires
        body.len() == 0 || body[0] != '^',
    ensures
        forall|b: int|
            bracket_matches(
                seq!['['] + (if negated { seq!['^'] } else { seq![] }) + body + seq![']'],
                b,
            ) == (if negated { !in_class_body(body, 0, b) } else { in_class_body(body, 0, b) }),
{
    let e = seq!['['] + (if negated { seq!['^'] } else { seq![] }) + body + seq![']'];
    if negated {
        assert(e.subrange(2, e.len() - 1) =~= body);
    } else {
        assert(e.subrange(1, e.len() - 1) =~= body);
        if e.len() >= 3 {
            assert(e[1] == body[0]);
        }
    }
}

/// A Lua class written on its own, `%c`, is translated to a regex class
/// that matches exactly the bytes of that class, and `%C`, its upper-case
/// letter, to one that matches exactly the others. Inside a set, `%c`
/// contributes exactly its bytes.
pub proof fn lemma_lua_class_escapes(c: u8)
    requires
        is_lua_class_letter(c),
    ensures
        escape_spec(c, false) is Ok,
        escape_spec(c, true) is Ok,
        escape_spec((c - 32) as u8, false) is Ok,
        forall|b: int| 0 <= b < 256 ==> bracket_matches(escape_spec(c, false)->Ok_0, b) == lua_class(c, b),
        forall|b: int|
            0 <= b < 256 ==> bracket_matches(escape_spec((c - 32) as u8, false)->Ok_0, b) == !lua_class(c, b),
        forall|b: int| 0 <= b < 256 ==> in_class_body(escape_spec(c, true)->Ok_0, 0, b) == lua_class(c, b),
{
    lemma_lua_classes(c);
    let body = class_ranges(c)->0;
    let upper = (c - 32) as u8;
    assert(ascii_lower(c) == c);
    assert(ascii_lower(upper) == c);
    lemma_bracket(body, false);
    lemma_bracket(body, true);
    assert forall|b: int| 0 <= b < 256 implies in_class_body(body, 0, b) == lua_class(c, b) by {}
    assert(escape_spec(c, false) == Ok::<Seq<char>, LuaPatternError>(seq!['['] + body + seq![']']));
    assert(seq!['['] + body + seq![']'] =~= seq!['['] + Seq::<char>::empty() + body + seq![']']);
    assert(escape_spec(upper, false) == Ok::<Seq<char>, LuaPatternError>(seq!['[', '^'] + body + seq![']']));
    assert(seq!['[', '^'] + body + seq![']'] =~= seq!['['] + seq!['^'] + body + seq![']']);
}

/// The letters that name a Vim class, in lower case: `w d a l u x h o s`.
pub open spec fn is_vim_class_letter(c: u8) -> bool {
    c == 0x77 || c == 0x64 || c == 0x61 || c == 0x6c || c == 0x75 || c == 0x78 || c == 0x68 || c == 0x6f
        || c == 0x73
}

proof fn lemma_vim_class_w()
    ensures
        escaped_class(0x77) is Some,
        escaped_class(0x57) is Some,
        forall|b: int| 0 <= b < 256 ==> bracket_matches(escaped_class(0x77)->0, b) == vim_class(0x77, b),
        forall|b: int| 0 <= b < 256 ==> bracket_matches(escaped_class(0x57)->0, b) == !vim_class(0x77, b),
{
    reveal_strlit("[0-9A-Za-z_]");
    reveal_strlit("[^0-9A-Za-z_]");
    reveal_strlit("0-9A-Za-z_");
    let e = escaped_class(0x77)->0;
    let f = escaped_class(0x57)->0;
    assert(e.subrange(1, e.len() - 1) =~= "0-9A-Za-z_"@);
    assert(f.subrange(2, f.len() - 1) =~= "0-9A-Za-z_"@);
    reveal_with_fuel(in_class_body, 8);
}

proof fn lemma_vim_class_d()
    ensures
        escaped_class(0x64) is Some,
        escaped_class(0x44) is Some,
        forall|b: int| 0 <= b < 256 ==> bracket_matches(escaped_class(0x64)->0, b) == vim_class(0x64, b),
        forall|b: int| 0 <= b < 256 ==> bracket_matches(escaped_class(0x44)->0, b) == !vim_class(0x64, b),
{
    reveal_strlit("[0-9]");
    reveal_strlit("[^0-9]");
    reveal_strlit("0-9");
    let e = escaped_class(0x64)->0;
    let f = escaped_class(0x44)->0;
    assert(e.subrange(1, e.len() - 1) =~= "0-9"@);
    assert(f.subrange(2, f.len() - 1) =~= "0-9"@);
    reveal_with_fuel(in_class_body, 8);
}

proof fn lemma_vim_class_a()
    ensures
        escaped_class(0x61) is Some,
        escaped_class(0x41) is Some,
        forall|b: int| 0 <= b < 256 ==> bracket_matches(escaped_class(0x61)->0, b) == vim_class(0x61, b),
        forall|b: int| 0 <= b < 256 ==> bracket_matches(escaped_class(0x41)->0, b) == !vim_class(0x61, b),
{
    reveal_strlit("[A-Za-z]");
    reveal_strlit("[^A-Za-z]");
    reveal_strlit("A-Za-z");
    let e = escaped_class(0x61)->0;
    let f = escaped_class(0x41)->0;
    assert(e.subrange(1, e.len() - 1) =~= "A-Za-z"@);
    assert(f.subrange(2, f.len() - 1) =~= "A-Za-z"@);
    reveal_with_fuel(in_class_body, 8);
}

proof fn lemma_vim_class_l()
    ensures
        escaped_class(0x6c) is Some,
        escaped_class(0x4c) is Some,
        forall|b: int| 0 <= b < 256 ==> bracket_matches(escaped_class(0x6c)->0, b) == vim_class(0x6c, b),
        forall|b: int| 0 <= b < 256 ==> bracket_matches(escaped_class(0x4c)->0, b) == !vim_class(0x6c, b),
{
    reveal_strlit("[a-z]");
    reveal_strlit("[^a-z]");
    reveal_strlit("a-z");
    let e = escaped_class(0x6c)->0;
    let f = escaped_class(0x4c)->0;
    assert(e.subrange(1, e.len() - 1) =~= "a-z"@);
    assert(f.subrange(2, f.len() - 1) =~= "a-z"@);
    reveal_with_fuel(in_class_body, 8);
}

proof fn lemma_vim_class_u()
    ensures
        escaped_class(0x75) is Some,
        escaped_class(0x55) is Some,
        forall|b: int| 0 <= b < 256 ==> bracket_matches(escaped_class(0x75)->0, b) == vim_class(0x75, b),
        forall|b: int| 0 <= b < 256 ==> bracket_matches(escaped_class(0x55)->0, b) == !vim_class(0x75, b),
{
    reveal_strlit("[A-Z]");
    reveal_strlit("[^A-Z]");
    reveal_strlit("A-Z");
    let e = escaped_class(0x75)->0;
    let f = escaped_class(0x55)->0;
    assert(e.subrange(1, e.len() - 1) =~= "A-Z"@);
    assert(f.subrange(2, f.len() - 1) =~= "A-Z"@);
    reveal_with_fuel(in_class_body, 8);
}

proof fn lemma_vim_class_x()
    ensures
        escaped_class(0x78) is Some,
        escaped_class(0x58) is Some,
        forall|b: int| 0 <= b < 256 ==> bracket_matches(escaped_class(0x78)->0, b) == vim_class(0x78, b),
        forall|b: int| 0 <= b < 256 ==> bracket_matches(escaped_class(0x58)->0, b) == !vim_class(0x78, b),
{
    reveal_strlit("[0-9A-Fa-f]");
    reveal_strlit("[^0-9A-Fa-f]");
    reveal_strlit("0-9A-Fa-f");
    let e = escaped_class(0x78)->0;
    let f = escaped_class(0x58)->0;
    assert(e.subrange(1, e.len() - 1) =~= "0-9A-Fa-f"@);
    assert(f.subrange(2, f.len() - 1) =~= "0-9A-Fa-f"@);
    reveal_with_fuel(in_class_body, 8);
}

proof fn lemma_vim_class_h()
    ensures
        escaped_class(0x68) is Some,
        escaped_class(0x48) is Some,
        forall|b: int| 0 <= b < 256 ==> bracket_matches(escaped_class(0x68)->0, b) == vim_class(0x68, b),
        forall|b: int| 0 <= b < 256 ==> bracket_matches(escaped_class(0x48)->0, b) == !vim_class(0x68, b),
{
    reveal_strlit("[A-Za-z_]");
    reveal_strlit("[^A-Za-z_]");
    reveal_strlit("A-Za-z_");
    let e = escaped_class(0x68)->0;
    let f = escaped_class(0x48)->0;
    assert(e.subrange(1, e.len() - 1) =~= "A-Za-z_"@);
    assert(f.subrange(2, f.len() - 1) =~= "A-Za-z_"@);
    reveal_with_fuel(in_class_body, 8);
}

proof fn lemma_vim_class_o()
    ensures
        escaped_class(0x6f) is Some,
        escaped_class(0x4f) is Some,
        forall|b: int| 0 <= b < 256 ==> bracket_matches(escaped_class(0x6f)->0, b) == vim_class(0x6f, b),
        forall|b: int| 0 <= b < 256 ==> bracket_matches(escaped_class(0x4f)->0, b) == !vim_class(0x6f, b),
{
    reveal_strlit("[0-7]");
    reveal_strlit("[^0-7]");
    reveal_strlit("0-7");
    let e = escaped_class(0x6f)->0;
    let f = escaped_class(0x4f)->0;
    assert(e.subrange(1, e.len() - 1) =~= "0-7"@);
    assert(f.subrange(2, f.len() - 1) =~= "0-7"@);
    reveal_with_fuel(in_class_body, 8);
}

proof fn lemma_vim_class_s()
    ensures
        escaped_class(0x73) is Some,
        escaped_class(0x53) is Some,
        forall|b: int| 0 <= b < 256 ==> bracket_matches(escaped_class(0x73)->0, b) == vim_class(0x73, b),
        forall|b: int| 0 <= b < 256 ==> bracket_matches(escaped_class(0x53)->0, b) == !vim_class(0x73, b),
{
    reveal_strlit("[ \\t]");
    reveal_strlit("[^ \\t]");
    reveal_strlit(" \\t");
    let e = escaped_class(0x73)->0;
    let f = escaped_class(0x53)->0;
    assert(e.subrange(1, e.len() - 1) =~= " \\t"@);
    assert(f.subrange(2, f.len() - 1) =~= " \\t"@);
    reveal_with_fuel(in_class_body, 8);
}

/// Each Vim class is translated to a regex class that matches exactly the
/// bytes Vim's documentation gives it, and its upper-case form to one that
/// matches exactly the other bytes: `\w` and `\W` split the bytes between
/// them, `\w` holds `\d`, `\a` and `_`, and so on.
pub proof fn lemma_vim_classes(c: u8)
    requires
        is_vim_class_letter(c),
    ensures
        escaped_class(c) is Some,
        escaped_class((c - 32) as u8) is Some,
        forall|b: int| 0 <= b < 256 ==> bracket_matches(escaped_class(c)->0, b) == vim_class(c, b),
        forall|b: int| 0 <= b < 256 ==> bracket_matches(escaped_class((c - 32) as u8)->0, b) == !vim_class(c, b),
{
    if c == 0x77 {
        lemma_vim_class_w();
    } else if c == 0x64 {
        lemma_vim_class_d();
    } else if c == 0x61 {
        lemma_vim_class_a();
    } else if c == 0x6c {
        lemma_vim_class_l();
    } else if c == 0x75 {
        lemma_vim_class_u();
    } else if c == 0x78 {
        lemma_vim_class_x();
    } else if c == 0x68 {
        lemma_vim_class_h();
    } else if c == 0x6f {
        lemma_vim_class_o();
    } else if c == 0x73 {
        lemma_vim_class_s();
    }
}

/// Vim's `\w` is translated to exactly the word characters `[0-9A-Za-z_]`
/// and `\W` to exactly the other bytes; every digit is a word character.
pub proof fn lemma_vim_word_class()
    ensures
        forall|b: int|
            0 <= b < 256 ==> (bracket_matches(escaped_class(0x77)->0, b) <==> is_letter(b) || is_digit(b) || b
                == 0x5f),
        forall|b: int|
            0 <= b < 256 ==> bracket_matches(escaped_class(0x57)->0, b) == !bracket_matches(
                escaped_class(0x77)->0,
                b,
            ),
        forall|b: int|
            0 <= b < 256 && bracket_matches(escaped_class(0x64)->0, b) ==> bracket_matches(
                escaped_class(0x77)->0,
                b,
            ),
{
    lemma_vim_class_w();
    lemma_vim_class_d();
    assert forall|b: int|
        0 <= b < 256 implies (bracket_matches(escaped_class(0x77)->0, b) <==> is_letter(b) || is_digit(b) || b
            == 0x5f) by {
        assert(bracket_matches(escaped_class(0x77)->0, b) == vim_class(0x77, b));
    }
    assert forall|b: int|
        0 <= b < 256 implies bracket_matches(escaped_class(0x57)->0, b) == !bracket_matches(
            escaped_class(0x77)->0,
            b,
        ) by {
        assert(bracket_matches(escaped_class(0x77)->0, b) == vim_class(0x77, b));
        assert(bracket_matches(escaped_class(0x57)->0, b) == !vim_class(0x77, b));
    }
    assert forall|b: int|
        0 <= b < 256 && bracket_matches(escaped_class(0x64)->0, b) implies bracket_matches(
            escaped_class(0x77)->0,
            b,
        ) by {
        assert(bracket_matches(escaped_class(0x77)->0, b) == vim_class(0x77, b));
        assert(bracket_matches(escaped_class(0x64)->0, b) == vim_class(0x64, b));
    }
}

} // verus!

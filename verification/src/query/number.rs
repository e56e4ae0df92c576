//! Reading decimal numbers out of query arguments, as `str::parse` does.
use vstd::prelude::*;

verus! {

broadcast use vstd::seq_lib::group_seq_properties;

/// Whether a character is an ASCII digit.
pub open spec fn is_digit(c: char) -> bool {
    '0' <= c <= '9'
}

/// The value of a run of digits.
pub open spec fn digits_value(d: Seq<char>) -> nat
    decreases d.len(),
{
    if d.len() == 0 {
        0
    } else {
        digits_value(d.drop_last()) * 10 + ((d.last() as u32) - 48) as nat
    }
}

/// Whether every character is a digit.
pub open spec fn all_digits(d: Seq<char>) -> bool {
    forall|k: int| 0 <= k < d.len() ==> is_digit(#[trigger] d[k])
}

/// What `str::parse::<u32>` gives: an optional `+`, then one or more digits
/// whose value fits.
pub open spec fn parsed_u32(s: Seq<char>) -> Option<u32> {
    let d = if s.len() > 0 && s[0] == '+' {
        s.drop_first()
    } else {
        s
    };
    if d.len() > 0 && all_digits(d) && digits_value(d) <= u32::MAX {
        Some(digits_value(d) as u32)
    } else {
        None
    }
}

/// What `str::parse::<i32>` gives: an optional sign, then one or more digits
/// whose signed value fits.
pub open spec fn parsed_i32(s: Seq<char>) -> Option<i32> {
    let negative = s.len() > 0 && s[0] == '-';
    let d = if s.len() > 0 && (s[0] == '+' || s[0] == '-') {
        s.drop_first()
    } else {
        s
    };
    if !(d.len() > 0 && all_digits(d)) {
        None
    } else if negative {
        if digits_value(d) <= 0x8000_0000 {
            Some((0 - digits_value(d)) as i32)
        } else {
            None
        }
    } else if digits_value(d) <= 0x7fff_ffff {
        Some(digits_value(d) as i32)
    } else {
        None
    }
}

proof fn lemma_value_grows(d: Seq<char>, c: char)
    requires
        is_digit(c),
    ensures
        digits_value(d.push(c)) == digits_value(d) * 10 + ((c as u32) - 48),
        digits_value(d.push(c)) >= digits_value(d),
{
    assert(d.push(c).drop_last() =~= d);
}

/// The value of the digits `s[from..)`, up to `limit`: `None` when a
/// character is not a digit, or the value is past `limit`.
fn digits_up_to(s: &[char], from: usize, limit: u64) -> (r: Option<u64>)
    requires
        from <= s@.len(),
        limit <= u32::MAX + 1,
    ensures
        match r {
            Some(v) => all_digits(s@.skip(from as int)) && v == digits_value(s@.skip(from as int))
                && v <= limit,
            None => !(all_digits(s@.skip(from as int)) && digits_value(s@.skip(from as int))
                <= limit),
        },
{
    let ghost d = s@.skip(from as int);
    let mut value: u64 = 0;
    let mut too_big = false;
    let mut i = from;
    while i < s.len()
        invariant
            from <= i <= s@.len(),
            limit <= u32::MAX + 1,
            d == s@.skip(from as int),
            all_digits(d.take(i - from)),
            !too_big ==> value == digits_value(d.take(i - from)) && value <= limit,
            too_big ==> digits_value(d.take(i - from)) > limit,
        decreases s@.len() - i,
    {
        let c = s[i];
        if !('0' <= c && c <= '9') {
            assert(!all_digits(d)) by {
                assert(d[i - from] == c);
            }
            return None;
        }
        proof {
            assert(d.take(i - from + 1) =~= d.take(i - from).push(c));
            lemma_value_grows(d.take(i - from), c);
        }
        if !too_big {
            let next = value * 10 + (c as u64 - 48);
            if next > limit {
                too_big = true;
            } else {
                value = next;
            }
        }
        i += 1;
    }
    assert(d.take(s@.len() - from) =~= d);
    if too_big {
        None
    } else {
        Some(value)
    }
}

/// Parse a `u32` as `str::parse` does.
pub fn parse_u32(text: &str) -> (r: Option<u32>)
    ensures
        r == parsed_u32(text@),
{
    let s = crate::text::chars_of(text);
    let from: usize = if s.len() > 0 && s[0] == '+' {
        1
    } else {
        0
    };
    assert(s@.skip(from as int) == if s@.len() > 0 && s@[0] == '+' {
        s@.drop_first()
    } else {
        s@
    });
    if from >= s.len() {
        return None;
    }
    match digits_up_to(s.as_slice(), from, 0xffff_ffff) {
        Some(v) => Some(v as u32),
        None => None,
    }
}

/// Parse an `i32` as `str::parse` does.
pub fn parse_i32(text: &str) -> (r: Option<i32>)
    ensures
        r == parsed_i32(text@),
{
    let s = crate::text::chars_of(text);
    let negative = s.len() > 0 && s[0] == '-';
    let from: usize = if s.len() > 0 && (s[0] == '+' || s[0] == '-') {
        1
    } else {
        0
    };
    assert(s@.skip(from as int) == if s@.len() > 0 && (s@[0] == '+' || s@[0] == '-') {
        s@.drop_first()
    } else {
        s@
    });
    if from >= s.len() {
        return None;
    }
    let limit: u64 = if negative {
        0x8000_0000
    } else {
        0x7fff_ffff
    };
    match digits_up_to(s.as_slice(), from, limit) {
        Some(v) => if negative {
            Some((0 - (v as i64)) as i32)
        } else {
            Some(v as i32)
        },
        None => None,
    }
}

} // verus!

//! Flattening overlapping highlights into a run of non-overlapping spans.
//!
//! Neovim's highlighting is flat: where two captures cover the same byte the
//! winner is the one with the higher priority, or, at equal priority, the one
//! applied later. Queries lean on that -- a broad pattern is written first and
//! a specific one after it, expecting the second to win.
//!
//! Painting into a per-byte buffer reproduces that rule exactly, and turns the
//! overlapping captures into the flat sequence of spans an HTML renderer needs.
use std::ops::Range;
use vstd::prelude::*;
use vstd::string::StringSliceAdditionalSpecFns;
use vstd::utf8::*;

use crate::text::str_eq;

verus! {

/// A contiguous run of source that carries one highlight (or none).
#[derive(Debug, PartialEq, Eq)]
pub struct Span<'a> {
    /// Byte range within the highlighted source.
    pub range: Range<usize>,
    /// The highlight group, e.g. `keyword.function`. `None` is unhighlighted.
    pub group: Option<&'a str>,
}

/// The text of a highlight group, `None` for no highlight.
pub open spec fn group_text(group: Option<&str>) -> Option<Seq<char>> {
    match group {
        Some(name) => Some(name@),
        None => None,
    }
}

/// Whether two groups name the same highlight.
pub fn same_group(a: Option<&str>, b: Option<&str>) -> (r: bool)
    ensures
        r == (group_text(a) == group_text(b)),
{
    match (a, b) {
        (Some(x), Some(y)) => str_eq(x, y),
        (None, None) => true,
        _ => false,
    }
}

/// `spans` lie end to end, each non-empty, from byte 0 to byte `n`.
pub open spec fn tiles(spans: Seq<Span>, n: int) -> bool {
    &&& (n == 0 <==> spans.len() == 0)
    &&& spans.len() > 0 ==> spans[0].range.start == 0 && spans.last().range.end == n
    &&& forall|i: int| 0 <= i < spans.len() ==> #[trigger] spans[i].range.start < spans[i].range.end
    &&& forall|i: int|
        0 <= i < spans.len() - 1 ==> #[trigger] spans[i].range.end == spans[i + 1].range.start
}

/// `spans` are the maximal runs of one group in `groups`, cut only where a
/// character of `text` starts: each span carries the group of its first byte,
/// every character inside it has that group, and the character right after it
/// has another.
pub open spec fn runs_of(groups: Seq<Option<&str>>, text: Seq<u8>, spans: Seq<Span>) -> bool {
    &&& forall|i: int|
        0 <= i < spans.len() ==> #[trigger] spans[i].group == groups[spans[i].range.start as int]
    &&& forall|i: int, k: int|
        0 <= i < spans.len() && spans[i].range.start < k < spans[i].range.end && is_char_boundary(
            text,
            k,
        ) ==> #[trigger] group_text(groups[k]) == group_text(
            #[trigger] groups[spans[i].range.start as int],
        )
    &&& forall|i: int|
        0 <= i < spans.len() && spans[i].range.end < groups.len() ==> is_char_boundary(
            text,
            spans[i].range.end as int,
        ) && group_text(groups[#[trigger] spans[i].range.end as int]) != group_text(
            groups[spans[i].range.start as int],
        )
}

/// A per-byte buffer of the winning highlight.
pub struct Canvas<'a> {
    groups: Vec<Option<&'a str>>,
    priorities: Vec<u32>,
}

/// Whether a paint of `range` at `priority` takes byte `i`, which holds
/// `held` so far.
pub open spec fn takes(range: Range<usize>, priority: u32, held: u32, i: int) -> bool {
    range.start <= i < range.end && priority >= held
}

impl<'a> Canvas<'a> {
    /// The group painted on each byte.
    pub closed spec fn groups(&self) -> Seq<Option<&'a str>> {
        self.groups@
    }

    /// The priority of what is painted on each byte.
    pub closed spec fn priorities(&self) -> Seq<u32> {
        self.priorities@
    }

    /// Every byte has both a group and a priority.
    pub open spec fn wf(&self) -> bool {
        self.groups().len() == self.priorities().len()
    }

    /// A blank canvas covering `length` bytes.
    pub fn new(length: usize) -> (canvas: Self)
        ensures
            canvas.wf(),
            canvas.groups().len() == length,
            forall|i: int| 0 <= i < length ==> #[trigger] canvas.groups()[i] == None::<&'a str>,
            forall|i: int| 0 <= i < length ==> #[trigger] canvas.priorities()[i] == 0,
    {
        let mut groups: Vec<Option<&'a str>> = Vec::new();
        let mut priorities: Vec<u32> = Vec::new();
        let mut i: usize = 0;
        while i < length
            invariant
                i <= length,
                groups@.len() == i,
                priorities@.len() == i,
                forall|k: int| 0 <= k < i ==> #[trigger] groups@[k] == None::<&'a str>,
                forall|k: int| 0 <= k < i ==> #[trigger] priorities@[k] == 0,
            decreases length - i,
        {
            groups.push(None);
            priorities.push(0);
            i += 1;
        }
        Canvas { groups, priorities }
    }

    /// Paint `range` with `group`, if nothing stronger is already there.
    ///
    /// Equal priority wins, so a later capture overrides an earlier one --
    /// which is what makes a specific pattern beat the general one above it.
    /// Bytes past the end of the canvas are ignored.
    pub fn paint(&mut self, range: Range<usize>, group: Option<&'a str>, priority: u32)
        requires
            old(self).wf(),
        ensures
            final(self).wf(),
            final(self).groups().len() == old(self).groups().len(),
            forall|i: int|
                0 <= i < old(self).groups().len() ==> if takes(
                    range,
                    priority,
                    #[trigger] old(self).priorities()[i],
                    i,
                ) {
                    final(self).groups()[i] == group && final(self).priorities()[i] == priority
                } else {
                    final(self).groups()[i] == old(self).groups()[i] && final(self).priorities()[i]
                        == old(self).priorities()[i]
                },
    {
        let ghost g0 = self.groups@;
        let ghost p0 = self.priorities@;
        let n = self.groups.len();
        let end = if range.end < n {
            range.end
        } else {
            n
        };
        let mut index = if range.start < end {
            range.start
        } else {
            end
        };
        while index < end
            invariant
                end <= n,
                end <= range.end,
                n == g0.len(),
                g0.len() == p0.len(),
                range.start <= index || index == end,
                index <= end,
                self.groups@.len() == n,
                self.priorities@.len() == n,
                forall|i: int|
                    #![trigger self.groups@[i]]
                    #![trigger self.priorities@[i]]
                    0 <= i < n && i < index && takes(range, priority, p0[i], i) ==> self.groups@[i]
                        == group && self.priorities@[i] == priority,
                forall|i: int|
                    #![trigger self.groups@[i]]
                    #![trigger self.priorities@[i]]
                    0 <= i < n && !(i < index && takes(range, priority, p0[i], i))
                        ==> self.groups@[i] == g0[i] && self.priorities@[i] == p0[i],
            decreases end - index,
        {
            let ghost i0 = index as int;
            assert(self.priorities@[i0] == p0[i0]);
            if priority >= self.priorities[index] {
                self.groups.set(index, group);
                self.priorities.set(index, priority);
            }
            index += 1;
            assert(takes(range, priority, p0[i0], i0) <==> priority >= p0[i0]);
        }
        proof {
            assert forall|i: int| 0 <= i < n && takes(range, priority, p0[i], i) implies i
                < index by {}
        }
    }

    /// Collapse the canvas into spans covering all of `source`.
    ///
    /// Spans only ever start and end on character boundaries, so a directive
    /// that shifted a range into the middle of a multi-byte character cannot
    /// produce an unsliceable span.
    pub fn into_spans(self, source: &str) -> (spans: Vec<Span<'a>>)
        requires
            self.wf(),
            self.groups().len() == source.spec_bytes().len(),
        ensures
            tiles(spans@, source.spec_bytes().len() as int),
            runs_of(self.groups(), source.spec_bytes(), spans@),
    {
        let ghost g = self.groups@;
        let ghost text = source.spec_bytes();
        let n = self.groups.len();
        if n == 0 {
            return Vec::new();
        }
        let mut spans: Vec<Span<'a>> = Vec::new();
        let mut start: usize = 0;
        let mut current = self.groups[0];
        let mut index: usize = 1;
        while index < n
            invariant
                g == self.groups@,
                n == g.len(),
                n == text.len(),
                text == source.spec_bytes(),
                start < index <= n,
                current == g[start as int],
                spans@.len() == 0 <==> start == 0,
                spans@.len() > 0 ==> spans@[0].range.start == 0 && spans@.last().range.end
                    == start,
                forall|i: int|
                    0 <= i < spans@.len() ==> #[trigger] spans@[i].range.start
                        < spans@[i].range.end,
                forall|i: int|
                    0 <= i < spans@.len() - 1 ==> #[trigger] spans@[i].range.end == spans@[i
                        + 1].range.start,
                forall|i: int| 0 <= i < spans@.len() ==> spans@[i].range.end <= start,
                runs_of(g, text, spans@),
                forall|k: int|
                    start < k < index && is_char_boundary(text, k) ==> #[trigger] group_text(g[k])
                        == group_text(current),
            decreases n - index,
        {
            if source.is_char_boundary(index) && !same_group(self.groups[index], current) {
                let ghost before = spans@;
                spans.push(Span { range: start..index, group: current });
                proof {
                    assert(spans@.len() == before.len() + 1);
                    assert forall|i: int| 0 <= i < spans@.len() - 1 implies #[trigger] spans@[i].range.end
                        == spans@[i + 1].range.start by {
                        if i < before.len() - 1 {
                            assert(spans@[i] == before[i] && spans@[i + 1] == before[i + 1]);
                        }
                    }
                }
                start = index;
                current = self.groups[index];
            }
            index += 1;
        }
        let ghost before = spans@;
        spans.push(Span { range: start..n, group: current });
        proof {
            assert forall|i: int| 0 <= i < spans@.len() - 1 implies #[trigger] spans@[i].range.end
                == spans@[i + 1].range.start by {
                if i < before.len() - 1 {
                    assert(spans@[i] == before[i] && spans@[i + 1] == before[i + 1]);
                }
            }
        }
        spans
    }
}

} // verus!

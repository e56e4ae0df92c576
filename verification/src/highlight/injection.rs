//! Working out which parts of a document belong to an embedded language.
//!
//! An injections query marks a node as `@injection.content`. By default the
//! injected region is that node *minus its named children*, which is how a
//! template language keeps its own interpolations out of the embedded text:
//! the `${...}` holes are cut away and the surrounding literal text is parsed
//! as, say, SQL. A pattern can ask for the node whole instead.
use vstd::prelude::*;

use crate::highlight::lines::{LineIndex, Point};
use crate::query::metadata::Offset;

verus! {

broadcast use vstd::seq_lib::group_seq_properties;

/// A stretch of a document, by bytes and by points, as tree-sitter reports
/// a node's extent.
#[derive(Debug, Clone, Copy, PartialEq, Eq)]
pub struct Range {
    pub start_byte: usize,
    pub end_byte: usize,
    pub start_point: Point,
    pub end_point: Point,
}

/// Whether point `a` comes before point `b`: by row, then by column.
pub open spec fn point_before(a: Point, b: Point) -> bool {
    a.row < b.row || (a.row == b.row && a.column < b.column)
}

/// `value + delta`, held within the range of `usize`.
pub open spec fn saturating(value: usize, delta: i32) -> usize {
    if value + delta < 0 {
        0
    } else if value + delta > usize::MAX {
        usize::MAX
    } else {
        (value + delta) as usize
    }
}

/// A point moved by row and column deltas.
pub open spec fn shifted(point: Point, rows: i32, columns: i32) -> Point {
    Point { row: saturating(point.row, rows), column: saturating(point.column, columns) }
}

/// `value + delta`, held within the range of `usize`.
fn add_saturating(value: usize, delta: i32) -> (r: usize)
    ensures
        r == saturating(value, delta),
{
    if delta >= 0 {
        let d = delta as usize;
        if value > usize::MAX - d {
            usize::MAX
        } else {
            value + d
        }
    } else {
        let d = (0 - (delta as i64)) as usize;
        if value < d {
            0
        } else {
            value - d
        }
    }
}

/// Move a point by row and column deltas.
pub fn shift(point: Point, rows: i32, columns: i32) -> (r: Point)
    ensures
        r == shifted(point, rows, columns),
{
    Point { row: add_saturating(point.row, rows), column: add_saturating(point.column, columns) }
}

/// A range moved by an `#offset!` directive; an offset that would invert
/// the range leaves it alone.
pub open spec fn offset_spec(range: Range, offset: Option<Offset>, lines: LineIndex) -> Range {
    match offset {
        None => range,
        Some(o) => {
            let start = shifted(range.start_point, o.start_row, o.start_column);
            let end = shifted(range.end_point, o.end_row, o.end_column);
            if point_before(end, start) {
                range
            } else {
                Range {
                    start_point: start,
                    end_point: end,
                    start_byte: lines.offset_spec(start) as usize,
                    end_byte: lines.offset_spec(end) as usize,
                }
            }
        },
    }
}

/// Adjust a node's range by an `#offset!` directive.
///
/// Offsets are row/column deltas, so the byte bounds are recomputed from the
/// shifted points. An offset that would invert the range is ignored, matching
/// Neovim.
pub fn offset_range(range: Range, offset: Option<Offset>, lines: &LineIndex) -> (r: Range)
    requires
        lines.wf(),
    ensures
        r == offset_spec(range, offset, *lines),
{
    let offset = match offset {
        Some(offset) => offset,
        None => {
            return range;
        },
    };
    let start_point = shift(range.start_point, offset.start_row, offset.start_column);
    let end_point = shift(range.end_point, offset.end_row, offset.end_column);
    if end_point.row < start_point.row || (end_point.row == start_point.row && end_point.column
        < start_point.column) {
        return range;
    }
    Range {
        start_point,
        end_point,
        start_byte: lines.offset(start_point),
        end_byte: lines.offset(end_point),
    }
}

/// `range` alone, when it is not empty.
pub open spec fn if_nonempty(range: Range) -> Seq<Range> {
    if range.start_byte < range.end_byte {
        seq![range]
    } else {
        seq![]
    }
}

/// The stretches of `range` between the named children from the `i`-th on,
/// the text since the last child starting at `start_point`, `start_byte`.
pub open spec fn between_children(
    children: Seq<Range>,
    range: Range,
    i: int,
    start_point: Point,
    start_byte: usize,
) -> Seq<Range>
    decreases children.len() - i,
{
    if i < 0 || i >= children.len() {
        if start_byte < range.end_byte {
            seq![
                Range {
                    start_point,
                    start_byte,
                    end_point: range.end_point,
                    end_byte: range.end_byte,
                },
            ]
        } else {
            seq![]
        }
    } else {
        let child = children[i];
        let gap = if point_before(start_point, child.start_point) {
            if_nonempty(
                Range {
                    start_point,
                    start_byte,
                    end_point: child.start_point,
                    end_byte: child.start_byte,
                },
            )
        } else {
            seq![]
        };
        gap + between_children(children, range, i + 1, child.end_point, child.end_byte)
    }
}

/// The ranges of a node that make up an injected region: the whole range
/// when asked for or when the node has no named children, else the text
/// between the named children.
pub open spec fn content_spec(children: Seq<Range>, range: Range, whole: bool) -> Seq<Range> {
    if whole || children.len() == 0 {
        if_nonempty(range)
    } else {
        between_children(children, range, 0, range.start_point, range.start_byte)
    }
}

/// Append `range` to `out` when it is not empty.
fn push_nonempty(out: &mut Vec<Range>, range: Range)
    ensures
        final(out)@ == old(out)@ + if_nonempty(range),
{
    if range.start_byte < range.end_byte {
        out.push(range);
    }
}

/// The ranges of a node that make up an injected region, appended to `out`:
/// `children` are the ranges of the node's named children, in order.
///
/// With `whole`, that is the node's whole (offset-adjusted) range.
/// Otherwise the named children are cut out, leaving the text between them.
pub fn content_ranges(children: &[Range], range: Range, whole: bool, out: &mut Vec<Range>)
    ensures
        final(out)@ == old(out)@ + content_spec(children@, range, whole),
{
    if whole || children.len() == 0 {
        push_nonempty(out, range);
        return;
    }
    let ghost start = old(out)@;
    let mut start_point = range.start_point;
    let mut start_byte = range.start_byte;
    let mut i: usize = 0;
    while i < children.len()
        invariant
            i <= children@.len(),
            children@.len() > 0,
            !whole,
            start + content_spec(children@, range, whole) == out@ + between_children(
                children@,
                range,
                i as int,
                start_point,
                start_byte,
            ),
        decreases children@.len() - i,
    {
        let child = children[i];
        let ghost before = out@;
        let ghost gap = if point_before(start_point, child.start_point) {
            if_nonempty(
                Range {
                    start_point,
                    start_byte,
                    end_point: child.start_point,
                    end_byte: child.start_byte,
                },
            )
        } else {
            seq![]
        };
        if child.start_point.row > start_point.row || (child.start_point.row == start_point.row
            && child.start_point.column > start_point.column) {
            push_nonempty(
                out,
                Range {
                    start_point,
                    start_byte,
                    end_point: child.start_point,
                    end_byte: child.start_byte,
                },
            );
        }
        assert(out@ == before + gap);
        start_point = child.end_point;
        start_byte = child.end_byte;
        i += 1;
        assert(before + (gap + between_children(children@, range, i as int, start_point, start_byte))
            =~= out@ + between_children(children@, range, i as int, start_point, start_byte));
    }
    if start_byte < range.end_byte {
        push_nonempty(
            out,
            Range { start_point, start_byte, end_point: range.end_point, end_byte: range.end_byte },
        );
    }
    assert(out@ =~= start + content_spec(children@, range, whole));
}

/// Whether range `a` sorts after range `b`: by start byte, then end byte.
pub open spec fn sorts_after(a: Range, b: Range) -> bool {
    a.start_byte > b.start_byte || (a.start_byte == b.start_byte && a.end_byte > b.end_byte)
}

/// Where a range goes in `sorted`: before the first range, from `i` on, that
/// sorts after it.
pub open spec fn insert_position(sorted: Seq<Range>, range: Range, i: int) -> int
    decreases sorted.len() - i,
{
    if i < 0 || i >= sorted.len() {
        sorted.len() as int
    } else if sorts_after(sorted[i], range) {
        i
    } else {
        insert_position(sorted, range, i + 1)
    }
}

/// The non-empty ranges, sorted by start and end byte, ranges with equal
/// bounds kept in their original order.
pub open spec fn sorted_nonempty(ranges: Seq<Range>) -> Seq<Range>
    decreases ranges.len(),
{
    if ranges.len() == 0 {
        seq![]
    } else {
        let sorted = sorted_nonempty(ranges.drop_last());
        let last = ranges.last();
        if last.start_byte < last.end_byte {
            sorted.insert(insert_position(sorted, last, 0), last)
        } else {
            sorted
        }
    }
}

proof fn lemma_sorted_nonempty(ranges: Seq<Range>)
    ensures
        forall|m: int|
            0 <= m < sorted_nonempty(ranges).len() ==> #[trigger] sorted_nonempty(ranges)[m].start_byte
                < sorted_nonempty(ranges)[m].end_byte,
    decreases ranges.len(),
{
    if ranges.len() > 0 {
        lemma_sorted_nonempty(ranges.drop_last());
        let sorted = sorted_nonempty(ranges.drop_last());
        let last = ranges.last();
        if last.start_byte < last.end_byte {
            lemma_insert_position(sorted, last, 0);
            let p = insert_position(sorted, last, 0);
            let out = sorted.insert(p, last);
            assert forall|m: int| 0 <= m < out.len() implies #[trigger] out[m].start_byte
                < out[m].end_byte by {
                if m < p {
                    assert(out[m] == sorted[m]);
                } else if m > p {
                    assert(out[m] == sorted[m - 1]);
                }
            }
        }
    }
}

proof fn lemma_insert_position(sorted: Seq<Range>, range: Range, i: int)
    requires
        0 <= i,
    ensures
        i <= insert_position(sorted, range, i) <= sorted.len() || (i > sorted.len()
            && insert_position(sorted, range, i) == sorted.len()),
        0 <= insert_position(sorted, range, i) <= sorted.len(),
    decreases sorted.len() - i,
{
    if i < sorted.len() && !sorts_after(sorted[i], range) {
        lemma_insert_position(sorted, range, i + 1);
    }
}

/// `merged` with `range` added: folded into the last range when it starts
/// before that one ends, extending it if it reaches further.
pub open spec fn merge_step(merged: Seq<Range>, range: Range) -> Seq<Range> {
    if merged.len() > 0 && range.start_byte <= merged.last().end_byte {
        if range.end_byte > merged.last().end_byte {
            merged.update(
                merged.len() - 1,
                Range { end_byte: range.end_byte, end_point: range.end_point, ..merged.last() },
            )
        } else {
            merged
        }
    } else {
        merged.push(range)
    }
}

/// Sorted ranges merged where they touch or overlap.
pub open spec fn merged(sorted: Seq<Range>) -> Seq<Range>
    decreases sorted.len(),
{
    if sorted.len() == 0 {
        seq![]
    } else {
        merge_step(merged(sorted.drop_last()), sorted.last())
    }
}

/// Ranges in the shape tree-sitter demands of included ranges: each
/// non-empty, and each ending before the next starts.
pub open spec fn separated(ranges: Seq<Range>) -> bool {
    &&& forall|i: int| 0 <= i < ranges.len() ==> #[trigger] ranges[i].start_byte < ranges[i].end_byte
    &&& forall|i: int|
        0 <= i < ranges.len() - 1 ==> #[trigger] ranges[i].end_byte < ranges[i + 1].start_byte
}

/// Put `ranges` into the shape tree-sitter demands of included ranges: sorted,
/// non-empty and non-overlapping.
pub fn normalize(ranges: Vec<Range>) -> (r: Vec<Range>)
    ensures
        r@ == merged(sorted_nonempty(ranges@)),
        separated(r@),
{
    let mut sorted: Vec<Range> = Vec::new();
    let mut i: usize = 0;
    while i < ranges.len()
        invariant
            i <= ranges@.len(),
            sorted@ == sorted_nonempty(ranges@.take(i as int)),
        decreases ranges@.len() - i,
    {
        let range = ranges[i];
        assert(ranges@.take(i + 1).drop_last() =~= ranges@.take(i as int));
        if range.start_byte < range.end_byte {
            let ghost before = sorted@;
            let mut j: usize = 0;
            while j < sorted.len() && !(sorted[j].start_byte > range.start_byte || (sorted[j].start_byte
                == range.start_byte && sorted[j].end_byte > range.end_byte))
                invariant
                    j <= sorted@.len(),
                    sorted@ == before,
                    insert_position(before, range, 0) == insert_position(before, range, j as int),
                decreases sorted@.len() - j,
            {
                j += 1;
            }
            sorted.insert(j, range);
        }
        i += 1;
    }
    assert(ranges@.take(ranges@.len() as int) =~= ranges@);
    proof {
        lemma_sorted_nonempty(ranges@);
    }
    let ghost all = sorted@;
    let mut out: Vec<Range> = Vec::new();
    let mut k: usize = 0;
    while k < sorted.len()
        invariant
            k <= sorted@.len(),
            all == sorted@,
            out@ == merged(all.take(k as int)),
            forall|m: int| 0 <= m < all.len() ==> #[trigger] all[m].start_byte < all[m].end_byte,
            separated(out@),
        decreases sorted@.len() - k,
    {
        let range = sorted[k];
        assert(all.take(k + 1).drop_last() =~= all.take(k as int));
        let ghost before = out@;
        let n = out.len();
        if n > 0 && range.start_byte <= out[n - 1].end_byte {
            if range.end_byte > out[n - 1].end_byte {
                let last = out[n - 1];
                out.set(
                    n - 1,
                    Range {
                        start_byte: last.start_byte,
                        end_byte: range.end_byte,
                        start_point: last.start_point,
                        end_point: range.end_point,
                    },
                );
                assert(out@ =~= merge_step(before, range));
            }
        } else {
            out.push(range);
        }
        assert(forall|i: int|
            0 <= i < out@.len() - 1 ==> #[trigger] out@[i].end_byte < out@[i + 1].start_byte) by {
            assert forall|i: int| 0 <= i < out@.len() - 1 implies #[trigger] out@[i].end_byte
                < out@[i + 1].start_byte by {
                if i < before.len() - 1 {
                    assert(out@[i] == before[i]);
                }
            }
        }
        k += 1;
    }
    assert(all.take(all.len() as int) =~= all);
    out
}

} // verus!

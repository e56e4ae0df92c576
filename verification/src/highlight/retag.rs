//! What applying overrides keeps of the spans it is given: they still tile
//! the code, every start survives, and groups change only from a marked byte.
use vstd::prelude::*;

use crate::highlight::overrides::{containing, first_code, retag, retag_all};

verus! {

/// Spans as plain values cover `0..n` exactly: in order, each non-empty,
/// each starting where the one before ends.
pub open spec fn view_tiles(v: Seq<(int, int, Option<Seq<char>>)>, n: int) -> bool {
    &&& (n == 0 <==> v.len() == 0)
    &&& v.len() > 0 ==> v[0].0 == 0 && v.last().1 == n
    &&& forall|i: int| 0 <= i < v.len() ==> #[trigger] v[i].0 < v[i].1
    &&& forall|i: int| 0 <= i < v.len() - 1 ==> #[trigger] v[i].1 == v[i + 1].0
}

/// Whether some span of `v` starts at `x`.
#[verifier::opaque]
pub open spec fn starts_at(v: Seq<(int, int, Option<Seq<char>>)>, x: int) -> bool {
    exists|j: int| 0 <= j < v.len() && #[trigger] v[j].0 == x
}

/// Whether the first code after one of `marks` starts at byte `x`.
#[verifier::opaque]
pub open spec fn marked_at(text: Seq<u8>, marks: Seq<(int, Seq<char>)>, x: int) -> bool {
    exists|k: int| 0 <= k < marks.len() && #[trigger] first_code(text, marks[k].0) == Some(x)
}

/// Whether span `s` lies inside one span of `v` and either starts where that
/// span starts with that span's group, or starts at the first code after one
/// of `marks`.
#[verifier::opaque]
pub open spec fn inside_retagged(
    v: Seq<(int, int, Option<Seq<char>>)>,
    s: (int, int, Option<Seq<char>>),
    text: Seq<u8>,
    marks: Seq<(int, Seq<char>)>,
) -> bool {
    exists|i: int|
        0 <= i < v.len() && #[trigger] v[i].0 <= s.0 && s.1 <= v[i].1 && ((s.0 == v[i].0 && s.2 == v[i].2)
            || marked_at(text, marks, s.0))
}

/// The span `containing` finds holds the byte.
proof fn lemma_containing_holds(spans: Seq<(int, int, Option<Seq<char>>)>, t: int, i: int)
    requires
        0 <= i,
    ensures
        containing(spans, t, i) matches Some(c) ==> i <= c < spans.len() && spans[c].0 <= t < spans[c].1,
    decreases spans.len() - i,
{
    if i < spans.len() && !(spans[i].0 <= t < spans[i].1) {
        lemma_containing_holds(spans, t, i + 1);
    }
}

/// A span left as it was lies inside itself.
proof fn lemma_inside_same(
    v: Seq<(int, int, Option<Seq<char>>)>,
    i: int,
    s: (int, int, Option<Seq<char>>),
    text: Seq<u8>,
    marks: Seq<(int, Seq<char>)>,
)
    requires
        0 <= i < v.len(),
        v[i].0 <= s.0,
        s.1 <= v[i].1,
        (s.0 == v[i].0 && s.2 == v[i].2) || marked_at(text, marks, s.0),
    ensures
        inside_retagged(v, s, text, marks),
{
    reveal(inside_retagged);
}

/// A span of `r` starts where it starts.
proof fn lemma_starts(r: Seq<(int, int, Option<Seq<char>>)>, j: int)
    requires
        0 <= j < r.len(),
    ensures
        starts_at(r, r[j].0),
{
    reveal(starts_at);
}

/// The first code after the one mark starts at `y`.
proof fn lemma_marked_one(text: Seq<u8>, at: int, group: Seq<char>, y: int)
    requires
        first_code(text, at) == Some(y),
    ensures
        marked_at(text, seq![(at, group)], y),
{
    reveal(marked_at);
    let one = seq![(at, group)];
    assert(first_code(text, one[0].0) == Some(y));
}

/// `r` tiles `0..n` as `v` does, keeps every start of `v`, and each of its
/// spans lies inside a span of `v` as [`inside_retagged`] says.
#[verifier::opaque]
pub open spec fn refines(
    v: Seq<(int, int, Option<Seq<char>>)>,
    r: Seq<(int, int, Option<Seq<char>>)>,
    n: int,
    text: Seq<u8>,
    marks: Seq<(int, Seq<char>)>,
) -> bool {
    &&& view_tiles(r, n)
    &&& forall|i: int| 0 <= i < v.len() ==> starts_at(r, #[trigger] v[i].0)
    &&& forall|j: int| 0 <= j < r.len() ==> inside_retagged(v, #[trigger] r[j], text, marks)
}

/// Spans left as they were refine themselves.
proof fn lemma_refines_same(
    v: Seq<(int, int, Option<Seq<char>>)>,
    n: int,
    text: Seq<u8>,
    marks: Seq<(int, Seq<char>)>,
)
    requires
        view_tiles(v, n),
    ensures
        refines(v, v, n, text, marks),
{
    reveal(refines);
    assert forall|i: int| 0 <= i < v.len() implies starts_at(v, #[trigger] v[i].0) by {
        lemma_starts(v, i);
    }
    assert forall|j: int| 0 <= j < v.len() implies inside_retagged(v, #[trigger] v[j], text, marks) by {
        lemma_inside_same(v, j, v[j], text, marks);
    }
}

/// Retagging a span that starts at the marked byte.
proof fn lemma_retag_whole(
    v: Seq<(int, int, Option<Seq<char>>)>,
    c: int,
    text: Seq<u8>,
    at: int,
    group: Seq<char>,
)
    requires
        view_tiles(v, text.len() as int),
        0 <= c < v.len(),
        first_code(text, at) == Some(v[c].0),
    ensures
        refines(v, v.update(c, (v[c].0, v[c].1, Some(group))), text.len() as int, text, seq![(at, group)]),
{
    reveal(refines);
    let r = v.update(c, (v[c].0, v[c].1, Some(group)));
    let one = seq![(at, group)];
    lemma_marked_one(text, at, group, v[c].0);
    assert forall|i: int| 0 <= i < v.len() implies starts_at(r, #[trigger] v[i].0) by {
        lemma_starts(r, i);
    }
    assert forall|j: int| 0 <= j < r.len() implies inside_retagged(v, #[trigger] r[j], text, one) by {
        lemma_inside_same(v, j, r[j], text, one);
    }
}

/// Splitting the span that holds the marked byte and retagging its tail.
#[verifier::rlimit(40)]
proof fn lemma_retag_split(
    v: Seq<(int, int, Option<Seq<char>>)>,
    c: int,
    t: int,
    text: Seq<u8>,
    at: int,
    group: Seq<char>,
)
    requires
        view_tiles(v, text.len() as int),
        0 <= c < v.len(),
        v[c].0 < t < v[c].1,
        first_code(text, at) == Some(t),
    ensures
        refines(
            v,
            v.update(c, (v[c].0, t, v[c].2)).insert(c + 1, (t, v[c].1, Some(group))),
            text.len() as int,
            text,
            seq![(at, group)],
        ),
{
    reveal(refines);
    let one = seq![(at, group)];
    let u = v.update(c, (v[c].0, t, v[c].2));
    let r = u.insert(c + 1, (t, v[c].1, Some(group)));
    assert(r.len() == v.len() + 1);
    assert(forall|j: int| 0 <= j < c ==> #[trigger] r[j] == v[j]);
    assert(r[c] == (v[c].0, t, v[c].2));
    assert(r[c + 1] == (t, v[c].1, Some(group)));
    assert(forall|j: int| c + 1 < j < r.len() ==> #[trigger] r[j] == v[j - 1]);
    lemma_marked_one(text, at, group, t);
    assert forall|i: int| 0 <= i < v.len() implies starts_at(r, #[trigger] v[i].0) by {
        if i <= c {
            lemma_starts(r, i);
        } else {
            lemma_starts(r, i + 1);
        }
    }
    assert forall|j: int| 0 <= j < r.len() implies inside_retagged(v, #[trigger] r[j], text, one) by {
        if j <= c {
            lemma_inside_same(v, j, r[j], text, one);
        } else if j == c + 1 {
            lemma_inside_same(v, c, r[j], text, one);
        } else {
            lemma_inside_same(v, j - 1, r[j], text, one);
        }
    }
    assert forall|j: int| 0 <= j < r.len() - 1 implies #[trigger] r[j].1 == r[j + 1].0 by {
        if j == c + 1 {
            assert(r[j + 1] == v[c + 1]);
        } else if j > c + 1 {
            assert(r[j + 1] == v[j]);
        } else if j < c {
            assert(r[j + 1].0 == v[j + 1].0);
        }
    }
    assert forall|j: int| 0 <= j < r.len() implies #[trigger] r[j].0 < r[j].1 by {
        if j > c + 1 {
            assert(r[j] == v[j - 1]);
        }
    }
    if c + 1 == v.len() {
        assert(r.last() == r[c + 1]);
    } else {
        assert(r.last() == v.last());
    }
}

/// One mark keeps the spans tiling the text and adds at most one span.
proof fn lemma_retag_tiles(v: Seq<(int, int, Option<Seq<char>>)>, text: Seq<u8>, at: int, group: Seq<char>)
    requires
        view_tiles(v, text.len() as int),
    ensures
        refines(v, retag(v, text, at, group), text.len() as int, text, seq![(at, group)]),
        retag(v, text, at, group).len() <= v.len() + 1,
{
    match first_code(text, at) {
        None => {
            lemma_refines_same(v, text.len() as int, text, seq![(at, group)]);
        },
        Some(t) => {
            lemma_containing_holds(v, t, 0);
            match containing(v, t, 0) {
                None => {
                    lemma_refines_same(v, text.len() as int, text, seq![(at, group)]);
                },
                Some(c) => {
                    if v[c].0 == t {
                        lemma_retag_whole(v, c, text, at, group);
                    } else {
                        lemma_retag_split(v, c, t, text, at, group);
                    }
                },
            }
        },
    }
}

/// Refinement by a mark after refinement by earlier marks.
proof fn lemma_refines_chain(
    spans: Seq<(int, int, Option<Seq<char>>)>,
    mid: Seq<(int, int, Option<Seq<char>>)>,
    r: Seq<(int, int, Option<Seq<char>>)>,
    n: int,
    text: Seq<u8>,
    marks: Seq<(int, Seq<char>)>,
)
    requires
        marks.len() > 0,
        refines(spans, mid, n, text, marks.drop_last()),
        refines(mid, r, n, text, seq![marks.last()]),
    ensures
        refines(spans, r, n, text, marks),
{
    reveal(refines);
    reveal(starts_at);
    assert forall|i: int| 0 <= i < spans.len() implies starts_at(r, #[trigger] spans[i].0) by {
        let j = choose|j: int| 0 <= j < mid.len() && #[trigger] mid[j].0 == spans[i].0;
        assert(starts_at(r, mid[j].0));
    }
    assert forall|j: int| 0 <= j < r.len() implies inside_retagged(spans, #[trigger] r[j], text, marks) by {
        lemma_chain_one(spans, mid, r[j], text, marks);
    }
}

/// One span through two refinements.
proof fn lemma_chain_one(
    spans: Seq<(int, int, Option<Seq<char>>)>,
    mid: Seq<(int, int, Option<Seq<char>>)>,
    s: (int, int, Option<Seq<char>>),
    text: Seq<u8>,
    marks: Seq<(int, Seq<char>)>,
)
    requires
        marks.len() > 0,
        inside_retagged(mid, s, text, seq![marks.last()]),
        forall|j: int| 0 <= j < mid.len() ==> inside_retagged(spans, #[trigger] mid[j], text, marks.drop_last()),
    ensures
        inside_retagged(spans, s, text, marks),
{
    reveal(inside_retagged);
    reveal(marked_at);
    let prev = marks.drop_last();
    let one = seq![marks.last()];
    let i1 = choose|i1: int|
        0 <= i1 < mid.len() && #[trigger] mid[i1].0 <= s.0 && s.1 <= mid[i1].1 && ((s.0 == mid[i1].0 && s.2
            == mid[i1].2) || marked_at(text, one, s.0));
    assert(inside_retagged(spans, mid[i1], text, prev));
    let i0 = choose|i0: int|
        0 <= i0 < spans.len() && #[trigger] spans[i0].0 <= mid[i1].0 && mid[i1].1 <= spans[i0].1 && ((mid[i1].0
            == spans[i0].0 && mid[i1].2 == spans[i0].2) || marked_at(text, prev, mid[i1].0));
    if !(s.0 == spans[i0].0 && s.2 == spans[i0].2) {
        if !(s.0 == mid[i1].0 && s.2 == mid[i1].2) {
            let k = choose|k: int| 0 <= k < one.len() && #[trigger] first_code(text, one[k].0) == Some(s.0);
            assert(one[k] == marks[marks.len() - 1]);
            assert(first_code(text, marks[marks.len() - 1].0) == Some(s.0));
            assert(marked_at(text, marks, s.0));
        } else {
            let k = choose|k: int| 0 <= k < prev.len() && #[trigger] first_code(text, prev[k].0) == Some(mid[i1].0);
            assert(marks[k] == prev[k]);
            assert(first_code(text, marks[k].0) == Some(s.0));
            assert(marked_at(text, marks, s.0));
        }
    }
    lemma_inside_same(spans, i0, s, text, marks);
}

/// Applying overrides keeps the spans tiling the code: still in order,
/// contiguous and non-empty. With no marks the spans come back as they were.
/// Each mark adds at most one span, every span start survives as a start,
/// and every span lies inside one of the spans it came from and keeps that
/// span's start and group, unless it starts at the first code after a mark:
/// only such spans change group.
pub proof fn lemma_overrides_keep_tiling(
    spans: Seq<(int, int, Option<Seq<char>>)>,
    text: Seq<u8>,
    marks: Seq<(int, Seq<char>)>,
)
    requires
        view_tiles(spans, text.len() as int),
    ensures
        marks.len() == 0 ==> retag_all(spans, text, marks) == spans,
        view_tiles(retag_all(spans, text, marks), text.len() as int),
        retag_all(spans, text, marks).len() <= spans.len() + marks.len(),
        forall|i: int| 0 <= i < spans.len() ==> starts_at(retag_all(spans, text, marks), #[trigger] spans[i].0),
        forall|j: int|
            0 <= j < retag_all(spans, text, marks).len() ==> inside_retagged(
                spans,
                #[trigger] retag_all(spans, text, marks)[j],
                text,
                marks,
            ),
    decreases marks.len(),
{
    reveal(refines);
    let r = retag_all(spans, text, marks);
    if marks.len() == 0 {
        lemma_refines_same(spans, text.len() as int, text, marks);
    } else {
        let prev = marks.drop_last();
        let mid = retag_all(spans, text, prev);
        let m = marks.last();
        lemma_overrides_keep_tiling(spans, text, prev);
        lemma_retag_tiles(mid, text, m.0, m.1);
        assert(seq![(m.0, m.1)] == seq![marks.last()]);
        assert(r == retag(mid, text, m.0, m.1));
        lemma_refines_chain(spans, mid, r, text.len() as int, text, marks);
    }
    assert(refines(spans, r, text.len() as int, text, marks));
}

/// A marker followed only by white space changes nothing: where no mark has
/// code after it, the spans come back as they were.
pub proof fn lemma_blank_marks_change_nothing(
    spans: Seq<(int, int, Option<Seq<char>>)>,
    text: Seq<u8>,
    marks: Seq<(int, Seq<char>)>,
)
    requires
        forall|k: int| 0 <= k < marks.len() ==> (#[trigger] first_code(text, marks[k].0)) is None,
    ensures
        retag_all(spans, text, marks) == spans,
    decreases marks.len(),
{
    if marks.len() > 0 {
        let prev = marks.drop_last();
        assert forall|k: int| 0 <= k < prev.len() implies (#[trigger] first_code(text, prev[k].0)) is None by {
            assert(prev[k] == marks[k]);
        }
        lemma_blank_marks_change_nothing(spans, text, prev);
        assert(first_code(text, marks[marks.len() - 1].0) is None);
    }
}

} // verus!

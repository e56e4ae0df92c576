//! Replacing byte ranges in a document.
use std::ops::Range;
use vstd::prelude::*;
use vstd::string::StringSliceAdditionalSpecFns;
use vstd::utf8::*;

use crate::text::{decimal, decimal_text, str_get};

verus! {

broadcast use vstd::seq_lib::group_seq_properties;

/// Why a set of replacements could not be applied.
#[derive(Debug, Clone, Copy, PartialEq, Eq)]
pub enum ReplaceError {
    /// A replacement starts before the previous one ended.
    Overlapping { start: usize, previous_end: usize },
    /// A replacement's range is inverted or runs past the end.
    OutsideDocument { start: usize, end: usize, length: usize },
    /// The text before a replacement does not start or end on a character
    /// boundary.
    StartSplitsCharacter,
    /// The text after the last replacement does not start on a character
    /// boundary.
    EndSplitsCharacter,
}

/// The text of an error message.
pub open spec fn error_text(e: ReplaceError) -> Seq<char> {
    match e {
        ReplaceError::Overlapping { start, previous_end } => "overlapping replacements at byte "@
            + decimal_text(start as nat) + " (previous ended at "@ + decimal_text(
            previous_end as nat,
        ) + ")"@,
        ReplaceError::OutsideDocument { start, end, length } => "replacement range "@
            + decimal_text(start as nat) + ".."@ + decimal_text(end as nat)
            + " is outside the document ("@ + decimal_text(length as nat) + " bytes)"@,
        ReplaceError::StartSplitsCharacter => "replacement does not start on a character boundary"@,
        ReplaceError::EndSplitsCharacter => "replacement does not end on a character boundary"@,
    }
}

impl ReplaceError {
    /// What went wrong, in words.
    pub fn message(&self) -> (r: String)
        ensures
            r@ == error_text(*self),
    {
        let mut out = String::new();
        match self {
            ReplaceError::Overlapping { start, previous_end } => {
                out.append("overlapping replacements at byte ");
                out.append(decimal(*start).as_str());
                out.append(" (previous ended at ");
                out.append(decimal(*previous_end).as_str());
                out.append(")");
            },
            ReplaceError::OutsideDocument { start, end, length } => {
                out.append("replacement range ");
                out.append(decimal(*start).as_str());
                out.append("..");
                out.append(decimal(*end).as_str());
                out.append(" is outside the document (");
                out.append(decimal(*length).as_str());
                out.append(" bytes)");
            },
            ReplaceError::StartSplitsCharacter => {
                out.append("replacement does not start on a character boundary");
            },
            ReplaceError::EndSplitsCharacter => {
                out.append("replacement does not end on a character boundary");
            },
        }
        out
    }
}

/// A replacement as plain values: its range and its text.
pub type Piece = (int, int, Seq<char>);

/// Whether `(s1, e1)` sorts after `(s2, e2)`: by start, then by end.
pub open spec fn sorts_after(s1: int, e1: int, s2: int, e2: int) -> bool {
    s1 > s2 || (s1 == s2 && e1 > e2)
}

/// Where a piece goes in `sorted`: before the first piece, from `i` on, that
/// sorts after it.
pub open spec fn insert_position(sorted: Seq<Piece>, piece: Piece, i: int) -> int
    decreases sorted.len() - i,
{
    if i < 0 || i >= sorted.len() {
        sorted.len() as int
    } else if sorts_after(sorted[i].0, sorted[i].1, piece.0, piece.1) {
        i
    } else {
        insert_position(sorted, piece, i + 1)
    }
}

/// The pieces sorted by range, pieces with the same range kept in the order
/// they were added.
pub open spec fn in_order(pieces: Seq<Piece>) -> Seq<Piece>
    decreases pieces.len(),
{
    if pieces.len() == 0 {
        seq![]
    } else {
        let sorted = in_order(pieces.drop_last());
        sorted.insert(insert_position(sorted, pieces.last(), 0), pieces.last())
    }
}

/// Applying sorted pieces from the `i`-th on to `b`, the text up to `cursor`
/// already written as `out`.
pub open spec fn replace_from(b: Seq<u8>, pieces: Seq<Piece>, i: int, cursor: int, out: Seq<char>) -> Result<
    Seq<char>,
    ReplaceError,
>
    decreases pieces.len() - i,
{
    if i < 0 || i >= pieces.len() {
        if 0 <= cursor <= b.len() && is_char_boundary(b, cursor) {
            Ok(out + decode_utf8(b.subrange(cursor, b.len() as int)))
        } else {
            Err(ReplaceError::EndSplitsCharacter)
        }
    } else {
        let (start, end, text) = pieces[i];
        if start < cursor {
            Err(ReplaceError::Overlapping { start: start as usize, previous_end: cursor as usize })
        } else if !(end <= b.len() && start <= end) {
            Err(
                ReplaceError::OutsideDocument {
                    start: start as usize,
                    end: end as usize,
                    length: b.len() as usize,
                },
            )
        } else if !(is_char_boundary(b, cursor) && is_char_boundary(b, start)) {
            Err(ReplaceError::StartSplitsCharacter)
        } else {
            replace_from(b, pieces, i + 1, end, out + decode_utf8(b.subrange(cursor, start)) + text)
        }
    }
}

/// Whether pieces come in order of range: by start, then by end.
pub open spec fn ranges_ascend(s: Seq<Piece>) -> bool {
    forall|i: int, j: int|
        0 <= i < j < s.len() ==> !sorts_after(#[trigger] s[i].0, s[i].1, #[trigger] s[j].0, s[j].1)
}

proof fn lemma_insert_position_bound(sorted: Seq<Piece>, x: Piece, i: int)
    requires
        0 <= i <= sorted.len(),
    ensures
        i <= insert_position(sorted, x, i) <= sorted.len(),
    decreases sorted.len() - i,
{
    if i < sorted.len() && !sorts_after(sorted[i].0, sorted[i].1, x.0, x.1) {
        lemma_insert_position_bound(sorted, x, i + 1);
    }
}

proof fn lemma_insert_position(sorted: Seq<Piece>, x: Piece, i: int)
    requires
        0 <= i <= sorted.len(),
        insert_position(sorted, x, 0) == insert_position(sorted, x, i),
        forall|k: int| 0 <= k < i ==> !sorts_after(#[trigger] sorted[k].0, sorted[k].1, x.0, x.1),
    ensures
        ({
            let p = insert_position(sorted, x, 0);
            &&& 0 <= p <= sorted.len()
            &&& forall|k: int| 0 <= k < p ==> !sorts_after(#[trigger] sorted[k].0, sorted[k].1, x.0, x.1)
            &&& p < sorted.len() ==> sorts_after(sorted[p].0, sorted[p].1, x.0, x.1)
        }),
    decreases sorted.len() - i,
{
    lemma_insert_position_bound(sorted, x, i);
    if i < sorted.len() && !sorts_after(sorted[i].0, sorted[i].1, x.0, x.1) {
        lemma_insert_position(sorted, x, i + 1);
    }
}

/// Applying replacements goes through them in order of range, whatever
/// order they were added in: the sorted pieces ascend by start, then by end,
/// and none is lost.
pub proof fn lemma_in_order_ascends(pieces: Seq<Piece>)
    ensures
        ranges_ascend(in_order(pieces)),
        in_order(pieces).len() == pieces.len(),
    decreases pieces.len(),
{
    if pieces.len() > 0 {
        lemma_in_order_ascends(pieces.drop_last());
        let sorted = in_order(pieces.drop_last());
        let x = pieces.last();
        lemma_insert_position(sorted, x, 0);
        let p = insert_position(sorted, x, 0);
        let next = sorted.insert(p, x);
        assert forall|a: int, b: int| 0 <= a < b < next.len() implies !sorts_after(
            #[trigger] next[a].0,
            next[a].1,
            #[trigger] next[b].0,
            next[b].1,
        ) by {
            if b < p {
                assert(next[a] == sorted[a] && next[b] == sorted[b]);
            } else if b == p {
                assert(next[a] == sorted[a] && next[b] == x);
            } else if a < p {
                assert(next[a] == sorted[a] && next[b] == sorted[b - 1]);
            } else if a == p {
                assert(next[b] == sorted[b - 1]);
                if b - 1 > p {
                    assert(!sorts_after(sorted[p].0, sorted[p].1, sorted[b - 1].0, sorted[b - 1].1));
                }
            } else {
                assert(next[a] == sorted[a - 1] && next[b] == sorted[b - 1]);
            }
        }
    }
}

/// Whether no two pieces replace the same range.
pub open spec fn ranges_distinct(s: Seq<Piece>) -> bool {
    forall|i: int, j: int|
        0 <= i < j < s.len() ==> !(#[trigger] s[i].0 == #[trigger] s[j].0 && s[i].1 == s[j].1)
}

/// Sorting keeps exactly the pieces it was given.
proof fn lemma_in_order_multiset(pieces: Seq<Piece>)
    ensures
        in_order(pieces).to_multiset() =~= pieces.to_multiset(),
    decreases pieces.len(),
{
    broadcast use vstd::multiset::group_multiset_axioms;
    broadcast use vstd::seq_lib::group_to_multiset_ensures;

    if pieces.len() > 0 {
        lemma_in_order_multiset(pieces.drop_last());
        let sorted = in_order(pieces.drop_last());
        let x = pieces.last();
        let p = insert_position(sorted, x, 0);
        lemma_insert_position_bound(sorted, x, 0);
        let front = sorted.take(p);
        let back = sorted.skip(p);
        assert(sorted =~= front + back);
        assert(sorted.insert(p, x) =~= front.push(x) + back);
        vstd::seq_lib::lemma_multiset_commutative(front, back);
        vstd::seq_lib::lemma_multiset_commutative(front.push(x), back);
        assert(pieces =~= pieces.drop_last().push(x));
    }
}

/// Sorting pieces that replace different ranges keeps the ranges different.
proof fn lemma_in_order_distinct(pieces: Seq<Piece>)
    requires
        ranges_distinct(pieces),
    ensures
        ranges_distinct(in_order(pieces)),
    decreases pieces.len(),
{
    broadcast use vstd::seq_lib::group_to_multiset_ensures;

    if pieces.len() > 0 {
        let rest = pieces.drop_last();
        assert(ranges_distinct(rest));
        lemma_in_order_distinct(rest);
        lemma_in_order_multiset(rest);
        let sorted = in_order(rest);
        let x = pieces.last();
        let p = insert_position(sorted, x, 0);
        lemma_insert_position_bound(sorted, x, 0);
        let next = sorted.insert(p, x);
        assert forall|k: int| 0 <= k < sorted.len() implies !(sorted[k].0 == x.0 && sorted[k].1 == x.1) by {
            assert(sorted.to_multiset().count(sorted[k]) > 0);
            assert(rest.contains(sorted[k]));
            let i = choose|i: int| 0 <= i < rest.len() && rest[i] == sorted[k];
            assert(pieces[i] == rest[i]);
            assert(pieces[pieces.len() - 1] == x);
        }
        assert forall|a: int, b: int| 0 <= a < b < next.len() implies !(#[trigger] next[a].0
            == #[trigger] next[b].0 && next[a].1 == next[b].1) by {
            if b < p {
                assert(next[a] == sorted[a] && next[b] == sorted[b]);
            } else if b == p {
                assert(next[a] == sorted[a] && next[b] == x);
            } else if a < p {
                assert(next[a] == sorted[a] && next[b] == sorted[b - 1]);
            } else if a == p {
                assert(next[a] == x && next[b] == sorted[b - 1]);
            } else {
                assert(next[a] == sorted[a - 1] && next[b] == sorted[b - 1]);
            }
        }
    }
}

/// Two sequences of pieces in order of range, holding the same pieces, with
/// no range twice, are the same sequence.
proof fn lemma_sorted_pieces_unique(x: Seq<Piece>, y: Seq<Piece>)
    requires
        ranges_ascend(x),
        ranges_ascend(y),
        ranges_distinct(x),
        x.to_multiset() == y.to_multiset(),
    ensures
        x == y,
    decreases x.len(),
{
    broadcast use vstd::multiset::group_multiset_axioms;
    broadcast use vstd::seq_lib::group_to_multiset_ensures;

    if x.len() == 0 || y.len() == 0 {
        assert(x.len() == y.len());
        assert(x =~= y);
    } else {
        assert(x.to_multiset().count(x[0]) > 0);
        assert(y.to_multiset().count(y[0]) > 0);
        assert(x.contains(y[0]));
        assert(y.contains(x[0]));
        let i = choose|i: int| 0 <= i < x.len() && x[i] == y[0];
        let j = choose|j: int| 0 <= j < y.len() && y[j] == x[0];
        if i != 0 {
            assert(!sorts_after(x[0].0, x[0].1, x[i].0, x[i].1));
        }
        if j != 0 {
            assert(!sorts_after(y[0].0, y[0].1, y[j].0, y[j].1));
        }
        assert(i == 0);
        assert(x[0] == y[0]);
        assert(x.drop_first().to_multiset() =~= x.to_multiset().remove(x[0])) by {
            assert(x.remove(0) =~= x.drop_first());
        }
        assert(y.drop_first().to_multiset() =~= y.to_multiset().remove(y[0])) by {
            assert(y.remove(0) =~= y.drop_first());
        }
        assert forall|a: int, b: int| 0 <= a < b < x.drop_first().len() implies !(
            #[trigger] x.drop_first()[a].0 == #[trigger] x.drop_first()[b].0 && x.drop_first()[a].1
                == x.drop_first()[b].1) by {
            assert(x.drop_first()[a] == x[a + 1] && x.drop_first()[b] == x[b + 1]);
        }
        assert forall|a: int, b: int| 0 <= a < b < x.drop_first().len() implies !sorts_after(
            #[trigger] x.drop_first()[a].0,
            x.drop_first()[a].1,
            #[trigger] x.drop_first()[b].0,
            x.drop_first()[b].1,
        ) by {
            assert(x.drop_first()[a] == x[a + 1] && x.drop_first()[b] == x[b + 1]);
        }
        assert forall|a: int, b: int| 0 <= a < b < y.drop_first().len() implies !sorts_after(
            #[trigger] y.drop_first()[a].0,
            y.drop_first()[a].1,
            #[trigger] y.drop_first()[b].0,
            y.drop_first()[b].1,
        ) by {
            assert(y.drop_first()[a] == y[a + 1] && y.drop_first()[b] == y[b + 1]);
        }
        lemma_sorted_pieces_unique(x.drop_first(), y.drop_first());
        assert(x =~= seq![x[0]] + x.drop_first());
        assert(y =~= seq![y[0]] + y.drop_first());
    }
}

/// The order replacements were added in does not matter: two lists holding
/// the same replacements, no range given twice, are applied alike, since
/// both are applied in order of range.
pub proof fn lemma_added_order_irrelevant(first: Seq<Piece>, second: Seq<Piece>, content: Seq<u8>)
    requires
        first.to_multiset() == second.to_multiset(),
        ranges_distinct(first),
    ensures
        in_order(first) == in_order(second),
        replace_from(content, in_order(first), 0, 0, seq![]) == replace_from(
            content,
            in_order(second),
            0,
            0,
            seq![],
        ),
{
    lemma_in_order_ascends(first);
    lemma_in_order_ascends(second);
    lemma_in_order_multiset(first);
    lemma_in_order_multiset(second);
    lemma_in_order_distinct(first);
    lemma_sorted_pieces_unique(in_order(first), in_order(second));
}

/// With nothing to replace, a document comes back as it was.
pub proof fn lemma_nothing_to_replace(content: &str)
    ensures
        replace_from(content.spec_bytes(), in_order(Seq::<Piece>::empty()), 0, 0, seq![]) == Ok::<
            Seq<char>,
            ReplaceError,
        >(content@),
{
    let b = content.spec_bytes();
    encode_utf8_valid_utf8(content@);
    is_char_boundary_start_end_of_seq(b);
    encode_utf8_decode_utf8(content@);
    assert(b.subrange(0, b.len() as int) =~= b);
    assert(seq![] + decode_utf8(b) =~= content@);
}

/// The ranges to replace in a document, and what replaces each.
pub struct Replacer {
    replacements: Vec<(Range<usize>, String)>,
}

impl Replacer {
    /// The replacements added so far, in order.
    pub closed spec fn pieces(&self) -> Seq<Piece> {
        self.replacements@.map_values(
            |r: (Range<usize>, String)| (r.0.start as int, r.0.end as int, r.1@),
        )
    }

    /// Replace `range` with `content` when the replacements are applied.
    pub fn add(&mut self, range: Range<usize>, content: String)
        ensures
            final(self).pieces() == old(self).pieces().push(
                (range.start as int, range.end as int, content@),
            ),
    {
        let ghost before = self.pieces();
        self.replacements.push((range, content));
        assert(self.pieces() =~= before.push((range.start as int, range.end as int, content@)));
    }

    /// Replace each range of `content` with its replacement text.
    ///
    /// Ranges may be given in any order. Overlapping ranges are rejected rather
    /// than resolved: an overlap means two highlight tasks claimed the same code,
    /// which is a bug upstream, and silently picking one would hide it.
    pub fn apply(self, content: &str) -> (r: Result<String, ReplaceError>)
        ensures
            match replace_from(content.spec_bytes(), in_order(self.pieces()), 0, 0, seq![]) {
                Ok(text) => r is Ok && r->Ok_0@ == text,
                Err(e) => r == Err::<String, ReplaceError>(e),
            },
    {
        let ghost b = content.spec_bytes();
        let sorted = self.sorted();
        let ghost pieces = in_order(self.pieces());
        let n = content.as_bytes().len();
        let mut out = String::new();
        let mut cursor: usize = 0;
        let mut i: usize = 0;
        proof {
            crate::text::lemma_str_valid(content);
        }
        while i < sorted.len()
            invariant
                i <= sorted@.len(),
                b == content.spec_bytes(),
                n == b.len(),
                cursor <= n,
                pieces == in_order(self.pieces()),
                pieces == sorted@.map_values(|p: (usize, usize, String)| (p.0 as int, p.1 as int, p.2@)),
                replace_from(b, pieces, 0, 0, seq![]) == replace_from(
                    b,
                    pieces,
                    i as int,
                    cursor as int,
                    out@,
                ),
            decreases sorted@.len() - i,
        {
            let start = sorted[i].0;
            let end = sorted[i].1;
            assert(pieces[i as int] == (start as int, end as int, sorted@[i as int].2@));
            if start < cursor {
                return Err(ReplaceError::Overlapping { start, previous_end: cursor });
            }
            if !(end <= n && start <= end) {
                return Err(ReplaceError::OutsideDocument { start, end, length: n });
            }
            match str_get(content, cursor, start) {
                Some(before) => {
                    out.append(before);
                },
                None => {
                    return Err(ReplaceError::StartSplitsCharacter);
                },
            }
            out.append(sorted[i].2.as_str());
            cursor = end;
            i += 1;
        }
        assert(replace_from(b, pieces, i as int, cursor as int, out@) == if is_char_boundary(b, cursor as int) {
            Ok::<Seq<char>, ReplaceError>(out@ + decode_utf8(b.subrange(cursor as int, b.len() as int)))
        } else {
            Err::<Seq<char>, ReplaceError>(ReplaceError::EndSplitsCharacter)
        });
        proof {
            vstd::utf8::is_char_boundary_start_end_of_seq(b);
        }
        match str_get(content, cursor, n) {
            Some(rest) => {
                out.append(rest);
                Ok(out)
            },
            None => Err(ReplaceError::EndSplitsCharacter),
        }
    }

    /// The replacements sorted by range, those with the same range in the
    /// order they were added.
    fn sorted(&self) -> (r: Vec<(usize, usize, String)>)
        ensures
            r@.map_values(|p: (usize, usize, String)| (p.0 as int, p.1 as int, p.2@)) == in_order(
                self.pieces(),
            ),
    {
        let ghost all = self.pieces();
        let mut sorted: Vec<(usize, usize, String)> = Vec::new();
        let mut i: usize = 0;
        assert(sorted@.map_values(|p: (usize, usize, String)| (p.0 as int, p.1 as int, p.2@))
            =~= in_order(all.take(0)));
        while i < self.replacements.len()
            invariant
                i <= self.replacements@.len(),
                all == self.pieces(),
                sorted@.map_values(|p: (usize, usize, String)| (p.0 as int, p.1 as int, p.2@))
                    == in_order(all.take(i as int)),
            decreases self.replacements@.len() - i,
        {
            let ghost view = sorted@.map_values(
                |p: (usize, usize, String)| (p.0 as int, p.1 as int, p.2@),
            );
            let start = self.replacements[i].0.start;
            let end = self.replacements[i].0.end;
            let text = self.replacements[i].1.clone();
            let ghost piece = (start as int, end as int, text@);
            assert(all[i as int] == piece);
            let mut j: usize = 0;
            while j < sorted.len() && !(sorted[j].0 > start || (sorted[j].0 == start && sorted[j].1
                > end))
                invariant
                    j <= sorted@.len(),
                    view == sorted@.map_values(
                        |p: (usize, usize, String)| (p.0 as int, p.1 as int, p.2@),
                    ),
                    insert_position(view, piece, 0) == insert_position(view, piece, j as int),
                    piece.0 == start as int,
                    piece.1 == end as int,
                decreases sorted@.len() - j,
            {
                assert(view[j as int] == (sorted@[j as int].0 as int, sorted@[j as int].1 as int, sorted@[j as int].2@));
                j += 1;
            }
            proof {
                if j < sorted@.len() {
                    assert(view[j as int] == (sorted@[j as int].0 as int, sorted@[j as int].1 as int, sorted@[j as int].2@));
                }
            }
            sorted.insert(j, (start, end, text));
            assert(all.take(i + 1).drop_last() =~= all.take(i as int));
            assert(all.take(i + 1).last() == piece);
            assert(sorted@.map_values(|p: (usize, usize, String)| (p.0 as int, p.1 as int, p.2@))
                =~= view.insert(j as int, piece));
            i += 1;
        }
        assert(all.take(self.replacements@.len() as int) =~= all);
        sorted
    }
}

impl Default for Replacer {
    /// A replacer with nothing to replace.
    fn default() -> (r: Self)
        ensures
            r.pieces() == Seq::<Piece>::empty(),
    {
        let replacements: Vec<(Range<usize>, String)> = Vec::new();
        let r = Replacer { replacements };
        assert(r.pieces() =~= Seq::<Piece>::empty());
        r
    }
}

} // verus!

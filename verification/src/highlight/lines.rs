//! Converting between byte offsets and `(row, column)` points.
//!
//! tree-sitter tracks both, but the `#offset!` directive is expressed purely
//! in rows and columns, so applying it means going back to bytes afterwards.
use vstd::prelude::*;
use vstd::string::StringSliceAdditionalSpecFns;

verus! {

/// A position in a document: a zero-based row, and a byte column in it.
#[derive(Debug, Clone, Copy, PartialEq, Eq)]
pub struct Point {
    pub row: usize,
    pub column: usize,
}

impl Point {
    /// The point at `row`, `column`.
    pub fn new(row: usize, column: usize) -> (p: Point)
        ensures
            p.row == row,
            p.column == column,
    {
        Point { row, column }
    }
}

/// The offsets just past each newline among the first `n` bytes of `text`.
pub open spec fn newline_ends(text: Seq<u8>, n: int) -> Seq<usize>
    decreases n,
{
    if n <= 0 {
        seq![]
    } else if text[n - 1] == 0x0a {
        newline_ends(text, n - 1).push(n as usize)
    } else {
        newline_ends(text, n - 1)
    }
}

/// The offset of the start of every line of `text`.
pub open spec fn line_starts(text: Seq<u8>) -> Seq<usize> {
    seq![0usize] + newline_ends(text, text.len() as int)
}

/// A byte-offset index of the start of every line in a document.
pub struct LineIndex {
    starts: Vec<usize>,
    length: usize,
}

proof fn lemma_newline_ends(text: Seq<u8>, n: int)
    requires
        0 <= n <= text.len(),
        n <= usize::MAX,
    ensures
        forall|k: int|
            0 <= k < newline_ends(text, n).len() ==> 0 < #[trigger] newline_ends(text, n)[k] <= n,
        forall|j: int, k: int|
            0 <= j < k < newline_ends(text, n).len() ==> newline_ends(text, n)[j] < newline_ends(
                text,
                n,
            )[k],
    decreases n,
{
    if n > 0 {
        lemma_newline_ends(text, n - 1);
        let p = newline_ends(text, n - 1);
        let e = newline_ends(text, n);
        if text[n - 1] == 0x0a {
            assert(e == p.push(n as usize));
            assert forall|k: int| 0 <= k < e.len() implies 0 < #[trigger] e[k] <= n by {
                if k < p.len() {
                    assert(e[k] == p[k]);
                }
            }
            assert forall|j: int, k: int| 0 <= j < k < e.len() implies e[j] < e[k] by {
                assert(e[j] == p[j]);
                if k < p.len() {
                    assert(e[k] == p[k]);
                }
            }
        } else {
            assert(e == p);
        }
    }
}

impl LineIndex {
    /// The offset each line starts at.
    pub closed spec fn starts(&self) -> Seq<usize> {
        self.starts@
    }

    /// The length of the document.
    pub closed spec fn length(&self) -> usize {
        self.length
    }

    /// The byte offset of a point, clamped into the document: past the last
    /// line it is the end, and past the end of its line it is that line's
    /// end.
    pub open spec fn offset_spec(&self, point: Point) -> int {
        if point.row >= self.starts().len() {
            self.length() as int
        } else {
            let start = self.starts()[point.row as int];
            let end = if point.row + 1 < self.starts().len() {
                self.starts()[point.row + 1] - 1
            } else {
                self.length() as int
            };
            if start + point.column <= end {
                start + point.column
            } else {
                end
            }
        }
    }

    /// Lines start at 0, in increasing order, within the document.
    pub closed spec fn wf(&self) -> bool {
        &&& self.starts@.len() >= 1
        &&& self.starts@[0] == 0
        &&& forall|k: int| 0 <= k < self.starts@.len() ==> #[trigger] self.starts@[k] <= self.length
        &&& forall|j: int, k: int|
            0 <= j < k < self.starts@.len() ==> self.starts@[j] < self.starts@[k]
    }

    /// Whatever the point, its offset lies within the document.
    pub proof fn lemma_offset_in_document(&self, point: Point)
        requires
            self.wf(),
        ensures
            0 <= self.offset_spec(point) <= self.length(),
    {
        if point.row < self.starts().len() && point.row + 1 < self.starts().len() {
            assert(self.starts@[point.row as int] < self.starts@[point.row + 1]);
        }
    }

    /// Index `text`.
    pub fn new(text: &str) -> (index: Self)
        ensures
            index.wf(),
            index.starts() == line_starts(text.spec_bytes()),
            index.length() == text.spec_bytes().len(),
    {
        let bytes = text.as_bytes();
        let ghost b = bytes@;
        let mut starts: Vec<usize> = Vec::new();
        starts.push(0);
        let mut i: usize = 0;
        while i < bytes.len()
            invariant
                b == bytes@,
                i <= b.len(),
                starts@ == seq![0usize] + newline_ends(b, i as int),
            decreases b.len() - i,
        {
            if bytes[i] == 0x0a {
                starts.push(i + 1);
            }
            i += 1;
            assert(starts@ =~= seq![0usize] + newline_ends(b, i as int));
        }
        proof {
            lemma_newline_ends(b, b.len() as int);
            let e = newline_ends(b, b.len() as int);
            assert forall|k: int| 0 <= k < starts@.len() implies #[trigger] starts@[k]
                <= bytes@.len() by {
                if k > 0 {
                    assert(starts@[k] == e[k - 1]);
                }
            }
            assert forall|j: int, k: int| 0 <= j < k < starts@.len() implies starts@[j]
                < starts@[k] by {
                if j > 0 {
                    assert(starts@[j] == e[j - 1] && starts@[k] == e[k - 1]);
                } else {
                    assert(starts@[k] == e[k - 1]);
                }
            }
        }
        LineIndex { starts, length: bytes.len() }
    }

    /// The byte offset of a point, clamped into the document.
    ///
    /// Columns are byte counts within a line, so a point past the end of its
    /// line clamps to the line's end rather than wrapping.
    pub fn offset(&self, point: Point) -> (r: usize)
        requires
            self.wf(),
        ensures
            r == self.offset_spec(point),
    {
        if point.row >= self.starts.len() {
            return self.length;
        }
        let start = self.starts[point.row];
        let end = if point.row + 1 < self.starts.len() {
            self.starts[point.row + 1] - 1
        } else {
            self.length
        };
        if point.column <= end - start {
            start + point.column
        } else {
            end
        }
    }
}

} // verus!

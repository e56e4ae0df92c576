//! The decisions of a preprocessor run: which languages a book asks for, when
//! another round of highlighting is due, and how each chapter's rendered code
//! replaces its source.
//!
//! Reading the book, parsing code and installing languages happen around
//! these: the caller does that work and hands the results back.
use vstd::prelude::*;
use vstd::string::StringSliceAdditionalSpecFns;
use vstd::utf8::*;

use crate::highlight::canvas::Span;
use crate::highlight::engine::{lex_less, str_less};
use crate::highlight::overrides::{marks_view, retag_all, spans_view, Overrides};
use crate::renderer::render_html;
use crate::renderer::render_html::{code_class_list, lemma_rendered_plain, rendered_plain};
use crate::renderer::replacer::{in_order, replace_from, Piece, ReplaceError, Replacer};
use crate::renderer::scan::filter::texts;
use crate::renderer::scan::task::HighlightTask;
use crate::store::workspace::listed;
use crate::text::str_eq;

verus! {

broadcast use vstd::seq_lib::group_seq_properties;

/// How many times a run may discover a new injected language and try again.
///
/// Each round can only add languages, and the language table is finite, so
/// this is a safety net rather than a real limit; two rounds covers every
/// realistic book (a block, plus whatever it injects).
pub const MAX_ROUNDS: usize = 4;

/// One chapter's worth of work.
pub struct Page {
    /// The chapter's title, used only to check that the two walks over the
    /// book lined up.
    pub name: String,
    /// What to highlight in the chapter, in the order it was found.
    pub tasks: Vec<HighlightTask>,
}

/// Whether `a` sorts before `b`, comparing their UTF-8 bytes.
pub open spec fn text_less(a: Seq<char>, b: Seq<char>) -> bool {
    lex_less(encode_utf8(a), encode_utf8(b))
}

/// Whether each name sorts before the next.
pub open spec fn ascending(names: Seq<Seq<char>>) -> bool {
    forall|i: int| 0 <= i < names.len() - 1 ==> #[trigger] text_less(names[i], names[i + 1])
}

/// A set of names, held once each and in ascending order.
pub open spec fn sorted_set(names: Seq<Seq<char>>, set: Set<Seq<char>>) -> bool {
    &&& names.no_duplicates()
    &&& ascending(names)
    &&& names.to_set() == set
}

/// Every language a task of `pages` asks for.
pub open spec fn task_languages(pages: Seq<Page>) -> Set<Seq<char>> {
    Set::new(
        |l: Seq<char>|
            exists|i: int, j: int|
                0 <= i < pages.len() && 0 <= j < pages[i].tasks@.len() && #[trigger] pages[i].tasks@[j].language@
                    == l,
    )
}

/// Of two different byte strings, one sorts before the other.
proof fn lemma_lex_total(a: Seq<u8>, b: Seq<u8>)
    requires
        a != b,
    ensures
        lex_less(a, b) || lex_less(b, a),
    decreases a.len(),
{
    if a.len() > 0 && b.len() > 0 && a[0] == b[0] {
        if a.drop_first() == b.drop_first() {
            assert(a =~= seq![a[0]] + a.drop_first());
            assert(b =~= seq![b[0]] + b.drop_first());
        }
        lemma_lex_total(a.drop_first(), b.drop_first());
    } else if a.len() == 0 && b.len() == 0 {
        assert(a =~= b);
    }
}

/// Of two different texts, one sorts before the other.
proof fn lemma_text_total(a: Seq<char>, b: Seq<char>)
    requires
        a != b,
    ensures
        text_less(a, b) || text_less(b, a),
{
    encode_utf8_decode_utf8(a);
    encode_utf8_decode_utf8(b);
    lemma_lex_total(encode_utf8(a), encode_utf8(b));
}

/// Add `name` to an ascending list of distinct names, where it sorts.
pub(crate) fn insert_sorted(names: &mut Vec<String>, name: &str)
    requires
        texts(old(names)@).no_duplicates(),
        ascending(texts(old(names)@)),
    ensures
        texts(final(names)@).no_duplicates(),
        ascending(texts(final(names)@)),
        texts(final(names)@).to_set() == texts(old(names)@).to_set().insert(name@),
{
    let ghost before = texts(names@);
    if listed(names, name) {
        assert(before.to_set().insert(name@) =~= before.to_set());
        return;
    }
    let mut i: usize = 0;
    while i < names.len() && str_less(names[i].as_str(), name)
        invariant
            i <= names@.len(),
            texts(names@) == before,
            forall|j: int| 0 <= j < i ==> text_less(#[trigger] before[j], name@),
        decreases names@.len() - i,
    {
        i += 1;
    }
    names.insert(i, String::from_str(name));
    let ghost after = before.insert(i as int, name@);
    assert(texts(names@) =~= after);
    assert(!before.contains(name@));
    proof {
        if i < before.len() {
            assert(!text_less(before[i as int], name@));
            assert(before[i as int] != name@);
            lemma_text_total(before[i as int], name@);
        }
    }
    assert(ascending(after)) by {
        assert forall|k: int| 0 <= k < after.len() - 1 implies #[trigger] text_less(
            after[k],
            after[k + 1],
        ) by {
            if k < i - 1 {
                assert(text_less(before[k], before[k + 1]));
            } else if k == i - 1 {
            } else if k == i {
            } else {
                let j = k - 1;
                assert(text_less(before[j], before[j + 1]));
            }
        }
    }
    assert(after.no_duplicates()) by {
        assert forall|a: int, b: int| 0 <= a < after.len() && 0 <= b < after.len() && a != b implies after[a]
            != after[b] by {
            if a == i {
                let k = if b < i { b } else { b - 1 };
                assert(after[b] == before[k]);
            } else if b == i {
                let k = if a < i { a } else { a - 1 };
                assert(after[a] == before[k]);
            }
        }
    }
    assert(after.to_set() =~= before.to_set().insert(name@)) by {
        assert forall|x: Seq<char>| after.to_set().contains(x) implies before.to_set().insert(
            name@,
        ).contains(x) by {
            let a = choose|a: int| 0 <= a < after.len() && after[a] == x;
            if a < i {
                assert(before[a] == x);
            } else if a > i {
                assert(before[a - 1] == x);
            }
        }
        assert forall|x: Seq<char>| before.to_set().insert(name@).contains(x) implies after.to_set().contains(
            x,
        ) by {
            if x == name@ {
                assert(after[i as int] == x);
            } else {
                let a = choose|a: int| 0 <= a < before.len() && before[a] == x;
                if a < i {
                    assert(after[a] == x);
                } else {
                    assert(after[a + 1] == x);
                }
            }
        }
    }
}

/// Whether no page has anything to highlight, so the book can go back as it
/// came.
pub fn nothing_to_highlight(pages: &[Page]) -> (r: bool)
    ensures
        r == forall|i: int| 0 <= i < pages@.len() ==> #[trigger] pages@[i].tasks@.len() == 0,
{
    let mut i: usize = 0;
    while i < pages.len()
        invariant
            i <= pages@.len(),
            forall|k: int| 0 <= k < i ==> #[trigger] pages@[k].tasks@.len() == 0,
        decreases pages@.len() - i,
    {
        if pages[i].tasks.len() > 0 {
            return false;
        }
        i += 1;
    }
    true
}

/// The languages the book's code asks for, once each, in ascending order:
/// the ones to set up before anything is highlighted.
pub fn wanted_languages(pages: &[Page]) -> (r: Vec<String>)
    ensures
        sorted_set(texts(r@), task_languages(pages@)),
{
    let mut names: Vec<String> = Vec::new();
    let ghost mut seen: Set<Seq<char>> = Set::empty();
    let mut i: usize = 0;
    while i < pages.len()
        invariant
            i <= pages@.len(),
            texts(names@).no_duplicates(),
            ascending(texts(names@)),
            texts(names@).to_set() == seen,
            seen == Set::new(
                |l: Seq<char>|
                    exists|p: int, j: int|
                        0 <= p < i && 0 <= j < pages@[p].tasks@.len() && #[trigger] pages@[p].tasks@[j].language@
                            == l,
            ),
        decreases pages@.len() - i,
    {
        let tasks = &pages[i].tasks;
        let mut j: usize = 0;
        while j < tasks.len()
            invariant
                i < pages@.len(),
                tasks == pages@[i as int].tasks,
                j <= tasks@.len(),
                texts(names@).no_duplicates(),
                ascending(texts(names@)),
                texts(names@).to_set() == seen.union(
                    Set::new(
                        |l: Seq<char>|
                            exists|q: int| 0 <= q < j && #[trigger] tasks@[q].language@ == l,
                    ),
                ),
            decreases tasks@.len() - j,
        {
            insert_sorted(&mut names, tasks[j].language.as_str());
            proof {
                let s1 = Set::new(
                    |l: Seq<char>| exists|q: int| 0 <= q < j && #[trigger] tasks@[q].language@ == l,
                );
                let s2 = Set::new(
                    |l: Seq<char>| exists|q: int| 0 <= q < j + 1 && #[trigger] tasks@[q].language@ == l,
                );
                let x = tasks@[j as int].language@;
                assert(s2 =~= s1.insert(x)) by {
                    assert forall|l: Seq<char>| s2.contains(l) implies s1.insert(x).contains(l) by {
                        let q = choose|q: int| 0 <= q < j + 1 && #[trigger] tasks@[q].language@ == l;
                        if q < j {
                            assert(s1.contains(l));
                        }
                    }
                    assert forall|l: Seq<char>| s1.insert(x).contains(l) implies s2.contains(l) by {
                        if l == x {
                            assert(tasks@[j as int].language@ == l);
                        } else {
                            let q = choose|q: int| 0 <= q < j && #[trigger] tasks@[q].language@ == l;
                            assert(tasks@[q].language@ == l);
                        }
                    }
                }
                assert(texts(names@).to_set() =~= seen.union(s2));
            }
            j += 1;
        }
        proof {
            let next = Set::new(
                |l: Seq<char>|
                    exists|p: int, q: int|
                        0 <= p < i + 1 && 0 <= q < pages@[p].tasks@.len() && #[trigger] pages@[p].tasks@[q].language@
                            == l,
            );
            assert(texts(names@).to_set() =~= next) by {
                assert forall|l: Seq<char>| next.contains(l) implies texts(names@).to_set().contains(
                    l,
                ) by {
                    let (p, q) = choose|p: int, q: int|
                        0 <= p < i + 1 && 0 <= q < pages@[p].tasks@.len() && #[trigger] pages@[p].tasks@[q].language@
                            == l;
                    if p == i {
                        assert(tasks@[q].language@ == l);
                    }
                }
            }
            seen = next;
        }
        i += 1;
    }
    proof {
        assert(seen =~= task_languages(pages@));
    }
    names
}

/// Render one task: apply its override marks to the highlighted spans and
/// wrap the result as a block or an inline code span.
pub fn render_task<'a>(task: &HighlightTask, overrides: &'a Overrides, spans: Vec<Span<'a>>) -> (html:
    String)
    requires
        overrides.wf(),
    ensures
        html@ == if task.kind is Inline {
            "<code class=\""@ + code_class_list(task.language@, true) + "\">"@ + rendered_plain(
                overrides.text(),
                retag_all(spans_view(spans@), overrides.text(), marks_view(overrides.mark_list())),
            ) + "</code>"@
        } else {
            "<pre class=\"tree-sitter-block\"><code class=\""@ + code_class_list(task.language@, false)
                + "\">"@ + rendered_plain(
                overrides.text(),
                retag_all(spans_view(spans@), overrides.text(), marks_view(overrides.mark_list())),
            ) + "</code></pre>"@
        },
{
    let code = overrides.code();
    let spans = overrides.apply(spans);
    proof {
        lemma_rendered_plain(code, spans@);
    }
    if task.kind.is_block() {
        render_html::block(task.language.as_str(), code, spans.as_slice())
    } else {
        render_html::inline(task.language.as_str(), code, spans.as_slice())
    }
}

/// What happens after a round of highlighting.
pub struct RoundEnd {
    /// Languages highlighting reported missing that were never tried before,
    /// once each and in ascending order: to be set up now, on a best-effort
    /// basis.
    pub install: Vec<String>,
    /// Whether to highlight everything once more with them.
    pub again: bool,
}

/// The rounds of a run: how many have been done, and every language tried so
/// far.
pub struct Rounds {
    round: usize,
    attempted: Vec<String>,
}

impl Rounds {
    /// How many rounds have been done.
    pub closed spec fn done(&self) -> nat {
        self.round as nat
    }

    /// Every language tried so far.
    pub closed spec fn tried(&self) -> Set<Seq<char>> {
        texts(self.attempted@).to_set()
    }

    /// The languages tried so far are held once each, in ascending order.
    pub closed spec fn wf(&self) -> bool {
        texts(self.attempted@).no_duplicates() && ascending(texts(self.attempted@))
    }

    /// Before the first round: the languages set up front count as tried.
    pub fn new(wanted: &Vec<String>) -> (r: Self)
        ensures
            r.wf(),
            r.done() == 0,
            r.tried() == texts(wanted@).to_set(),
    {
        let mut attempted: Vec<String> = Vec::new();
        let mut i: usize = 0;
        while i < wanted.len()
            invariant
                i <= wanted@.len(),
                texts(attempted@).no_duplicates(),
                ascending(texts(attempted@)),
                texts(attempted@).to_set() == texts(wanted@.take(i as int)).to_set(),
            decreases wanted@.len() - i,
        {
            insert_sorted(&mut attempted, wanted[i].as_str());
            assert(texts(wanted@.take(i + 1)) =~= texts(wanted@.take(i as int)).push(
                wanted@[i as int]@,
            ));
            assert(texts(wanted@.take(i + 1)).to_set() =~= texts(wanted@.take(i as int)).to_set().insert(
                wanted@[i as int]@,
            ));
            i += 1;
        }
        assert(wanted@.take(wanted@.len() as int) =~= wanted@);
        Rounds { round: 0, attempted }
    }

    /// How many rounds have been done.
    pub fn round(&self) -> (r: usize)
        ensures
            r == self.done(),
    {
        self.round
    }

    /// End a round in which highlighting reported `missing`: the languages
    /// in it not tried yet are to be set up, and count as tried from now on.
    /// Another round follows if there were any and the rounds are not used up.
    pub fn finish(&mut self, missing: &[String]) -> (r: RoundEnd)
        requires
            old(self).wf(),
            old(self).done() < MAX_ROUNDS,
        ensures
            final(self).wf(),
            final(self).done() == old(self).done() + 1,
            sorted_set(texts(r.install@), texts(missing@).to_set().difference(old(self).tried())),
            final(self).tried() == old(self).tried().union(texts(missing@).to_set()),
            r.again == (r.install@.len() > 0 && final(self).done() < MAX_ROUNDS),
    {
        let ghost tried = texts(self.attempted@).to_set();
        let ghost r0 = self.round;
        let mut fresh: Vec<String> = Vec::new();
        let mut i: usize = 0;
        while i < missing.len()
            invariant
                i <= missing@.len(),
                self.round == r0 < MAX_ROUNDS,
                texts(self.attempted@).to_set() == tried,
                texts(self.attempted@).no_duplicates(),
                ascending(texts(self.attempted@)),
                texts(fresh@).no_duplicates(),
                ascending(texts(fresh@)),
                texts(fresh@).to_set() == texts(missing@.take(i as int)).to_set().difference(tried),
            decreases missing@.len() - i,
        {
            let ghost prior = texts(fresh@).to_set();
            assert(texts(missing@.take(i + 1)) =~= texts(missing@.take(i as int)).push(
                missing@[i as int]@,
            ));
            assert(texts(missing@.take(i + 1)).to_set() =~= texts(missing@.take(i as int)).to_set().insert(
                missing@[i as int]@,
            ));
            if !listed(&self.attempted, missing[i].as_str()) {
                insert_sorted(&mut fresh, missing[i].as_str());
                assert(texts(fresh@).to_set() =~= texts(missing@.take(i + 1)).to_set().difference(
                    tried,
                ));
            } else {
                assert(texts(fresh@).to_set() =~= texts(missing@.take(i + 1)).to_set().difference(
                    tried,
                ));
            }
            i += 1;
        }
        assert(missing@.take(missing@.len() as int) =~= missing@);
        let mut k: usize = 0;
        while k < fresh.len()
            invariant
                k <= fresh@.len(),
                self.round == r0 < MAX_ROUNDS,
                texts(fresh@).no_duplicates(),
                ascending(texts(fresh@)),
                texts(fresh@).to_set() == texts(missing@).to_set().difference(tried),
                texts(self.attempted@).no_duplicates(),
                ascending(texts(self.attempted@)),
                texts(self.attempted@).to_set() == tried.union(texts(fresh@.take(k as int)).to_set()),
            decreases fresh@.len() - k,
        {
            insert_sorted(&mut self.attempted, fresh[k].as_str());
            assert(texts(fresh@.take(k + 1)) =~= texts(fresh@.take(k as int)).push(fresh@[k as int]@));
            assert(texts(fresh@.take(k + 1)).to_set() =~= texts(fresh@.take(k as int)).to_set().insert(
                fresh@[k as int]@,
            ));
            assert(texts(self.attempted@).to_set() =~= tried.union(
                texts(fresh@.take(k + 1)).to_set(),
            ));
            k += 1;
        }
        assert(fresh@.take(fresh@.len() as int) =~= fresh@);
        assert(tried.union(texts(fresh@).to_set()) =~= tried.union(texts(missing@).to_set()));
        self.round = self.round + 1;
        let again = fresh.len() > 0 && self.round < MAX_ROUNDS;
        RoundEnd { install: fresh, again }
    }
}

/// Why rendered code could not be put back into a chapter.
pub enum SpliceError {
    /// The book has more chapters than were scanned.
    ShapeChanged,
    /// The chapter at this place is not the one scanned there.
    WrongChapter { expected: String, found: String },
    /// The chapter's replacements could not be applied.
    Replace { chapter: String, error: ReplaceError },
}

/// The replacements of a page: each task's range with the HTML rendered for
/// it, as far as both go.
pub open spec fn page_pieces(tasks: Seq<HighlightTask>, html: Seq<String>) -> Seq<Piece> {
    Seq::new(
        if tasks.len() <= html.len() {
            tasks.len()
        } else {
            html.len()
        },
        |i: int| (tasks[i].range.start as int, tasks[i].range.end as int, html[i]@),
    )
}

/// The new text of the `index`-th chapter visited, named `name` and holding
/// `content`, with its code replaced by what was rendered for it; `None`
/// where nothing in it was highlighted.
///
/// The chapters are visited in the order they were scanned, so the nth page
/// belongs to the nth chapter. The name is checked as a guard: if the two
/// walks ever drift apart, ranges from one chapter would be applied to
/// another, and that should fail loudly rather than corrupt the book.
pub fn splice_chapter(
    pages: &[Page],
    rendered_html: &[Vec<String>],
    index: usize,
    name: &str,
    content: &str,
) -> (r: Result<Option<String>, SpliceError>)
    ensures
        index >= pages@.len() || index >= rendered_html@.len() ==> r is Err && r->Err_0 is ShapeChanged,
        index < pages@.len() && index < rendered_html@.len() ==> {
            let page = pages@[index as int];
            if page.name@ != name@ {
                r is Err && (r->Err_0 matches SpliceError::WrongChapter { expected, found }
                    && expected@ == page.name@ && found@ == name@)
            } else if page.tasks@.len() == 0 {
                r is Ok && r->Ok_0 is None
            } else {
                match replace_from(
                    content.spec_bytes(),
                    in_order(page_pieces(page.tasks@, rendered_html@[index as int]@)),
                    0,
                    0,
                    seq![],
                ) {
                    Ok(text) => r is Ok && r->Ok_0 is Some && r->Ok_0->0@ == text,
                    Err(e) => r is Err && (r->Err_0 matches SpliceError::Replace { chapter, error }
                        && chapter@ == name@ && error == e),
                }
            }
        },
{
    if index >= pages.len() || index >= rendered_html.len() {
        return Err(SpliceError::ShapeChanged);
    }
    let page = &pages[index];
    let html = &rendered_html[index];
    if !str_eq(page.name.as_str(), name) {
        return Err(
            SpliceError::WrongChapter {
                expected: String::from_str(page.name.as_str()),
                found: String::from_str(name),
            },
        );
    }
    if page.tasks.len() == 0 {
        return Ok(None);
    }
    let n = if page.tasks.len() <= html.len() {
        page.tasks.len()
    } else {
        html.len()
    };
    let ghost pieces = page_pieces(page.tasks@, html@);
    let mut replacer = Replacer::default();
    let mut i: usize = 0;
    while i < n
        invariant
            i <= n,
            n == pieces.len(),
            n <= page.tasks@.len(),
            n <= html@.len(),
            pieces == page_pieces(page.tasks@, html@),
            replacer.pieces() == pieces.take(i as int),
        decreases n - i,
    {
        let task = &page.tasks[i];
        replacer.add(task.range.start..task.range.end, String::from_str(html[i].as_str()));
        assert(replacer.pieces() =~= pieces.take(i + 1));
        i += 1;
    }
    assert(pieces.take(n as int) =~= pieces);
    match replacer.apply(content) {
        Ok(text) => Ok(Some(text)),
        Err(error) => Err(SpliceError::Replace { chapter: String::from_str(name), error }),
    }
}

} // verus!

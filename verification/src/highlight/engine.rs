//! The highlighter's decisions for one layer of a document: which captures
//! paint what, and which regions an injections query hands to another
//! language.
//!
//! This follows Neovim's `LanguageTree` and `TSHighlighter` rather than
//! tree-sitter's own `tree-sitter-highlight`, because nvim-treesitter's
//! queries are written against Neovim's semantics: Lua-pattern and Vim-regex
//! predicates, `#set! priority`, and injections that cut out their content
//! node's children. The parser and the query cursor report matches; what is
//! made of them is decided here.
use vstd::prelude::*;

use vstd::string::StringSliceAdditionalSpecFns;
use vstd::utf8::*;

use crate::highlight::canvas::{group_text, Canvas};
use crate::highlight::injection::{
    content_ranges, content_spec, merged, normalize, offset_range, offset_spec, sorted_nonempty,
    Range,
};
use crate::highlight::lines::LineIndex;
use crate::query::compiled::{CaptureRole, QueryRules};
use crate::query::metadata::{latest, lossy_text, no_metadata, MetadataView, DEFAULT_PRIORITY};
use crate::query::predicate::{predicate_holds, MatchFacts, NodeFacts};
use crate::query::regex_engine::regex_replace_all;
use crate::registry::lookup::{resolved, Registry};
use crate::text::{str_eq, str_get};

verus! {

broadcast use vstd::seq_lib::group_seq_properties;

/// One capture reported by a highlights query, in the order the query cursor
/// reports captures: the match it belongs to, identified, and its position
/// among the match's captures.
pub struct CaptureEvent {
    pub match_id: u32,
    pub matched: MatchFacts,
    pub capture: usize,
}

/// Whether every condition of a match's pattern holds.
pub open spec fn accepted(rules: QueryRules, m: MatchFacts, source: Seq<u8>) -> bool {
    m.pattern_index >= rules.conditions().pattern_list().len() || forall|j: int|
        0 <= j < rules.conditions().pattern_list()[m.pattern_index as int].len() ==> predicate_holds(
            #[trigger] rules.conditions().pattern_list()[m.pattern_index as int][j],
            m,
            source,
        )
}

/// What a capture index means when painted.
pub open spec fn role_at(rules: QueryRules, capture: u32) -> CaptureRole {
    if (capture as int) < rules.roles().len() {
        rules.roles()[capture as int]
    } else {
        CaptureRole::Ignored
    }
}

/// The directives of a pattern.
pub open spec fn meta_at(rules: QueryRules, index: usize) -> MetadataView {
    if index < rules.directives().view_list().len() {
        rules.directives().view_list()[index as int]
    } else {
        no_metadata()
    }
}

/// The priority a capture of a pattern paints with.
pub open spec fn priority_of(meta: MetadataView, capture: u32) -> u32 {
    match latest(meta.1, capture) {
        Some(p) => p,
        None => match meta.0 {
            Some(p) => p,
            None => DEFAULT_PRIORITY,
        },
    }
}

/// The canvas as plain values: the text of the group on each byte, and its
/// priority.
pub type Cells = (Seq<Option<Seq<char>>>, Seq<u32>);

/// The canvas's cells.
pub open spec fn cells_of(canvas: Canvas) -> Cells {
    (canvas.groups().map_values(|g: Option<&str>| group_text(g)), canvas.priorities())
}

/// The cells after painting `start..end` with `group` at `priority`.
pub open spec fn painted(cells: Cells, start: usize, end: usize, group: Option<Seq<char>>, priority: u32) -> Cells {
    (
        Seq::new(
            cells.0.len(),
            |i: int|
                if start <= i < end && priority >= cells.1[i] {
                    group
                } else {
                    cells.0[i]
                },
        ),
        Seq::new(
            cells.1.len(),
            |i: int|
                if start <= i < end && priority >= cells.1[i] {
                    priority
                } else {
                    cells.1[i]
                },
        ),
    )
}

/// The cells, and the matches rejected so far, after one more capture: a
/// capture of a rejected match is skipped, a match whose conditions fail is
/// rejected with all its captures, and an accepted capture paints its
/// offset-adjusted range with its role, at its priority, unless it is not a
/// highlight.
pub open spec fn capture_step(
    rules: QueryRules,
    lines: LineIndex,
    source: Seq<u8>,
    state: (Cells, Set<u32>),
    event: CaptureEvent,
) -> (Cells, Set<u32>) {
    let (cells, rejected) = state;
    if rejected.contains(event.match_id) {
        state
    } else if !accepted(rules, event.matched, source) {
        (cells, rejected.insert(event.match_id))
    } else {
        let (index, node) = event.matched.captures@[event.capture as int];
        let group = match role_at(rules, index) {
            CaptureRole::Group(name) => Some(name@),
            _ => None,
        };
        if role_at(rules, index) is Ignored {
            state
        } else {
            let meta = meta_at(rules, event.matched.pattern_index);
            let range = offset_spec(node.range, latest(meta.2, index), lines);
            (painted(cells, range.start_byte, range.end_byte, group, priority_of(meta, index)), rejected)
        }
    }
}

/// The cells, and the rejected matches, after a run of captures.
pub open spec fn captures_painted(
    rules: QueryRules,
    lines: LineIndex,
    source: Seq<u8>,
    start: Cells,
    events: Seq<CaptureEvent>,
) -> (Cells, Set<u32>)
    decreases events.len(),
{
    if events.len() == 0 {
        (start, Set::empty())
    } else {
        capture_step(
            rules,
            lines,
            source,
            captures_painted(rules, lines, source, start, events.drop_last()),
            events.last(),
        )
    }
}

/// A capture whose match fails a condition of its pattern paints nothing:
/// after it the cells are as they were before it, wherever it comes in the
/// run and whatever it captures.
pub proof fn lemma_rejected_capture_paints_nothing(
    rules: QueryRules,
    lines: LineIndex,
    source: Seq<u8>,
    start: Cells,
    events: Seq<CaptureEvent>,
    event: CaptureEvent,
)
    requires
        !accepted(rules, event.matched, source),
    ensures
        captures_painted(rules, lines, source, start, events.push(event)).0 == captures_painted(
            rules,
            lines,
            source,
            start,
            events,
        ).0,
{
    assert(events.push(event).drop_last() =~= events);
}

/// When no capture's match meets its pattern's conditions, the canvas is
/// left exactly as it was.
pub proof fn lemma_no_accepted_match_paints_nothing(
    rules: QueryRules,
    lines: LineIndex,
    source: Seq<u8>,
    start: Cells,
    events: Seq<CaptureEvent>,
)
    requires
        forall|k: int| 0 <= k < events.len() ==> !accepted(rules, (#[trigger] events[k]).matched, source),
    ensures
        captures_painted(rules, lines, source, start, events).0 == start,
    decreases events.len(),
{
    if events.len() > 0 {
        let prev = events.drop_last();
        assert forall|k: int| 0 <= k < prev.len() implies !accepted(rules, (#[trigger] prev[k]).matched, source) by {
            assert(prev[k] == events[k]);
        }
        lemma_no_accepted_match_paints_nothing(rules, lines, source, start, prev);
        assert(!accepted(rules, events[events.len() - 1].matched, source));
    }
}

/// Whether `id` is among `ids`.
fn holds_id(ids: &Vec<u32>, id: u32) -> (r: bool)
    ensures
        r == ids@.contains(id),
{
    let mut k: usize = 0;
    while k < ids.len()
        invariant
            k <= ids@.len(),
            forall|j: int| 0 <= j < k ==> ids@[j] != id,
        decreases ids@.len() - k,
    {
        if ids[k] == id {
            assert(ids@[k as int] == id);
            return true;
        }
        k += 1;
    }
    false
}

/// Paint the captures a highlights query reported onto the canvas.
pub fn paint_captures<'a>(
    canvas: &mut Canvas<'a>,
    rules: &'a QueryRules,
    events: &[CaptureEvent],
    lines: &LineIndex,
    source: &[u8],
)
    requires
        old(canvas).wf(),
        rules.wf(),
        lines.wf(),
        forall|k: int|
            0 <= k < events@.len() ==> (#[trigger] events@[k]).capture < events@[k].matched.captures@.len(),
    ensures
        final(canvas).wf(),
        cells_of(*final(canvas)) == captures_painted(
            *rules,
            *lines,
            source@,
            cells_of(*old(canvas)),
            events@,
        ).0,
{
    let ghost start = cells_of(*canvas);
    let mut rejected: Vec<u32> = Vec::new();
    let mut i: usize = 0;
    while i < events.len()
        invariant
            i <= events@.len(),
            canvas.wf(),
            rules.wf(),
            lines.wf(),
            forall|k: int|
                0 <= k < events@.len() ==> (#[trigger] events@[k]).capture
                    < events@[k].matched.captures@.len(),
            captures_painted(*rules, *lines, source@, start, events@.take(i as int)) == (
                cells_of(*canvas),
                rejected@.to_set(),
            ),
        decreases events@.len() - i,
    {
        let event = &events[i];
        assert(events@.take(i + 1).drop_last() =~= events@.take(i as int));
        assert(events@.take(i + 1).last() == events@[i as int]);
        let ghost before = cells_of(*canvas);
        if holds_id(&rejected, event.match_id) {
        } else if !rules.accepts(&event.matched, source) {
            let ghost ids = rejected@;
            rejected.push(event.match_id);
            assert(rejected@.to_set() =~= ids.to_set().insert(event.match_id));
        } else {
            let (index, node) = (event.matched.captures[event.capture].0, &event.matched.captures[event.capture].1);
            let role = rules.role(index);
            let group: Option<&'a str> = match role {
                CaptureRole::Ignored => None,
                CaptureRole::Cleared => None,
                CaptureRole::Group(name) => Some(name.as_str()),
            };
            if !matches!(role, CaptureRole::Ignored) {
                let pattern = rules.pattern(event.matched.pattern_index);
                let range = offset_range(node.range, pattern.offset(index), lines);
                let priority = pattern.priority(index);
                let ghost old_canvas = *canvas;
                canvas.paint(range.start_byte..range.end_byte, group, priority);
                assert(group_text(group) == match role_at(*rules, index) {
                    CaptureRole::Group(name) => Some(name@),
                    _ => None,
                });
                let ghost target = painted(before, range.start_byte, range.end_byte, group_text(group), priority);
                assert forall|k: int| 0 <= k < cells_of(*canvas).0.len() implies cells_of(*canvas).0[k]
                    == target.0[k] && cells_of(*canvas).1[k] == target.1[k] by {
                    assert(old_canvas.priorities()[k] == before.1[k]);
                    assert(cells_of(old_canvas).0[k] == group_text(old_canvas.groups()[k]));
                    assert(cells_of(*canvas).0[k] == group_text(canvas.groups()[k]));
                }
                assert(cells_of(*canvas).0 =~= painted(
                    before,
                    range.start_byte,
                    range.end_byte,
                    match role_at(*rules, index) {
                        CaptureRole::Group(name) => Some(name@),
                        _ => None,
                    },
                    priority,
                ).0);
                assert(cells_of(*canvas).1 =~= painted(
                    before,
                    range.start_byte,
                    range.end_byte,
                    group_text(group),
                    priority,
                ).1);
            }
        }
        i += 1;
    }
    assert(events@.take(events@.len() as int) =~= events@);
}

/// One embedded region to highlight with another language.
#[derive(Debug)]
pub struct Region {
    pub language: String,
    pub ranges: Vec<Range>,
}

/// Where the injections query of a language keeps its captures: the one for
/// the embedded text, and the one naming the embedded language.
#[derive(Debug, Clone, Copy)]
pub struct InjectionCaptures {
    pub content: Option<u32>,
    pub language: Option<u32>,
}

/// The position of the first node a capture took in a match, from `i` on.
pub open spec fn first_capture(captures: Seq<(u32, NodeFacts)>, capture: u32, i: int) -> Option<int>
    decreases captures.len() - i,
{
    if i < 0 || i >= captures.len() {
        None
    } else if captures[i].0 == capture {
        Some(i)
    } else {
        first_capture(captures, capture, i + 1)
    }
}

/// The text of `code` between two byte offsets, when both are character
/// boundaries in order within it.
pub open spec fn text_between(code: &str, start: usize, end: usize) -> Option<Seq<char>> {
    let b = code.spec_bytes();
    if start <= end <= b.len() && is_char_boundary(b, start as int) && is_char_boundary(b, end as int) {
        Some(decode_utf8(b.subrange(start as int, end as int)))
    } else {
        None
    }
}

/// Text taken from a capture, after the pattern's `#gsub!` for it.
pub open spec fn substituted(meta: MetadataView, capture: u32, text: Seq<char>) -> Seq<char> {
    match latest(meta.3, capture) {
        None => text,
        Some((source, template)) => lossy_text(
            regex_replace_all(source, false, true, encode_utf8(text), encode_utf8(template)),
        ),
    }
}

/// The language a match of an injections query names, as written: the host
/// language itself, the host's parent, a fixed name, or the text of the
/// language capture after its substitution.
pub open spec fn named_language(
    rules: QueryRules,
    m: MatchFacts,
    code: &str,
    language: Seq<char>,
    parent: Option<Seq<char>>,
    captures: InjectionCaptures,
) -> Option<Seq<char>> {
    let meta = meta_at(rules, m.pattern_index);
    let (fixed, _, _, own, from_parent) = meta.4;
    if own {
        Some(language)
    } else if from_parent {
        Some(
            match parent {
                Some(p) => p,
                None => language,
            },
        )
    } else if fixed is Some {
        fixed
    } else {
        match captures.language {
            None => None,
            Some(c) => match first_capture(m.captures@, c, 0) {
                None => None,
                Some(k) => match text_between(
                    code,
                    m.captures@[k].1.range.start_byte,
                    m.captures@[k].1.range.end_byte,
                ) {
                    None => None,
                    Some(text) => Some(substituted(meta, c, text)),
                },
            },
        }
    }
}

/// A language as written, resolved to a canonical id the way a fence tag is;
/// kept as written when it resolves to nothing.
pub open spec fn canonical(registry: Registry, named: Seq<char>) -> Seq<char> {
    match resolved(registry.languages(), registry.filetype_aliases(), named) {
        Some(k) => registry.languages()[k].name@,
        None => named,
    }
}

/// The ranges the content captures of a match make up, from the `i`-th
/// capture on.
pub open spec fn content_of(
    rules: QueryRules,
    lines: LineIndex,
    m: MatchFacts,
    content: u32,
    i: int,
) -> Seq<Range>
    decreases m.captures@.len() - i,
{
    if i < 0 || i >= m.captures@.len() {
        seq![]
    } else {
        let (index, node) = m.captures@[i];
        let meta = meta_at(rules, m.pattern_index);
        let here = if index == content {
            content_spec(node.children@, offset_spec(node.range, latest(meta.2, index), lines), meta.4.2)
        } else {
            seq![]
        };
        here + content_of(rules, lines, m, content, i + 1)
    }
}

/// Whether `a` comes before `b` byte by byte, a prefix first.
pub open spec fn lex_less(a: Seq<u8>, b: Seq<u8>) -> bool
    decreases a.len(),
{
    if a.len() == 0 {
        b.len() > 0
    } else if b.len() == 0 {
        false
    } else if a[0] != b[0] {
        a[0] < b[0]
    } else {
        lex_less(a.drop_first(), b.drop_first())
    }
}

/// Whether key `a` comes before key `b`: by pattern, then by language.
pub open spec fn key_less(a: (usize, Seq<char>), b: (usize, Seq<char>)) -> bool {
    a.0 < b.0 || (a.0 == b.0 && lex_less(encode_utf8(a.1), encode_utf8(b.1)))
}

/// Combined regions in progress: each pattern and language with its ranges.
pub type Combined = Seq<((usize, Seq<char>), Seq<Range>)>;

/// The entry for `key`, from `i` on.
pub open spec fn entry_of(list: Combined, key: (usize, Seq<char>), i: int) -> Option<int>
    decreases list.len() - i,
{
    if i < 0 || i >= list.len() {
        None
    } else if list[i].0 == key {
        Some(i)
    } else {
        entry_of(list, key, i + 1)
    }
}

/// Where a new key goes, from `i` on: before the first key after it.
pub open spec fn key_position(list: Combined, key: (usize, Seq<char>), i: int) -> int
    decreases list.len() - i,
{
    if i < 0 || i >= list.len() {
        list.len() as int
    } else if key_less(key, list[i].0) {
        i
    } else {
        key_position(list, key, i + 1)
    }
}

/// `list` with `ranges` added under `key`: appended to its entry, or a new
/// entry in key order.
pub open spec fn combine(list: Combined, key: (usize, Seq<char>), ranges: Seq<Range>) -> Combined {
    match entry_of(list, key, 0) {
        Some(i) => list.update(i, (key, list[i].1 + ranges)),
        None => list.insert(key_position(list, key, 0), (key, ranges)),
    }
}

/// The regions, and the combined ones in progress, after one more match: a
/// match whose conditions fail, that names no language, or whose content is
/// empty adds nothing; a combined pattern adds to its entry; any other adds a
/// region of its own.
pub open spec fn injection_step(
    rules: QueryRules,
    registry: Registry,
    lines: LineIndex,
    code: &str,
    language: Seq<char>,
    parent: Option<Seq<char>>,
    captures: InjectionCaptures,
    content: u32,
    state: (Seq<(Seq<char>, Seq<Range>)>, Combined),
    m: MatchFacts,
) -> (Seq<(Seq<char>, Seq<Range>)>, Combined) {
    let (regions, combined) = state;
    if !accepted(rules, m, code.spec_bytes()) {
        state
    } else {
        match named_language(rules, m, code, language, parent, captures) {
            None => state,
            Some(named) => {
                let injected = canonical(registry, named);
                let ranges = content_of(rules, lines, m, content, 0);
                if ranges.len() == 0 {
                    state
                } else if meta_at(rules, m.pattern_index).4.1 {
                    (regions, combine(combined, (m.pattern_index, injected), ranges))
                } else {
                    (regions.push((injected, merged(sorted_nonempty(ranges)))), combined)
                }
            },
        }
    }
}

/// The regions, and the combined ones in progress, after a run of matches.
pub open spec fn injections_of(
    rules: QueryRules,
    registry: Registry,
    lines: LineIndex,
    code: &str,
    language: Seq<char>,
    parent: Option<Seq<char>>,
    captures: InjectionCaptures,
    content: u32,
    matches: Seq<MatchFacts>,
) -> (Seq<(Seq<char>, Seq<Range>)>, Combined)
    decreases matches.len(),
{
    if matches.len() == 0 {
        (seq![], seq![])
    } else {
        injection_step(
            rules,
            registry,
            lines,
            code,
            language,
            parent,
            captures,
            content,
            injections_of(
                rules,
                registry,
                lines,
                code,
                language,
                parent,
                captures,
                content,
                matches.drop_last(),
            ),
            matches.last(),
        )
    }
}

/// The regions that have at least one range.
pub open spec fn with_ranges(regions: Seq<(Seq<char>, Seq<Range>)>) -> Seq<(Seq<char>, Seq<Range>)>
    decreases regions.len(),
{
    if regions.len() == 0 {
        seq![]
    } else {
        let rest = with_ranges(regions.drop_last());
        if regions.last().1.len() > 0 {
            rest.push(regions.last())
        } else {
            rest
        }
    }
}

/// The regions to highlight with other languages: those of single matches
/// in order, then the combined ones in order of pattern and language, each
/// with its ranges normalized, leaving out any left with no range.
pub open spec fn regions_spec(
    rules: QueryRules,
    registry: Registry,
    lines: LineIndex,
    code: &str,
    language: Seq<char>,
    parent: Option<Seq<char>>,
    captures: InjectionCaptures,
    query_is_empty: bool,
    matches: Seq<MatchFacts>,
) -> Seq<(Seq<char>, Seq<Range>)> {
    match captures.content {
        None => seq![],
        Some(content) => if query_is_empty {
            seq![]
        } else {
            let (regions, combined) = injections_of(
                rules,
                registry,
                lines,
                code,
                language,
                parent,
                captures,
                content,
                matches,
            );
            with_ranges(
                regions + combined.map_values(
                    |entry: ((usize, Seq<char>), Seq<Range>)|
                        (entry.0.1, merged(sorted_nonempty(entry.1))),
                ),
            )
        },
    }
}

/// Work out which language a match of an injections query injects, as a
/// canonical language id.
pub fn injected_language(
    rules: &QueryRules,
    registry: &Registry,
    matched: &MatchFacts,
    code: &str,
    language: &str,
    parent: Option<&str>,
    captures: InjectionCaptures,
) -> (r: Option<String>)
    requires
        rules.wf(),
    ensures
        match named_language(
            *rules,
            *matched,
            code,
            language@,
            match parent {
                Some(p) => Some(p@),
                None => None,
            },
            captures,
        ) {
            Some(named) => r is Some && r->0@ == canonical(*registry, named),
            None => r is None,
        },
{
    let pattern = rules.pattern(matched.pattern_index);
    let named: String = if pattern.injection().own_language {
        String::from_str(language)
    } else if pattern.injection().parent_language {
        match parent {
            Some(p) => String::from_str(p),
            None => String::from_str(language),
        }
    } else if let Some(fixed) = &pattern.injection().language {
        fixed.clone()
    } else {
        let capture = captures.language?;
        let mut k: usize = 0;
        while k < matched.captures.len() && matched.captures[k].0 != capture
            invariant
                k <= matched.captures@.len(),
                first_capture(matched.captures@, capture, 0) == first_capture(
                    matched.captures@,
                    capture,
                    k as int,
                ),
            decreases matched.captures@.len() - k,
        {
            k += 1;
        }
        if k == matched.captures.len() {
            return None;
        }
        let node = &matched.captures[k].1;
        let text = str_get(code, node.range.start_byte, node.range.end_byte)?;
        pattern.substitute(capture, text)
    };
    match registry.resolve_language(named.as_str()) {
        Some(found) => Some(String::from_str(found.name.as_str())),
        None => Some(named),
    }
}

/// The ranges the content captures of a match make up.
pub fn match_content(rules: &QueryRules, lines: &LineIndex, matched: &MatchFacts, content: u32) -> (r:
    Vec<Range>)
    requires
        rules.wf(),
        lines.wf(),
    ensures
        r@ == content_of(*rules, *lines, *matched, content, 0),
{
    let pattern = rules.pattern(matched.pattern_index);
    let mut ranges: Vec<Range> = Vec::new();
    let mut k: usize = 0;
    while k < matched.captures.len()
        invariant
            k <= matched.captures@.len(),
            rules.wf(),
            lines.wf(),
            pattern.view_of() == meta_at(*rules, matched.pattern_index),
            content_of(*rules, *lines, *matched, content, 0) == ranges@ + content_of(
                *rules,
                *lines,
                *matched,
                content,
                k as int,
            ),
        decreases matched.captures@.len() - k,
    {
        let ghost before = ranges@;
        let index = matched.captures[k].0;
        let node = &matched.captures[k].1;
        if index == content {
            let range = offset_range(node.range, pattern.offset(index), lines);
            content_ranges(node.children.as_slice(), range, pattern.injection().include_children, &mut ranges);
        }
        assert(before + content_of(*rules, *lines, *matched, content, k as int) =~= ranges@
            + content_of(*rules, *lines, *matched, content, k + 1));
        k += 1;
    }
    assert(ranges@ + Seq::<Range>::empty() =~= ranges@);
    ranges
}

/// Whether `a` comes before `b` byte by byte.
pub fn str_less(a: &str, b: &str) -> (r: bool)
    ensures
        r == lex_less(a.spec_bytes(), b.spec_bytes()),
{
    let x = a.as_bytes();
    let y = b.as_bytes();
    let mut i: usize = 0;
    while i < x.len() && i < y.len() && x[i] == y[i]
        invariant
            i <= x@.len(),
            i <= y@.len(),
            lex_less(x@, y@) == lex_less(x@.skip(i as int), y@.skip(i as int)),
        decreases x@.len() - i,
    {
        assert(x@.skip(i as int).drop_first() =~= x@.skip(i + 1));
        assert(y@.skip(i as int).drop_first() =~= y@.skip(i + 1));
        i += 1;
    }
    if i == x.len() {
        i < y.len()
    } else if i == y.len() {
        false
    } else {
        assert(x@.skip(i as int)[0] == x@[i as int] && y@.skip(i as int)[0] == y@[i as int]);
        x[i] < y[i]
    }
}

/// Combined regions in progress as plain values.
pub open spec fn combined_view(list: Seq<(usize, String, Vec<Range>)>) -> Combined {
    list.map_values(|e: (usize, String, Vec<Range>)| ((e.0, e.1@), e.2@))
}

/// Add `ranges` under `(pattern, language)`.
fn combine_exec(list: &mut Vec<(usize, String, Vec<Range>)>, pattern: usize, language: String, ranges: Vec<Range>)
    ensures
        combined_view(final(list)@) == combine(combined_view(old(list)@), (pattern, language@), ranges@),
{
    let ghost v = combined_view(list@);
    let ghost key = (pattern, language@);
    let mut i: usize = 0;
    while i < list.len()
        invariant
            i <= list@.len(),
            v == combined_view(list@),
            list@ == old(list)@,
            key == (pattern, language@),
            entry_of(v, key, 0) == entry_of(v, key, i as int),
        decreases list@.len() - i,
    {
        assert(v[i as int] == ((list@[i as int].0, list@[i as int].1@), list@[i as int].2@));
        if list[i].0 == pattern && str_eq(list[i].1.as_str(), language.as_str()) {
            assert(list@[i as int].0 == pattern);
            assert(list@[i as int].1@ == language@);
            assert(v[i as int].0 == key);
            assert(entry_of(v, key, 0) == Some(i as int));
            let ghost old_entry = list@[i as int];
            let mut entry = list.remove(i);
            let mut more = ranges;
            entry.2.append(&mut more);
            assert(entry.2@ == old_entry.2@ + ranges@);
            list.insert(i, entry);
            assert(list@[i as int].2@ == old_entry.2@ + ranges@);
            assert(combined_view(list@)[i as int] == (key, v[i as int].1 + ranges@));
            assert(combined_view(list@) =~= v.update(i as int, (key, v[i as int].1 + ranges@)));
            return;
        }
        i += 1;
    }
    let mut j: usize = 0;
    while j < list.len() && !(pattern < list[j].0 || (pattern == list[j].0 && str_less(
        language.as_str(),
        list[j].1.as_str(),
    )))
        invariant
            j <= list@.len(),
            v == combined_view(list@),
            list@ == old(list)@,
            key == (pattern, language@),
            entry_of(v, key, 0) is None,
            key_position(v, key, 0) == key_position(v, key, j as int),
        decreases list@.len() - j,
    {
        assert(v[j as int] == ((list@[j as int].0, list@[j as int].1@), list@[j as int].2@));
        j += 1;
    }
    proof {
        if j < list@.len() {
            assert(v[j as int] == ((list@[j as int].0, list@[j as int].1@), list@[j as int].2@));
        }
    }
    let ghost rs = ranges@;
    list.insert(j, (pattern, language, ranges));
    assert(combined_view(list@) =~= v.insert(j as int, (key, rs)));
}

/// Add what one match of an injections query describes.
fn add_match(
    rules: &QueryRules,
    registry: &Registry,
    captures: InjectionCaptures,
    content: u32,
    matched: &MatchFacts,
    code: &str,
    lines: &LineIndex,
    language: &str,
    parent: Option<&str>,
    regions: &mut Vec<Region>,
    combined: &mut Vec<(usize, String, Vec<Range>)>,
)
    requires
        rules.wf(),
        lines.wf(),
        captures.content == Some(content),
    ensures
        (
            final(regions)@.map_values(|region: Region| (region.language@, region.ranges@)),
            combined_view(final(combined)@),
        ) == injection_step(
            *rules,
            *registry,
            *lines,
            code,
            language@,
            match parent {
                Some(p) => Some(p@),
                None => None,
            },
            captures,
            content,
            (
                old(regions)@.map_values(|region: Region| (region.language@, region.ranges@)),
                combined_view(old(combined)@),
            ),
            *matched,
        ),
{
    let ghost before = regions@.map_values(|region: Region| (region.language@, region.ranges@));
    if !rules.accepts(matched, code.as_bytes()) {
        return;
    }
    let injected = match injected_language(rules, registry, matched, code, language, parent, captures) {
        None => {
            return;
        },
        Some(injected) => injected,
    };
    let ranges = match_content(rules, lines, matched, content);
    if ranges.len() == 0 {
        return;
    }
    let pattern = rules.pattern(matched.pattern_index);
    if pattern.injection().combined {
        combine_exec(combined, matched.pattern_index, injected, ranges);
    } else {
        let normalized = normalize(ranges);
        regions.push(Region { language: injected, ranges: normalized });
        assert(regions@.map_values(|region: Region| (region.language@, region.ranges@)) =~= before.push(
            (regions@.last().language@, regions@.last().ranges@),
        ));
    }
}

/// The regions of single matches, then the combined ones, each normalized,
/// leaving out any with no range.
fn collect_regions(regions: Vec<Region>, combined: Vec<(usize, String, Vec<Range>)>) -> (out: Vec<
    Region,
>)
    ensures
        out@.map_values(|region: Region| (region.language@, region.ranges@)) == with_ranges(
            regions@.map_values(|region: Region| (region.language@, region.ranges@))
                + combined_view(combined@).map_values(
                |entry: ((usize, Seq<char>), Seq<Range>)|
                    (entry.0.1, merged(sorted_nonempty(entry.1))),
            ),
        ),
{
    let mut regions = regions;
    let mut combined = combined;
    let ghost singles = regions@.map_values(|region: Region| (region.language@, region.ranges@));
    let ghost pending = combined_view(combined@);
    let ghost all = singles + pending.map_values(
        |entry: ((usize, Seq<char>), Seq<Range>)| (entry.0.1, merged(sorted_nonempty(entry.1))),
    );
    let mut out: Vec<Region> = Vec::new();
    let mut k: usize = 0;
    let n = regions.len();
    assert(out@.map_values(|region: Region| (region.language@, region.ranges@)) =~= with_ranges(
        all.take(0),
    ));
    while regions.len() > 0
        invariant
            k + regions@.len() == n,
            n == singles.len(),
            regions@.map_values(|region: Region| (region.language@, region.ranges@)) == singles.skip(
                k as int,
            ),
            all == singles + pending.map_values(
                |entry: ((usize, Seq<char>), Seq<Range>)|
                    (entry.0.1, merged(sorted_nonempty(entry.1))),
            ),
            out@.map_values(|region: Region| (region.language@, region.ranges@)) == with_ranges(
                all.take(k as int),
            ),
        decreases regions@.len(),
    {
        let ghost before_out = out@.map_values(|region: Region| (region.language@, region.ranges@));
        let ghost rest = regions@;
        let region = regions.remove(0);
        assert(all.take(k + 1).drop_last() =~= all.take(k as int));
        assert(all[k as int] == singles[k as int]);
        assert(singles.skip(k as int)[0] == singles[k as int]);
        assert(rest.map_values(|region: Region| (region.language@, region.ranges@))[0] == (
            region.language@,
            region.ranges@,
        ));
        assert(regions@.map_values(|region: Region| (region.language@, region.ranges@)) =~= singles.skip(
            k + 1,
        ));
        if region.ranges.len() > 0 {
            out.push(region);
            assert(out@.map_values(|region: Region| (region.language@, region.ranges@)) =~= before_out.push(
                all[k as int],
            ));
        }
        k += 1;
    }
    let m = combined.len();
    let mut j: usize = 0;
    while combined.len() > 0
        invariant
            j + combined@.len() == m,
            m == pending.len(),
            k == singles.len(),
            combined_view(combined@) == pending.skip(j as int),
            all == singles + pending.map_values(
                |entry: ((usize, Seq<char>), Seq<Range>)|
                    (entry.0.1, merged(sorted_nonempty(entry.1))),
            ),
            out@.map_values(|region: Region| (region.language@, region.ranges@)) == with_ranges(
                all.take(k + j),
            ),
        decreases combined@.len(),
    {
        let ghost before_out = out@.map_values(|region: Region| (region.language@, region.ranges@));
        let ghost rest = combined@;
        let (_, language_id, ranges) = combined.remove(0);
        assert(all.take(k + j + 1).drop_last() =~= all.take(k + j));
        assert(pending.skip(j as int)[0] == pending[j as int]);
        assert(combined_view(rest)[0] == ((rest[0].0, language_id@), ranges@));
        assert(all[k + j] == (pending[j as int].0.1, merged(sorted_nonempty(pending[j as int].1))));
        assert(combined_view(combined@) =~= pending.skip(j + 1));
        let normalized = normalize(ranges);
        if normalized.len() > 0 {
            out.push(Region { language: language_id, ranges: normalized });
            assert(out@.map_values(|region: Region| (region.language@, region.ranges@)) =~= before_out.push(
                all[k + j],
            ));
        }
        j += 1;
    }
    assert(all.take(k + j) =~= all);
    out
}

/// The regions to highlight with other languages that the matches of an
/// injections query describe: `language` is the layer's own language and
/// `parent` the language of the layer around it.
pub fn find_injections(
    rules: &QueryRules,
    registry: &Registry,
    captures: InjectionCaptures,
    query_is_empty: bool,
    matches: &[MatchFacts],
    code: &str,
    lines: &LineIndex,
    language: &str,
    parent: Option<&str>,
) -> (r: Vec<Region>)
    requires
        rules.wf(),
        lines.wf(),
    ensures
        r@.map_values(|region: Region| (region.language@, region.ranges@)) == regions_spec(
            *rules,
            *registry,
            *lines,
            code,
            language@,
            match parent {
                Some(p) => Some(p@),
                None => None,
            },
            captures,
            query_is_empty,
            matches@,
        ),
{
    let content = match captures.content {
        Some(content) => content,
        None => {
            let none: Vec<Region> = Vec::new();
            assert(none@.map_values(|region: Region| (region.language@, region.ranges@)) =~= seq![]);
            return none;
        },
    };
    if query_is_empty {
        let none: Vec<Region> = Vec::new();
        assert(none@.map_values(|region: Region| (region.language@, region.ranges@)) =~= seq![]);
        return none;
    }
    let ghost parent_view = match parent {
        Some(p) => Some(p@),
        None => None,
    };
    let mut regions: Vec<Region> = Vec::new();
    let mut combined: Vec<(usize, String, Vec<Range>)> = Vec::new();
    let mut i: usize = 0;
    assert(regions@.map_values(|region: Region| (region.language@, region.ranges@)) =~= seq![]);
    assert(combined_view(combined@) =~= seq![]);
    while i < matches.len()
        invariant
            i <= matches@.len(),
            rules.wf(),
            lines.wf(),
            captures.content == Some(content),
            parent_view == match parent {
                Some(p) => Some(p@),
                None => None,
            },
            injections_of(
                *rules,
                *registry,
                *lines,
                code,
                language@,
                parent_view,
                captures,
                content,
                matches@.take(i as int),
            ) == (
                regions@.map_values(|region: Region| (region.language@, region.ranges@)),
                combined_view(combined@),
            ),
        decreases matches@.len() - i,
    {
        let matched = &matches[i];
        assert(matches@.take(i + 1).drop_last() =~= matches@.take(i as int));
        assert(matches@.take(i + 1).last() == matches@[i as int]);
        add_match(
            rules,
            registry,
            captures,
            content,
            matched,
            code,
            lines,
            language,
            parent,
            &mut regions,
            &mut combined,
        );
        i += 1;
    }
    assert(matches@.take(matches@.len() as int) =~= matches@);
    collect_regions(regions, combined)
}


} // verus!

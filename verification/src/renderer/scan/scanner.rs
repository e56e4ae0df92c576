//! Locating highlightable code in a chapter.
//!
//! Byte ranges come from pulldown-cmark -- the same parser mdBook itself uses
//! -- so what is replaced is exactly what mdBook would have rendered.
//!
//! Three shapes are recognised:
//!
//! 1. a fenced block at column 0;
//! 2. a fenced block inside a list item or block quote, where the reported
//!    range starts at the backticks and so leaves the container prefix on the
//!    line intact;
//! 3. an inline span written ``` ```lang`code``` ```, which a markdown parser
//!    reads as a code span whose content is ``lang`code``.
use mdbook_markdown::pulldown_cmark::{CodeBlockKind, Event, Tag, TagEnd};
use mdbook_markdown::{new_cmark_parser, MarkdownOptions};
use vstd::prelude::*;
use vstd::string::StringSliceAdditionalSpecFns;

use crate::registry::lookup::{resolved, Registry};
use crate::renderer::scan::filter::{passes, Filter};
use crate::renderer::scan::task::{HighlightTask, TaskKind};
use crate::text::{chars_of, is_white_space, is_white_space_exec, push_char, str_eq, string_of};

verus! {

broadcast use vstd::seq_lib::group_seq_properties;

/// Info-string token that leaves one block to mdBook.
///
/// Useful for blocks that need mdBook's own treatment, such as a Rust
/// playground example whose hidden `#` lines are stripped by mdBook's
/// JavaScript.
pub const OPT_OUT: &'static str = "no-treesitter";

/// What the markdown parser reports about a chapter, reduced to what the
/// scanner reads, with the byte offsets it reports.
#[derive(Debug)]
pub enum MarkdownEvent {
    /// A fenced code block opens, with its info string.
    FencedStart { info: String, start: usize },
    /// An indented code block opens.
    IndentedStart,
    /// Text inside the current element.
    Text { text: String },
    /// A code block closes.
    CodeBlockEnd { end: usize },
    /// An inline code span, with its content.
    Code { text: String, start: usize, end: usize },
    /// Anything else.
    Other,
}

/// The events mdBook's markdown parser reports for a chapter.
pub uninterp spec fn cmark_events(content: Seq<char>) -> Seq<MarkdownEvent>;

/// Whether every byte offset the events carry lies within a text of `n`
/// bytes, and an inline span's start is not past its end.
pub open spec fn events_within(events: Seq<MarkdownEvent>, n: int) -> bool {
    forall|k: int|
        0 <= k < events.len() ==> match #[trigger] events[k] {
            MarkdownEvent::FencedStart { start, .. } => start <= n,
            MarkdownEvent::CodeBlockEnd { end } => end <= n,
            MarkdownEvent::Code { start, end, .. } => start <= end <= n,
            _ => true,
        }
}

/// `mdbook_markdown::new_cmark_parser` with mdBook's default options, run
/// over the chapter with byte offsets: the contract claims that the events
/// are those the parser reports for this text, each reduced to the variant
/// and fields the scanner reads, and, as `into_offset_iter` documents each
/// offset as a byte range of the source, that those ranges lie within it.
#[verifier::external_body]
fn markdown_events(content: &str) -> (events: Vec<MarkdownEvent>)
    ensures
        events@ == cmark_events(content@),
        events_within(events@, content.spec_bytes().len() as int),
{
    let mut events = Vec::new();
    for (event, range) in new_cmark_parser(content, &MarkdownOptions::default()).into_offset_iter() {
        events.push(match event {
            Event::Start(Tag::CodeBlock(CodeBlockKind::Fenced(info))) => MarkdownEvent::FencedStart { info: info.to_string(), start: range.start },
            Event::Start(Tag::CodeBlock(CodeBlockKind::Indented)) => MarkdownEvent::IndentedStart,
            Event::Text(text) => MarkdownEvent::Text { text: text.to_string() },
            Event::End(TagEnd::CodeBlock) => MarkdownEvent::CodeBlockEnd { end: range.end },
            Event::Code(text) => MarkdownEvent::Code { text: text.to_string(), start: range.start, end: range.end },
            _ => MarkdownEvent::Other,
        });
    }
    events
}

/// A character that separates the tokens of an info string.
pub open spec fn is_separator(c: char) -> bool {
    is_white_space(c) || c == ','
}

/// Splitting `s` from `i` on, with the token `current` in progress and the
/// tokens `done` complete: the tokens are the maximal runs of characters that
/// are not separators.
pub open spec fn split_tokens(s: Seq<char>, i: int, current: Seq<char>, done: Seq<Seq<char>>) -> Seq<
    Seq<char>,
>
    decreases s.len() - i,
{
    if i < 0 || i >= s.len() {
        if current.len() > 0 {
            done.push(current)
        } else {
            done
        }
    } else if is_separator(s[i]) {
        split_tokens(
            s,
            i + 1,
            seq![],
            if current.len() > 0 {
                done.push(current)
            } else {
                done
            },
        )
    } else {
        split_tokens(s, i + 1, current.push(s[i]), done)
    }
}

/// The tokens of an info string.
pub open spec fn tokens(s: Seq<char>) -> Seq<Seq<char>> {
    split_tokens(s, 0, seq![], seq![])
}

/// Whether a token after the first opts the block out.
pub open spec fn opted_out(tokens: Seq<Seq<char>>) -> bool {
    exists|k: int| 1 <= k < tokens.len() && tokens[k] == OPT_OUT@
}

/// The language a tag resolves to, when the filter lets it through.
pub open spec fn chosen(registry: Registry, filter: Filter, tag: Seq<char>) -> Option<Seq<char>> {
    match resolved(registry.languages(), registry.filetype_aliases(), tag) {
        Some(k) => if passes(
            filter.only_names(),
            filter.exclude_names(),
            registry.languages()[k].name@,
        ) {
            Some(registry.languages()[k].name@)
        } else {
            None
        },
        None => None,
    }
}

/// The language a fence info string selects: its first token, unless a
/// later token opts the block out.
pub open spec fn fence_choice(registry: Registry, filter: Filter, info: Seq<char>) -> Option<
    Seq<char>,
> {
    let ts = tokens(info);
    if ts.len() == 0 || opted_out(ts) {
        None
    } else {
        chosen(registry, filter, ts[0])
    }
}

/// The first `` ` `` in `t` from `i` on.
pub open spec fn backtick_from(t: Seq<char>, i: int) -> Option<int>
    decreases t.len() - i,
{
    if i < 0 || i >= t.len() {
        None
    } else if t[i] == '`' {
        Some(i)
    } else {
        backtick_from(t, i + 1)
    }
}

/// The language and code of an inline span: the tag is everything before the
/// first backtick, the code everything after it.
pub open spec fn inline_choice(registry: Registry, filter: Filter, text: Seq<char>) -> Option<
    (Seq<char>, Seq<char>),
> {
    match backtick_from(text, 0) {
        None => None,
        Some(p) => match chosen(registry, filter, text.take(p)) {
            Some(language) => Some((language, text.skip(p + 1))),
            None => None,
        },
    }
}

/// Whether byte `offset` of `content` starts a line.
pub open spec fn starts_line(content: Seq<u8>, offset: int) -> bool {
    offset == 0 || (0 < offset <= content.len() && content[offset - 1] == 0x0a)
}

/// A task as plain values: range, language, code and kind.
pub open spec fn task_view(task: HighlightTask) -> (int, int, Seq<char>, Seq<char>, TaskKind) {
    (task.range.start as int, task.range.end as int, task.language@, task.code@, task.kind)
}

/// Tasks as plain values.
pub open spec fn task_views(tasks: Seq<HighlightTask>) -> Seq<(int, int, Seq<char>, Seq<char>, TaskKind)> {
    tasks.map_values(|task: HighlightTask| task_view(task))
}

/// A fenced block being accumulated: where it starts, its language when it
/// is one to highlight, and its code so far.
pub type OpenView = Option<(int, Option<Seq<char>>, Seq<char>)>;

/// The scanner's state after one more event.
pub open spec fn scan_step(
    content: Seq<u8>,
    registry: Registry,
    filter: Filter,
    state: (OpenView, Seq<(int, int, Seq<char>, Seq<char>, TaskKind)>),
    event: MarkdownEvent,
) -> (OpenView, Seq<(int, int, Seq<char>, Seq<char>, TaskKind)>) {
    let (open, tasks) = state;
    match event {
        MarkdownEvent::FencedStart { info, start } => (
            Some((start as int, fence_choice(registry, filter, info@), seq![])),
            tasks,
        ),
        MarkdownEvent::IndentedStart => (None, tasks),
        MarkdownEvent::Text { text } => match open {
            Some((start, language, code)) => (Some((start, language, code + text@)), tasks),
            None => (None, tasks),
        },
        MarkdownEvent::CodeBlockEnd { end } => match open {
            Some((start, Some(language), code)) => (
                None,
                tasks.push(
                    (
                        start,
                        end as int,
                        language,
                        code,
                        if starts_line(content, start) {
                            TaskKind::TopLevelFenced
                        } else {
                            TaskKind::NestedFenced
                        },
                    ),
                ),
            ),
            _ => (None, tasks),
        },
        MarkdownEvent::Code { text, start, end } => match inline_choice(registry, filter, text@) {
            Some((language, code)) => (
                open,
                tasks.push((start as int, end as int, language, code, TaskKind::Inline)),
            ),
            None => (open, tasks),
        },
        MarkdownEvent::Other => (open, tasks),
    }
}

/// The scanner's state after a run of events.
pub open spec fn scan_events(
    content: Seq<u8>,
    registry: Registry,
    filter: Filter,
    events: Seq<MarkdownEvent>,
) -> (OpenView, Seq<(int, int, Seq<char>, Seq<char>, TaskKind)>)
    decreases events.len(),
{
    if events.len() == 0 {
        (None, seq![])
    } else {
        scan_step(
            content,
            registry,
            filter,
            scan_events(content, registry, filter, events.drop_last()),
            events.last(),
        )
    }
}

/// The scanner's state stays within a text of `n` bytes while the events
/// do: the open block starts inside it, and every task's range ends inside it.
pub proof fn lemma_scan_within(
    content: Seq<u8>,
    registry: Registry,
    filter: Filter,
    events: Seq<MarkdownEvent>,
    n: int,
)
    requires
        events_within(events, n),
    ensures
        ({
            let (open, tasks) = scan_events(content, registry, filter, events);
            &&& open matches Some((start, _, _)) ==> 0 <= start <= n
            &&& forall|i: int| 0 <= i < tasks.len() ==> 0 <= (#[trigger] tasks[i]).0 <= n && 0 <= tasks[i].1 <= n
        }),
    decreases events.len(),
{
    if events.len() > 0 {
        let before = events.drop_last();
        assert forall|k: int| 0 <= k < before.len() implies match #[trigger] before[k] {
            MarkdownEvent::FencedStart { start, .. } => start <= n,
            MarkdownEvent::CodeBlockEnd { end } => end <= n,
            MarkdownEvent::Code { start, end, .. } => start <= end <= n,
            _ => true,
        } by {
            assert(before[k] == events[k]);
        }
        lemma_scan_within(content, registry, filter, before, n);
        let last = events[events.len() - 1];
        assert(events.last() == last);
        let state = scan_events(content, registry, filter, before);
        let next = scan_step(content, registry, filter, state, last);
        assert(scan_events(content, registry, filter, events) == next);
        let (open, tasks) = state;
        match last {
            MarkdownEvent::CodeBlockEnd { end } => {
                assert(end <= n);
                if let Some((start, Some(language), code)) = open {
                    assert forall|i: int| 0 <= i < next.1.len() implies 0 <= (#[trigger] next.1[i]).0 <= n && 0
                        <= next.1[i].1 <= n by {
                        if i < tasks.len() {
                            assert(next.1[i] == tasks[i]);
                        }
                    }
                }
            },
            MarkdownEvent::Code { text, start, end } => {
                assert(start <= end <= n);
                assert forall|i: int| 0 <= i < next.1.len() implies 0 <= (#[trigger] next.1[i]).0 <= n && 0
                    <= next.1[i].1 <= n by {
                    if i < tasks.len() {
                        assert(next.1[i] == tasks[i]);
                    }
                }
            },
            MarkdownEvent::FencedStart { info, start } => {
                assert(start <= n);
            },
            _ => {},
        }
    }
}

/// Every piece of code in `content` that `filter` allows, in source order,
/// each with a range inside the chapter.
pub fn tasks(content: &str, registry: &Registry, filter: &Filter) -> (r: Vec<HighlightTask>)
    ensures
        task_views(r@) == scan_events(
            content.spec_bytes(),
            *registry,
            *filter,
            cmark_events(content@),
        ).1,
        forall|i: int| 0 <= i < r@.len() ==> (#[trigger] r@[i]).range.start <= content.spec_bytes().len()
            && r@[i].range.end <= content.spec_bytes().len(),
{
    let events = markdown_events(content);
    let r = tasks_from_events(content, events.as_slice(), registry, filter);
    proof {
        lemma_scan_within(
            content.spec_bytes(),
            *registry,
            *filter,
            events@,
            content.spec_bytes().len() as int,
        );
        assert forall|i: int| 0 <= i < r@.len() implies (#[trigger] r@[i]).range.start <= content.spec_bytes().len()
            && r@[i].range.end <= content.spec_bytes().len() by {
            assert(task_views(r@)[i] == task_view(r@[i]));
        }
    }
    r
}

/// A fenced block being accumulated between its start and end events.
struct OpenBlock {
    start: usize,
    /// `None` when the block is not one to highlight.
    language: Option<String>,
    code: String,
}

/// An open block as plain values.
spec fn open_view(open: Option<OpenBlock>) -> OpenView {
    match open {
        Some(block) => Some(
            (
                block.start as int,
                match block.language {
                    Some(l) => Some(l@),
                    None => None,
                },
                block.code@,
            ),
        ),
        None => None,
    }
}

/// Whether an event opens a fenced block or is an inline code span: the only
/// events a task can come from.
pub open spec fn is_code_event(e: MarkdownEvent) -> bool {
    e is FencedStart || e is Code
}

/// Without a fenced block or an inline code span among the events, scanning
/// finds no task and leaves no block open, whatever the table and filter.
pub proof fn lemma_no_code_no_tasks(
    content: Seq<u8>,
    registry: Registry,
    filter: Filter,
    events: Seq<MarkdownEvent>,
)
    requires
        forall|k: int| 0 <= k < events.len() ==> !is_code_event(#[trigger] events[k]),
    ensures
        scan_events(content, registry, filter, events).0 is None,
        scan_events(content, registry, filter, events).1.len() == 0,
    decreases events.len(),
{
    if events.len() > 0 {
        let before = events.drop_last();
        assert forall|k: int| 0 <= k < before.len() implies !is_code_event(#[trigger] before[k]) by {
            assert(before[k] == events[k]);
        }
        lemma_no_code_no_tasks(content, registry, filter, before);
        assert(!is_code_event(events[events.len() - 1]));
    }
}

/// Whether `content` holds any code at all: a fenced block or an inline code
/// span. Where it holds none, no table or filter can find a task in it, so
/// nothing needs to be set up to process it.
pub fn has_code(content: &str) -> (r: bool)
    ensures
        r == exists|k: int| 0 <= k < cmark_events(content@).len() && is_code_event(
            #[trigger] cmark_events(content@)[k],
        ),
        !r ==> forall|registry: Registry, filter: Filter|
            #[trigger] scan_events(content.spec_bytes(), registry, filter, cmark_events(content@)).1.len()
                == 0,
{
    let events = markdown_events(content);
    let mut k: usize = 0;
    while k < events.len()
        invariant
            k <= events@.len(),
            events@ == cmark_events(content@),
            forall|q: int| 0 <= q < k ==> !is_code_event(#[trigger] events@[q]),
        decreases events@.len() - k,
    {
        let code = match &events[k] {
            MarkdownEvent::FencedStart { .. } => true,
            MarkdownEvent::Code { .. } => true,
            _ => false,
        };
        if code {
            assert(is_code_event(cmark_events(content@)[k as int]));
            return true;
        }
        k += 1;
    }
    proof {
        assert forall|registry: Registry, filter: Filter|
            #[trigger] scan_events(content.spec_bytes(), registry, filter, cmark_events(content@)).1.len() == 0 by {
            lemma_no_code_no_tasks(content.spec_bytes(), registry, filter, cmark_events(content@));
        }
    }
    false
}

/// The tasks the parser's `events` for `content` describe, in order.
pub fn tasks_from_events(
    content: &str,
    events: &[MarkdownEvent],
    registry: &Registry,
    filter: &Filter,
) -> (r: Vec<HighlightTask>)
    ensures
        task_views(r@) == scan_events(content.spec_bytes(), *registry, *filter, events@).1,
{
    let ghost text = content.spec_bytes();
    let mut tasks: Vec<HighlightTask> = Vec::new();
    let mut open: Option<OpenBlock> = None;
    let mut i: usize = 0;
    assert(task_views(tasks@) =~= seq![]);
    while i < events.len()
        invariant
            i <= events@.len(),
            text == content.spec_bytes(),
            scan_events(text, *registry, *filter, events@.take(i as int)) == (
                open_view(open),
                task_views(tasks@),
            ),
        decreases events@.len() - i,
    {
        assert(events@.take(i + 1).drop_last() =~= events@.take(i as int));
        assert(events@.take(i + 1).last() == events@[i as int]);
        let ghost before = tasks@;
        match &events[i] {
            MarkdownEvent::FencedStart { info, start } => {
                open = Some(
                    OpenBlock { start: *start, language: fence_language(info.as_str(), registry, filter), code: String::new() },
                );
            },
            MarkdownEvent::IndentedStart => {
                open = None;
            },
            MarkdownEvent::Text { text: piece } => {
                match open {
                    Some(mut block) => {
                        block.code.append(piece.as_str());
                        open = Some(block);
                    },
                    None => {},
                }
            },
            MarkdownEvent::CodeBlockEnd { end } => {
                match open {
                    Some(block) => {
                        match block.language {
                            Some(language) => {
                                let kind = if block.start <= content.as_bytes().len() && at_line_start(
                                    content,
                                    block.start,
                                ) {
                                    TaskKind::TopLevelFenced
                                } else {
                                    TaskKind::NestedFenced
                                };
                                tasks.push(
                                    HighlightTask {
                                        range: block.start..*end,
                                        language,
                                        code: block.code,
                                        kind,
                                    },
                                );
                                assert(task_views(tasks@) =~= task_views(before).push(
                                    task_view(tasks@.last()),
                                ));
                            },
                            None => {},
                        }
                    },
                    None => {},
                }
                open = None;
            },
            MarkdownEvent::Code { text: piece, start, end } => {
                match inline_language(piece.as_str(), registry, filter) {
                    Some((language, code)) => {
                        tasks.push(
                            HighlightTask { range: *start..*end, language, code, kind: TaskKind::Inline },
                        );
                        assert(task_views(tasks@) =~= task_views(before).push(
                            task_view(tasks@.last()),
                        ));
                    },
                    None => {},
                }
            },
            MarkdownEvent::Other => {},
        }
        i += 1;
    }
    assert(events@.take(events@.len() as int) =~= events@);
    tasks
}

/// The tokens of an info string, in order.
fn info_tokens(info: &str) -> (r: Vec<String>)
    ensures
        r@.map_values(|t: String| t@) == tokens(info@),
{
    let ghost s = info@;
    let mut done: Vec<String> = Vec::new();
    let mut current = String::new();
    assert(done@.map_values(|t: String| t@) =~= Seq::<Seq<char>>::empty());
    for c in it: info.chars()
        invariant
            it.seq() == s,
            tokens(s) == split_tokens(
                s,
                it.index() as int,
                current@,
                done@.map_values(|t: String| t@),
            ),
    {
        let ghost i = it.index() as int;
        let ghost done_before = done@;
        if c == ',' || is_white_space_exec(c) {
            if current.unicode_len() > 0 {
                done.push(current);
                assert(done@.map_values(|t: String| t@) =~= done_before.map_values(|t: String| t@).push(
                    done@.last()@,
                ));
            }
            current = String::new();
        } else {
            push_char(&mut current, c);
        }
    }
    if current.unicode_len() > 0 {
        let ghost done_before = done@;
        done.push(current);
        assert(done@.map_values(|t: String| t@) =~= done_before.map_values(|t: String| t@).push(
            done@.last()@,
        ));
    }
    done
}

/// The language a tag selects, when the filter lets it through.
fn choose_language(tag: &str, registry: &Registry, filter: &Filter) -> (r: Option<String>)
    ensures
        match chosen(*registry, *filter, tag@) {
            Some(language) => r is Some && r->0@ == language,
            None => r is None,
        },
{
    let language = registry.resolve_language(tag)?;
    if filter.allows(language.name.as_str()) {
        Some(String::from_str(language.name.as_str()))
    } else {
        None
    }
}

/// The language a fence info string selects, if it is one to highlight.
pub fn fence_language(info: &str, registry: &Registry, filter: &Filter) -> (r: Option<String>)
    ensures
        match fence_choice(*registry, *filter, info@) {
            Some(language) => r is Some && r->0@ == language,
            None => r is None,
        },
{
    let ts = info_tokens(info);
    let ghost tv = ts@.map_values(|t: String| t@);
    if ts.len() == 0 {
        return None;
    }
    let mut k: usize = 1;
    while k < ts.len()
        invariant
            1 <= k <= ts@.len(),
            tv == ts@.map_values(|t: String| t@),
            tv == tokens(info@),
            forall|j: int| 1 <= j < k ==> tv[j] != OPT_OUT@,
        decreases ts@.len() - k,
    {
        if str_eq(ts[k].as_str(), OPT_OUT) {
            assert(tv[k as int] == OPT_OUT@);
            assert(opted_out(tv));
            return None;
        }
        k += 1;
    }
    assert(!opted_out(tv));
    choose_language(ts[0].as_str(), registry, filter)
}

/// Split an inline code span into its language tag and its code.
///
/// ``` ```rust`fn f()``` ``` reaches the scanner as the code span
/// ``rust`fn f()``, so the tag is everything before the first backtick. A
/// span with no backtick, or whose prefix is not a language, is ordinary
/// inline code.
pub fn inline_language(text: &str, registry: &Registry, filter: &Filter) -> (r: Option<(String, String)>)
    ensures
        match inline_choice(*registry, *filter, text@) {
            Some((language, code)) => match r {
                Some((l, c)) => l@ == language && c@ == code,
                None => false,
            },
            None => r is None,
        },
{
    let chars = chars_of(text);
    let mut p: usize = 0;
    while p < chars.len() && chars[p] != '`'
        invariant
            p <= chars@.len(),
            chars@ == text@,
            backtick_from(text@, 0) == backtick_from(text@, p as int),
        decreases chars@.len() - p,
    {
        p += 1;
    }
    if p == chars.len() {
        return None;
    }
    let tag = string_of(chars.as_slice(), 0, p);
    let language = choose_language(tag.as_str(), registry, filter)?;
    let code = string_of(chars.as_slice(), p + 1, chars.len());
    Some((language, code))
}

/// Whether byte `offset` of `content` starts a line.
pub fn at_line_start(content: &str, offset: usize) -> (r: bool)
    requires
        offset <= content.spec_bytes().len(),
    ensures
        r == starts_line(content.spec_bytes(), offset as int),
{
    offset == 0 || content.as_bytes()[offset - 1] == 0x0a
}

} // verus!

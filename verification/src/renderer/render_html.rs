//! Turning highlighted spans into HTML for mdBook.
//!
//! Highlights become CSS classes rather than inline colours, so a book themes
//! code the same way it themes everything else. A dotted capture contributes
//! one class per prefix -- `keyword.function` becomes
//! `ts-keyword ts-keyword-function` -- which gives a stylesheet both the broad
//! group and the specific kind to target, and reproduces Neovim's rule that an
//! unstyled `@keyword.function` falls back to `@keyword`.
//!
//! The output is always a *single line*, with newlines written as `&#10;`.
//! That matters because a code block may sit inside a list item or a block
//! quote, where every physical line needs the container's prefix; keeping the
//! replacement to one line means it inherits the prefix already on the opening
//! fence's line and cannot break out of the container.
use vstd::prelude::*;
use vstd::string::StringSliceAdditionalSpecFns;
use vstd::utf8::*;

use crate::highlight::canvas::Span;
use crate::highlight::overrides::spans_view;
use crate::text::{push_char, str_get};

verus! {

broadcast use vstd::seq_lib::group_seq_properties;

/// Whether a character is an ASCII letter or digit.
pub open spec fn is_ascii_alphanumeric(c: char) -> bool {
    ('0' <= c <= '9') || ('a' <= c <= 'z') || ('A' <= c <= 'Z')
}

/// A character as it may stand in a CSS class: ASCII letters and digits in
/// lower case, anything else as `-`.
pub open spec fn class_char(c: char) -> char {
    if 'A' <= c <= 'Z' {
        ((c as u32) + 32) as char
    } else if is_ascii_alphanumeric(c) {
        c
    } else {
        '-'
    }
}

/// A name reduced to what is safe and conventional in a CSS class.
pub open spec fn sanitized(name: Seq<char>) -> Seq<char> {
    name.map_values(|c: char| class_char(c))
}

/// The last `.` in `g`, if any.
pub open spec fn last_dot(g: Seq<char>) -> Option<int>
    decreases g.len(),
{
    if g.len() == 0 {
        None
    } else if g.last() == '.' {
        Some(g.len() - 1)
    } else {
        last_dot(g.drop_last())
    }
}

/// The class list for a highlight group: one class `ts-` followed by the
/// sanitized group up to each `.` and up to the end, separated by spaces, so
/// `keyword.function` gives `ts-keyword ts-keyword-function`.
pub open spec fn class_list(g: Seq<char>) -> Seq<char>
    decreases g.len(),
{
    match last_dot(g) {
        None => "ts-"@ + sanitized(g),
        Some(d) => if 0 <= d < g.len() {
            class_list(g.take(d)) + " "@ + "ts-"@ + sanitized(g)
        } else {
            "ts-"@ + sanitized(g)
        },
    }
}

/// How one character is written inside the generated HTML.
pub open spec fn escaped_char(c: char) -> Seq<char> {
    if c == '&' {
        "&amp;"@
    } else if c == '<' {
        "&lt;"@
    } else if c == '>' {
        "&gt;"@
    } else if c == '"' {
        "&quot;"@
    } else if c == '\n' {
        "&#10;"@
    } else if c == '\r' {
        seq![]
    } else {
        seq![c]
    }
}

/// Text escaped for the generated HTML.
pub open spec fn escaped(text: Seq<char>) -> Seq<char>
    decreases text.len(),
{
    if text.len() == 0 {
        seq![]
    } else {
        escaped(text.drop_last()) + escaped_char(text.last())
    }
}

/// The text a span covers, when its range is a whole number of characters
/// within the source.
pub open spec fn span_text(source: &str, span: Span) -> Option<Seq<char>> {
    let b = source.spec_bytes();
    let s = span.range.start as int;
    let e = span.range.end as int;
    if s <= e <= b.len() && is_char_boundary(b, s) && is_char_boundary(b, e) {
        Some(decode_utf8(b.subrange(s, e)))
    } else {
        None
    }
}

/// The HTML for one span: escaped text, wrapped in a classed `<span>` when
/// it is highlighted; nothing for a span that does not fit the source.
pub open spec fn rendered_span(source: &str, span: Span) -> Seq<char> {
    match span_text(source, span) {
        None => seq![],
        Some(text) => match span.group {
            None => escaped(text),
            Some(group) => "<span class=\""@ + class_list(group@) + "\">"@ + escaped(text)
                + "</span>"@,
        },
    }
}

/// The HTML for a run of spans.
pub open spec fn rendered(source: &str, spans: Seq<Span>) -> Seq<char>
    decreases spans.len(),
{
    if spans.len() == 0 {
        seq![]
    } else {
        rendered(source, spans.drop_last()) + rendered_span(source, spans.last())
    }
}

/// The HTML for one span given as plain values, over the source's bytes.
pub open spec fn rendered_piece(b: Seq<u8>, span: (int, int, Option<Seq<char>>)) -> Seq<char> {
    let (s, e, group) = span;
    if 0 <= s <= e <= b.len() && is_char_boundary(b, s) && is_char_boundary(b, e) {
        let text = decode_utf8(b.subrange(s, e));
        match group {
            None => escaped(text),
            Some(g) => "<span class=\""@ + class_list(g) + "\">"@ + escaped(text) + "</span>"@,
        }
    } else {
        seq![]
    }
}

/// The HTML for a run of spans given as plain values.
pub open spec fn rendered_plain(b: Seq<u8>, spans: Seq<(int, int, Option<Seq<char>>)>) -> Seq<
    char,
>
    decreases spans.len(),
{
    if spans.len() == 0 {
        seq![]
    } else {
        rendered_plain(b, spans.drop_last()) + rendered_piece(b, spans.last())
    }
}

/// The HTML for spans depends only on the source's bytes and the spans'
/// ranges and groups.
pub proof fn lemma_rendered_plain(source: &str, spans: Seq<Span>)
    ensures
        rendered(source, spans) == rendered_plain(source.spec_bytes(), spans_view(spans)),
    decreases spans.len(),
{
    if spans.len() > 0 {
        assert(spans_view(spans.drop_last()) =~= spans_view(spans).drop_last());
        lemma_rendered_plain(source, spans.drop_last());
    }
}

/// Whether `s` holds no newline.
pub open spec fn one_line(s: Seq<char>) -> bool {
    forall|i: int| 0 <= i < s.len() ==> s[i] != '\n'
}

proof fn lemma_one_line_concat(a: Seq<char>, b: Seq<char>)
    requires
        one_line(a),
        one_line(b),
    ensures
        one_line(a + b),
{
    assert forall|i: int| 0 <= i < (a + b).len() implies (a + b)[i] != '\n' by {
        if i < a.len() {
            assert((a + b)[i] == a[i]);
        } else {
            assert((a + b)[i] == b[i - a.len()]);
        }
    }
}

proof fn lemma_literals_one_line()
    ensures
        one_line("&amp;"@),
        one_line("&lt;"@),
        one_line("&gt;"@),
        one_line("&quot;"@),
        one_line("&#10;"@),
        one_line("ts-"@),
        one_line(" "@),
        one_line("<span class=\""@),
        one_line("\">"@),
        one_line("</span>"@),
        one_line("no-highlight language-none "@),
        one_line("tree-sitter-inline"@),
        one_line("tree-sitter-code"@),
        one_line(" tree-sitter-language-"@),
        one_line("<pre class=\"tree-sitter-block\"><code class=\""@),
        one_line("</code></pre>"@),
        one_line("<code class=\""@),
        one_line("</code>"@),
{
    reveal_strlit("&amp;");
    reveal_strlit("&lt;");
    reveal_strlit("&gt;");
    reveal_strlit("&quot;");
    reveal_strlit("&#10;");
    reveal_strlit("ts-");
    reveal_strlit(" ");
    reveal_strlit("<span class=\"");
    reveal_strlit("\">");
    reveal_strlit("</span>");
    reveal_strlit("no-highlight language-none ");
    reveal_strlit("tree-sitter-inline");
    reveal_strlit("tree-sitter-code");
    reveal_strlit(" tree-sitter-language-");
    reveal_strlit("<pre class=\"tree-sitter-block\"><code class=\"");
    reveal_strlit("</code></pre>");
    reveal_strlit("<code class=\"");
    reveal_strlit("</code>");
}

proof fn lemma_escaped_one_line(text: Seq<char>)
    ensures
        one_line(escaped(text)),
    decreases text.len(),
{
    if text.len() > 0 {
        lemma_escaped_one_line(text.drop_last());
        lemma_literals_one_line();
        let c = text.last();
        if c != '&' && c != '<' && c != '>' && c != '"' && c != '\n' && c != '\r' {
            assert(escaped_char(c) == seq![c]);
        }
        lemma_one_line_concat(escaped(text.drop_last()), escaped_char(c));
    }
}

proof fn lemma_sanitized_one_line(name: Seq<char>)
    ensures
        one_line(sanitized(name)),
{
    assert forall|i: int| 0 <= i < sanitized(name).len() implies sanitized(name)[i] != '\n' by {
        let c = name[i];
        assert(sanitized(name)[i] == class_char(c));
        if 'A' <= c <= 'Z' {
            assert((c as u32) + 32 != 10);
        }
    }
}

proof fn lemma_class_list_one_line(g: Seq<char>)
    ensures
        one_line(class_list(g)),
    decreases g.len(),
{
    lemma_literals_one_line();
    lemma_sanitized_one_line(g);
    lemma_one_line_concat("ts-"@, sanitized(g));
    match last_dot(g) {
        Some(d) => if 0 <= d < g.len() {
            lemma_class_list_one_line(g.take(d));
            lemma_one_line_concat(class_list(g.take(d)), " "@);
            lemma_one_line_concat(class_list(g.take(d)) + " "@, "ts-"@ + sanitized(g));
            assert(class_list(g.take(d)) + " "@ + ("ts-"@ + sanitized(g)) =~= class_list(g.take(d))
                + " "@ + "ts-"@ + sanitized(g));
        },
        None => {},
    }
}

proof fn lemma_rendered_one_line(b: Seq<u8>, spans: Seq<(int, int, Option<Seq<char>>)>)
    ensures
        one_line(rendered_plain(b, spans)),
    decreases spans.len(),
{
    if spans.len() > 0 {
        lemma_rendered_one_line(b, spans.drop_last());
        let (s, e, group) = spans.last();
        lemma_literals_one_line();
        if 0 <= s <= e <= b.len() && is_char_boundary(b, s) && is_char_boundary(b, e) {
            let text = decode_utf8(b.subrange(s, e));
            lemma_escaped_one_line(text);
            match group {
                None => {},
                Some(g) => {
                    lemma_class_list_one_line(g);
                    lemma_one_line_concat("<span class=\""@, class_list(g));
                    lemma_one_line_concat("<span class=\""@ + class_list(g), "\">"@);
                    lemma_one_line_concat("<span class=\""@ + class_list(g) + "\">"@, escaped(text));
                    lemma_one_line_concat(
                        "<span class=\""@ + class_list(g) + "\">"@ + escaped(text),
                        "</span>"@,
                    );
                },
            }
        }
        lemma_one_line_concat(rendered_plain(b, spans.drop_last()), rendered_piece(b, spans.last()));
    }
}

/// The HTML for a block or an inline span is a single line: newlines in the
/// code are written as `&#10;`, so the replacement inherits the container
/// prefix already on the opening fence's line and cannot break out of a list
/// item or a block quote.
pub proof fn lemma_html_is_one_line(language: Seq<char>, source: &str, spans: Seq<Span>)
    ensures
        one_line(
            "<pre class=\"tree-sitter-block\"><code class=\""@ + code_class_list(language, false)
                + "\">"@ + rendered(source, spans) + "</code></pre>"@,
        ),
        one_line(
            "<code class=\""@ + code_class_list(language, true) + "\">"@ + rendered(source, spans)
                + "</code>"@,
        ),
{
    lemma_literals_one_line();
    lemma_rendered_plain(source, spans);
    lemma_rendered_one_line(source.spec_bytes(), spans_view(spans));
    lemma_sanitized_one_line(language);
    let r = rendered(source, spans);
    let inline_kind = "tree-sitter-inline"@;
    let block_kind = "tree-sitter-code"@;
    lemma_one_line_concat("no-highlight language-none "@, inline_kind);
    lemma_one_line_concat("no-highlight language-none "@ + inline_kind, " tree-sitter-language-"@);
    lemma_one_line_concat(
        "no-highlight language-none "@ + inline_kind + " tree-sitter-language-"@,
        sanitized(language),
    );
    lemma_one_line_concat("no-highlight language-none "@, block_kind);
    lemma_one_line_concat("no-highlight language-none "@ + block_kind, " tree-sitter-language-"@);
    lemma_one_line_concat(
        "no-highlight language-none "@ + block_kind + " tree-sitter-language-"@,
        sanitized(language),
    );
    let bc = code_class_list(language, false);
    let ic = code_class_list(language, true);
    let open_block = "<pre class=\"tree-sitter-block\"><code class=\""@;
    lemma_one_line_concat(open_block, bc);
    lemma_one_line_concat(open_block + bc, "\">"@);
    lemma_one_line_concat(open_block + bc + "\">"@, r);
    lemma_one_line_concat(open_block + bc + "\">"@ + r, "</code></pre>"@);
    let open_inline = "<code class=\""@;
    lemma_one_line_concat(open_inline, ic);
    lemma_one_line_concat(open_inline + ic, "\">"@);
    lemma_one_line_concat(open_inline + ic + "\">"@, r);
    lemma_one_line_concat(open_inline + ic + "\">"@ + r, "</code>"@);
}

/// The classes on the `<code>` element.
pub open spec fn code_class_list(language: Seq<char>, is_inline: bool) -> Seq<char> {
    let kind = if is_inline {
        "tree-sitter-inline"@
    } else {
        "tree-sitter-code"@
    };
    "no-highlight language-none "@ + kind + " tree-sitter-language-"@ + sanitized(language)
}

/// Render a fenced code block.
pub fn block(language: &str, source: &str, spans: &[Span]) -> (html: String)
    ensures
        html@ == "<pre class=\"tree-sitter-block\"><code class=\""@ + code_class_list(
            language@,
            false,
        ) + "\">"@ + rendered(source, spans@) + "</code></pre>"@,
{
    let mut html = String::new();
    html.append("<pre class=\"tree-sitter-block\"><code class=\"");
    html.append(code_classes(language, false).as_str());
    html.append("\">");
    html.append(render(source, spans).as_str());
    html.append("</code></pre>");
    html
}

/// Render an inline code span.
pub fn inline(language: &str, source: &str, spans: &[Span]) -> (html: String)
    ensures
        html@ == "<code class=\""@ + code_class_list(language@, true) + "\">"@ + rendered(
            source,
            spans@,
        ) + "</code>"@,
{
    let mut html = String::new();
    html.append("<code class=\"");
    html.append(code_classes(language, true).as_str());
    html.append("\">");
    html.append(render(source, spans).as_str());
    html.append("</code>");
    html
}

/// Render just the highlighted content, without a wrapper. A span whose
/// range does not fit the source is skipped.
pub fn render(source: &str, spans: &[Span]) -> (html: String)
    ensures
        html@ == rendered(source, spans@),
{
    let mut out = String::new();
    let mut i: usize = 0;
    while i < spans.len()
        invariant
            i <= spans@.len(),
            out@ == rendered(source, spans@.take(i as int)),
        decreases spans@.len() - i,
    {
        let span = &spans[i];
        assert(spans@.take(i + 1).drop_last() =~= spans@.take(i as int));
        match str_get(source, span.range.start, span.range.end) {
            None => {},
            Some(text) => match span.group {
                None => escape_into(text, &mut out),
                Some(group) => {
                    out.append("<span class=\"");
                    out.append(class_attribute(group).as_str());
                    out.append("\">");
                    escape_into(text, &mut out);
                    out.append("</span>");
                },
            },
        }
        i += 1;
    }
    assert(spans@.take(spans@.len() as int) =~= spans@);
    out
}

/// The classes on the `<code>` element.
///
/// mdBook runs highlight.js over *every* `<code>` it renders, with no way to
/// turn that off from a preprocessor, and a second pass over spans already
/// produced would wreck them. `language-none` is the lever that works:
/// highlight.js prefers a `language-*` class, finds no such language, and
/// falls back to not highlighting. `no-highlight` says the same thing for the
/// path where no `language-*` class is seen at all.
pub fn code_classes(language: &str, is_inline: bool) -> (classes: String)
    ensures
        classes@ == code_class_list(language@, is_inline),
{
    let kind = if is_inline {
        "tree-sitter-inline"
    } else {
        "tree-sitter-code"
    };
    let mut classes = String::new();
    classes.append("no-highlight language-none ");
    classes.append(kind);
    classes.append(" tree-sitter-language-");
    classes.append(sanitize(language).as_str());
    classes
}

/// The class list for a highlight group.
pub fn class_attribute(group: &str) -> (classes: String)
    ensures
        classes@ == class_list(group@),
{
    let ghost g = group@;
    let mut classes = String::new();
    let mut current = String::new();
    current.append("ts-");
    let mut first = true;
    for c in it: group.chars()
        invariant
            it.seq() == g,
            current@ == "ts-"@ + sanitized(g.take(it.index() as int)),
            first <==> last_dot(g.take(it.index() as int)) is None,
            first ==> classes@ == Seq::<char>::empty(),
            !first ==> classes@ == class_list(
                g.take(last_dot(g.take(it.index() as int))->0),
            ),
    {
        let ghost i = it.index() as int;
        assert(g.take(i + 1).drop_last() =~= g.take(i));
        assert(g.take(i + 1).last() == c);
        if c == '.' {
            proof {
                lemma_last_dot(g.take(i));
                match last_dot(g.take(i)) {
                    None => {},
                    Some(d) => {
                        assert(g.take(i).take(d) =~= g.take(d));
                    },
                }
            }
            if !first {
                classes.append(" ");
            }
            classes.append(current.as_str());
            first = false;
            proof {
                assert(last_dot(g.take(i + 1)) == Some(i));
                assert(g.take(i + 1).take(i) =~= g.take(i));
                assert(classes@ =~= class_list(g.take(i)));
            }
            push_char(&mut current, '-');
            assert(sanitized(g.take(i + 1)) =~= sanitized(g.take(i)).push('-'));
        } else {
            push_char(&mut current, class_char_exec(c));
            assert(sanitized(g.take(i + 1)) =~= sanitized(g.take(i)).push(class_char(c)));
            assert(last_dot(g.take(i + 1)) == last_dot(g.take(i)));
        }
        assert(current@ =~= "ts-"@ + sanitized(g.take(i + 1)));
    }
    assert(g.take(g.len() as int) =~= g);
    if !first {
        classes.append(" ");
    }
    classes.append(current.as_str());
    proof {
        match last_dot(g) {
            None => {
                assert(classes@ =~= "ts-"@ + sanitized(g));
            },
            Some(d) => {
                lemma_last_dot(g);
                assert(classes@ =~= class_list(g.take(d)) + " "@ + "ts-"@ + sanitized(g));
            },
        }
    }
    classes
}

proof fn lemma_last_dot(g: Seq<char>)
    ensures
        last_dot(g) is Some ==> 0 <= last_dot(g)->0 < g.len(),
    decreases g.len(),
{
    if g.len() > 0 && g.last() != '.' {
        lemma_last_dot(g.drop_last());
    }
}

fn class_char_exec(c: char) -> (r: char)
    ensures
        r == class_char(c),
{
    if 'A' <= c && c <= 'Z' {
        ((c as u8) + 32) as char
    } else if ('0' <= c && c <= '9') || ('a' <= c && c <= 'z') {
        c
    } else {
        '-'
    }
}

/// Reduce a name to what is safe and conventional in a CSS class.
pub fn sanitize(name: &str) -> (r: String)
    ensures
        r@ == sanitized(name@),
{
    let mut out = String::new();
    for c in it: name.chars()
        invariant
            it.seq() == name@,
            out@ == sanitized(name@.take(it.index() as int)),
    {
        push_char(&mut out, class_char_exec(c));
        assert(name@.take(it.index() + 1) =~= name@.take(it.index() as int).push(c));
        assert(out@ =~= sanitized(name@.take(it.index() + 1)));
    }
    assert(name@.take(name@.len() as int) =~= name@);
    out
}

/// Append `text` to `out`, escaped for HTML and kept on one line.
pub fn escape_into(text: &str, out: &mut String)
    ensures
        final(out)@ == old(out)@ + escaped(text@),
{
    let ghost start = out@;
    for character in it: text.chars()
        invariant
            it.seq() == text@,
            out@ == start + escaped(text@.take(it.index() as int)),
    {
        let ghost i = it.index() as int;
        assert(text@.take(i + 1).drop_last() =~= text@.take(i));
        assert(text@.take(i + 1).last() == character);
        if character == '&' {
            out.append("&amp;");
        } else if character == '<' {
            out.append("&lt;");
        } else if character == '>' {
            out.append("&gt;");
        } else if character == '"' {
            out.append("&quot;");
        } else if character == '\n' {
            // Kept as an entity so the whole element stays on one line; a
            // browser renders it as a line break inside `<pre>` all the same.
            out.append("&#10;");
        } else if character == '\r' {
            // A lone carriage return would be a second line break in the
            // rendered output, so it is dropped and the newline stands alone.
        } else {
            push_char(out, character);
        }
        assert(out@ =~= start + escaped(text@.take(i + 1)));
    }
    assert(text@.take(text@.len() as int) =~= text@);
}

} // verus!

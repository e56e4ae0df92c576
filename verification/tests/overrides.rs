use std::ops::Range;

use mdbook_nvim_treesitter::highlight::canvas::Span;
use mdbook_nvim_treesitter::highlight::overrides::{find_marker, is_group, strip_overrides as strip};

fn span(range: Range<usize>, group: Option<&str>) -> Span<'_> {
    Span { range, group }
}

fn shape<'a>(code: &'a str, spans: &'a [Span<'a>]) -> Vec<(&'a str, Option<&'a str>)> {
    spans
        .iter()
        .map(|span| (&code[span.range.clone()], span.group))
        .collect()
}

#[test]
fn code_without_a_marker_is_untouched() {
    let overrides = strip("let x = 1;");
    assert_eq!(overrides.code(), "let x = 1;");
    assert!(overrides.is_empty());
}

#[test]
fn strips_a_block_comment_marker() {
    let overrides = strip("/* @tree-sitter:function.macro */ASSERT(x);");
    assert_eq!(overrides.code(), "ASSERT(x);");
    assert_eq!(overrides.marks().len(), 1);
    assert_eq!(overrides.marks()[0].group, "function.macro");
    assert_eq!(overrides.marks()[0].at, 0);
}

#[test]
fn strips_an_html_comment_marker() {
    let overrides = strip("<p><!-- @tree-sitter:tag.builtin -->custom</p>");
    assert_eq!(overrides.code(), "<p>custom</p>");
    assert_eq!(overrides.marks()[0].group, "tag.builtin");
}

#[test]
fn retags_the_span_that_follows() {
    let overrides = strip("/* @tree-sitter:function.macro */ASSERT(x)");
    let code = overrides.code();
    let spans = vec![span(0..6, Some("function.call")), span(6..9, None)];

    let spans = overrides.apply(spans);
    assert_eq!(
        shape(code, &spans),
        [("ASSERT", Some("function.macro")), ("(x)", None)]
    );
}

#[test]
fn splits_a_span_when_the_target_starts_inside_it() {
    let overrides = strip("a = /* @tree-sitter:constant */B");
    let code = overrides.code();
    assert_eq!(code, "a = B");

    // One unstyled run covering `= B`.
    let spans = vec![span(0..1, Some("variable")), span(1..5, None)];
    let spans = overrides.apply(spans);
    assert_eq!(
        shape(code, &spans),
        [
            ("a", Some("variable")),
            (" = ", None),
            ("B", Some("constant"))
        ]
    );
}

#[test]
fn skips_whitespace_between_the_marker_and_its_target() {
    let overrides = strip("/* @tree-sitter:type */\nPoint p;");
    let code = overrides.code();
    assert_eq!(code, "\nPoint p;");

    let spans = vec![
        span(0..1, None),
        span(1..6, Some("variable")),
        span(6..9, None),
    ];
    let spans = overrides.apply(spans);
    assert_eq!(shape(code, &spans)[1], ("Point", Some("type")));
}

#[test]
fn handles_several_markers() {
    let overrides = strip("/* @tree-sitter:a */x + /* @tree-sitter:b */y");
    assert_eq!(overrides.code(), "x + y");
    assert_eq!(
        overrides
            .marks()
            .iter()
            .map(|m| (m.at, m.group.as_str()))
            .collect::<Vec<_>>(),
        [(0, "a"), (4, "b")]
    );
}

#[test]
fn leaves_comments_that_only_mention_the_marker_alone() {
    // Prose in front of the marker: not a directive.
    let code = "/* see @tree-sitter:function.macro for details */x";
    assert_eq!(strip(code).code(), code);

    // No comment at all around it.
    let bare = "let s = \"@tree-sitter:x\";";
    assert_eq!(strip(bare).code(), bare);
}

#[test]
fn ignores_a_marker_with_no_usable_group() {
    for code in [
        "/* @tree-sitter: */x",
        "/* @tree-sitter:has spaces */x",
        "/* @tree-sitter:a..b */x",
        "/* @tree-sitter:unterminated x",
    ] {
        assert_eq!(strip(code).code(), code, "{code:?}");
    }
}

#[test]
fn a_marker_at_the_end_of_the_code_overrides_nothing() {
    let overrides = strip("x;/* @tree-sitter:type */");
    assert_eq!(overrides.code(), "x;");
    let spans = overrides.apply(vec![span(0..2, None)]);
    assert_eq!(shape(overrides.code(), &spans), [("x;", None)]);
}

#[test]
fn recognizes_group_names() {
    assert!(is_group("keyword"));
    assert!(is_group("function.macro"));
    assert!(is_group("markup.heading.1"));
    assert!(!is_group(""));
    assert!(!is_group("a b"));
    assert!(!is_group("a."));
    assert!(!is_group(".a"));
}

#[test]
fn finds_the_next_marker_and_its_comment() {
    let code = "x /* @tree-sitter:type */y";
    let found = find_marker(code, 0).unwrap();
    assert_eq!(found.comment, 2..25);
    assert_eq!(found.group, "type");
    assert!(find_marker(code, 3).is_none());
}

#[test]
fn the_first_code_byte_skips_white_space() {
    let overrides = strip("  \n x");
    assert_eq!(overrides.first_code_byte(0), Some(4));
    assert_eq!(overrides.first_code_byte(5), None);
}

#[test]
fn overrides_are_empty_exactly_when_the_code_is_unchanged() {
    let plain = strip("let x = 1;");
    assert!(plain.is_empty());
    assert_eq!(plain.code(), "let x = 1;");
    let marked = strip("x;/* @tree-sitter:type */");
    assert!(!marked.is_empty());
    assert_ne!(marked.code(), "x;/* @tree-sitter:type */");
}

#[test]
fn applying_overrides_keeps_the_spans_tiling_the_code() {
    let o = strip("/* @tree-sitter:function.macro */ASSERT(x);");
    let code = o.code();
    let spans = vec![span(0..code.len(), Some("function.call"))];
    let out = o.apply(spans);
    assert_eq!(out.first().unwrap().range.start, 0);
    assert_eq!(out.last().unwrap().range.end, code.len());
    for pair in out.windows(2) {
        assert_eq!(pair[0].range.end, pair[1].range.start);
    }
    assert!(out.iter().all(|s| s.range.start < s.range.end));
    assert!(out.len() <= 2);
}

#[test]
fn a_marker_followed_only_by_white_space_changes_nothing() {
    let o = strip("x /* @tree-sitter:type */   ");
    let code = o.code();
    let spans = vec![span(0..1, Some("variable")), span(1..code.len(), None)];
    let out = o.apply(spans);
    assert_eq!(shape(code, &out), vec![("x", Some("variable")), (&code[1..], None)]);
}

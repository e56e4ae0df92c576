use std::ops::Range;

use mdbook_nvim_treesitter::highlight::canvas::{Canvas, Span};

fn spans<'a>(source: &str, painted: &[(Range<usize>, Option<&'a str>, u32)]) -> Vec<Span<'a>> {
    let mut canvas = Canvas::new(source.len());
    for (range, group, priority) in painted {
        canvas.paint(range.clone(), *group, *priority);
    }
    canvas.into_spans(source)
}

fn shape<'a>(spans: &'a [Span<'a>], source: &'a str) -> Vec<(&'a str, Option<&'a str>)> {
    spans
        .iter()
        .map(|span| (&source[span.range.clone()], span.group))
        .collect()
}

#[test]
fn covers_the_whole_source_even_when_nothing_is_painted() {
    let source = "let x";
    let spans = spans(source, &[]);
    assert_eq!(shape(&spans, source), [("let x", None)]);
}

#[test]
fn splits_at_the_edges_of_a_painted_range() {
    let source = "let x";
    let spans = spans(source, &[(0..3, Some("keyword"), 100)]);
    assert_eq!(
        shape(&spans, source),
        [("let", Some("keyword")), (" x", None)]
    );
}

#[test]
fn a_later_capture_wins_at_equal_priority() {
    let source = "abcd";
    let spans = spans(
        source,
        &[(0..4, Some("outer"), 100), (1..3, Some("inner"), 100)],
    );
    assert_eq!(
        shape(&spans, source),
        [
            ("a", Some("outer")),
            ("bc", Some("inner")),
            ("d", Some("outer"))
        ]
    );
}

#[test]
fn a_lower_priority_capture_cannot_overwrite() {
    let source = "abcd";
    let spans = spans(
        source,
        &[(0..4, Some("strong"), 110), (1..3, Some("weak"), 100)],
    );
    assert_eq!(shape(&spans, source), [("abcd", Some("strong"))]);
}

#[test]
fn none_clears_what_is_underneath() {
    let source = "abcd";
    let spans = spans(source, &[(0..4, Some("string"), 100), (1..3, None, 100)]);
    assert_eq!(
        shape(&spans, source),
        [("a", Some("string")), ("bc", None), ("d", Some("string"))]
    );
}

#[test]
fn adjacent_runs_of_the_same_group_merge() {
    let source = "abcd";
    let spans = spans(
        source,
        &[(0..2, Some("same"), 100), (2..4, Some("same"), 100)],
    );
    assert_eq!(shape(&spans, source), [("abcd", Some("same"))]);
}

#[test]
fn spans_never_split_a_multibyte_character() {
    let source = "añb";
    // Paint only the first byte of the two-byte `ñ`: the whole character
    // takes the group rather than the span cutting it in half.
    let spans = spans(source, &[(1..2, Some("half"), 100)]);
    assert_eq!(
        shape(&spans, source),
        [("a", None), ("ñ", Some("half")), ("b", None)]
    );
}

#[test]
fn ranges_past_the_end_are_clipped() {
    let source = "ab";
    let spans = spans(source, &[(0..99, Some("x"), 100)]);
    assert_eq!(shape(&spans, source), [("ab", Some("x"))]);
}

#[test]
fn an_empty_source_has_no_spans() {
    let spans = spans("", &[(0..3, Some("x"), 100)]);
    assert!(spans.is_empty());
}

#[test]
fn a_higher_priority_capture_overwrites_a_lower_one() {
    let source = "abcd";
    let spans = spans(
        source,
        &[(0..4, Some("weak"), 100), (1..3, Some("strong"), 110)],
    );
    assert_eq!(
        shape(&spans, source),
        [("a", Some("weak")), ("bc", Some("strong")), ("d", Some("weak"))]
    );
}

use std::ops::Range;

use mdbook_nvim_treesitter::renderer::replacer::{ReplaceError, Replacer};

fn apply(content: &str, replacements: Vec<(Range<usize>, String)>) -> Result<String, ReplaceError> {
    let mut replacer = Replacer::default();
    replacements
        .into_iter()
        .for_each(|x| replacer.add(x.0, x.1));
    replacer.apply(content)
}

#[test]
fn an_empty_list_returns_the_original() {
    assert_eq!(apply("hello", vec![]).unwrap(), "hello");
}

#[test]
fn replaces_in_source_order_regardless_of_input_order() {
    let out = apply(
        "one two three",
        vec![(8..13, "THREE".into()), (0..3, "ONE".into())],
    )
    .unwrap();
    assert_eq!(out, "ONE two THREE");
}

#[test]
fn handles_replacements_at_the_edges() {
    assert_eq!(apply("abc", vec![(0..3, "x".into())]).unwrap(), "x");
    assert_eq!(apply("abc", vec![(3..3, "!".into())]).unwrap(), "abc!");
    assert_eq!(apply("abc", vec![(0..0, "!".into())]).unwrap(), "!abc");
}

#[test]
fn adjacent_replacements_are_fine() {
    let out = apply("abcd", vec![(0..2, "X".into()), (2..4, "Y".into())]).unwrap();
    assert_eq!(out, "XY");
}

#[test]
fn rejects_overlapping_ranges() {
    let error = apply("abcdef", vec![(0..3, "X".into()), (2..5, "Y".into())]).unwrap_err();
    assert!(error.message().contains("overlapping"), "{}", error.message());
}

#[test]
fn rejects_ranges_outside_the_document() {
    assert!(apply("abc", vec![(0..99, "X".into())]).is_err());

    // An inverted range: built by hand, since the literal `2..1` is a
    // compile-time lint.
    let inverted = Range { start: 2, end: 1 };
    assert!(apply("abc", vec![(inverted, "X".into())]).is_err());
}

#[test]
fn rejects_ranges_that_split_a_character() {
    assert!(apply("añb", vec![(1..2, "X".into())]).is_err());
}

#[test]
fn error_messages_give_the_byte_positions() {
    let error = apply("abcdef", vec![(0..3, "X".into()), (2..5, "Y".into())]).unwrap_err();
    assert_eq!(error.message(), "overlapping replacements at byte 2 (previous ended at 3)");
    let error = apply("abc", vec![(1..9, "X".into())]).unwrap_err();
    assert_eq!(
        error.message(),
        "replacement range 1..9 is outside the document (3 bytes)"
    );
}

#[test]
fn replacements_of_the_same_range_keep_the_order_they_were_added() {
    let out = apply("abc", vec![(1..1, "X".into()), (1..1, "Y".into())]).unwrap();
    assert_eq!(out, "aXYbc");
}

#[test]
fn the_order_replacements_are_added_in_does_not_matter() {
    let content = "aaa bbb ccc";
    let forward = apply(content, vec![(0..3, "A".into()), (4..7, "B".into()), (8..11, "C".into())]);
    let backward = apply(content, vec![(8..11, "C".into()), (0..3, "A".into()), (4..7, "B".into())]);
    assert_eq!(forward, backward);
    assert_eq!(forward.unwrap(), "A B C");
}

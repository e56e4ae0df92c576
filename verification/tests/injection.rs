use mdbook_nvim_treesitter::highlight::injection::{content_ranges, normalize, offset_range, shift, Range};
use mdbook_nvim_treesitter::highlight::lines::{LineIndex, Point};
use mdbook_nvim_treesitter::query::metadata::Offset;

fn range(start: usize, end: usize) -> Range {
    Range {
        start_byte: start,
        end_byte: end,
        start_point: Point::new(0, start),
        end_point: Point::new(0, end),
    }
}

#[test]
fn trims_a_range_by_columns() {
    let lines = LineIndex::new("`select 1`");
    let trimmed = offset_range(
        range(0, 10),
        Some(Offset {
            start_row: 0,
            start_column: 1,
            end_row: 0,
            end_column: -1,
        }),
        &lines,
    );
    assert_eq!((trimmed.start_byte, trimmed.end_byte), (1, 9));
}

#[test]
fn row_offsets_move_lines_and_keep_columns() {
    let lines = LineIndex::new("<<<\nbody\n>>>");
    let trimmed = offset_range(
        Range {
            start_byte: 0,
            end_byte: 12,
            start_point: Point::new(0, 0),
            end_point: Point::new(2, 3),
        },
        Some(Offset {
            start_row: 1,
            start_column: 0,
            end_row: -1,
            end_column: 0,
        }),
        &lines,
    );
    // Both points move one line inwards; the columns are carried along,
    // so the end lands at column 3 of the middle line rather than its end.
    assert_eq!((trimmed.start_byte, trimmed.end_byte), (4, 7));
}

#[test]
fn ignores_an_offset_that_would_invert_the_range() {
    let lines = LineIndex::new("ab");
    let inverted = offset_range(
        range(0, 2),
        Some(Offset {
            start_row: 0,
            start_column: 5,
            end_row: 0,
            end_column: -5,
        }),
        &lines,
    );
    assert_eq!((inverted.start_byte, inverted.end_byte), (0, 2));
}

#[test]
fn no_offset_leaves_the_range_alone() {
    let lines = LineIndex::new("ab");
    assert_eq!(offset_range(range(0, 2), None, &lines), range(0, 2));
}

#[test]
fn normalizing_sorts_merges_and_drops_empties() {
    let normalized = normalize(vec![range(5, 8), range(0, 3), range(3, 4), range(9, 9)]);
    let bytes: Vec<_> = normalized
        .iter()
        .map(|r| (r.start_byte, r.end_byte))
        .collect();
    assert_eq!(bytes, [(0, 4), (5, 8)]);
}

#[test]
fn shifting_saturates_at_zero() {
    assert_eq!(shift(Point::new(1, 2), -3, -5), Point::new(0, 0));
    assert_eq!(shift(Point::new(1, 2), 2, 3), Point::new(3, 5));
}

#[test]
fn content_skips_the_children_of_a_node() {
    // `abcdefgh`, with children at 2..4 and 6..7.
    let mut out = Vec::new();
    content_ranges(&[range(2, 4), range(6, 7)], range(0, 8), false, &mut out);
    let bytes: Vec<_> = out.iter().map(|r| (r.start_byte, r.end_byte)).collect();
    assert_eq!(bytes, [(0, 2), (4, 6), (7, 8)]);
}

#[test]
fn content_of_a_whole_node_is_the_node() {
    let mut out = Vec::new();
    content_ranges(&[range(2, 4)], range(0, 8), true, &mut out);
    assert_eq!(out, [range(0, 8)]);
}

#[test]
fn resolves_points_to_offsets() {
    let index = LineIndex::new("ab\ncde\n\nf");
    assert_eq!(index.offset(Point::new(0, 0)), 0);
    assert_eq!(index.offset(Point::new(0, 2)), 2);
    assert_eq!(index.offset(Point::new(1, 0)), 3);
    assert_eq!(index.offset(Point::new(1, 3)), 6);
    assert_eq!(index.offset(Point::new(2, 0)), 7);
    assert_eq!(index.offset(Point::new(3, 1)), 9);
}

#[test]
fn clamps_points_outside_the_document() {
    let index = LineIndex::new("ab\ncd");
    // Past the end of a line stops at the newline, not in the next line.
    assert_eq!(index.offset(Point::new(0, 99)), 2);
    assert_eq!(index.offset(Point::new(99, 0)), 5);
}

#[test]
fn handles_an_empty_document() {
    let index = LineIndex::new("");
    assert_eq!(index.offset(Point::new(0, 0)), 0);
    assert_eq!(index.offset(Point::new(5, 5)), 0);
}

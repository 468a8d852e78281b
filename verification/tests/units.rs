use asciidraw::bounds::bounds_in_cells;
use asciidraw::canvas::Canvas;
use asciidraw::line::{arrow_head, bresenham_line, line_char};
use asciidraw::quantize::round_cell;
use asciidraw::shape::Shape;

#[test]
fn round_cell_half_away_from_zero() {
    assert_eq!(round_cell(15, 10), 2);
    assert_eq!(round_cell(-15, 10), -2);
    assert_eq!(round_cell(14, 10), 1);
    assert_eq!(round_cell(-14, 10), -1);
    assert_eq!(round_cell(0, 7), 0);
    assert_eq!(round_cell(25, 10), 3);
}

#[test]
fn round_cell_clamps_grid_to_one() {
    assert_eq!(round_cell(5, 0), 5);
    assert_eq!(round_cell(-3, 0), -3);
}

#[test]
fn bresenham_diagonal() {
    let pts = bresenham_line((0, 0), (3, 3));
    assert_eq!(pts, vec![(0, 0), (1, 1), (2, 2), (3, 3)]);
}

#[test]
fn bresenham_shallow() {
    let pts = bresenham_line((0, 0), (2, 1));
    assert_eq!(pts, vec![(0, 0), (1, 1), (2, 1)]);
}

#[test]
fn bresenham_single_point() {
    let pts = bresenham_line((5, -7), (5, -7));
    assert_eq!(pts, vec![(5, -7)]);
}

#[test]
fn bresenham_backwards() {
    let pts = bresenham_line((3, 0), (0, 0));
    assert_eq!(pts, vec![(3, 0), (2, 0), (1, 0), (0, 0)]);
}

#[test]
fn line_char_table() {
    assert_eq!(line_char(0, 0), '+');
    assert_eq!(line_char(0, 1), '|');
    assert_eq!(line_char(1, 0), '-');
    assert_eq!(line_char(1, 1), '\\');
    assert_eq!(line_char(-1, -1), '\\');
    assert_eq!(line_char(1, -1), '/');
    assert_eq!(line_char(-1, 1), '/');
}

#[test]
fn arrow_head_table() {
    assert_eq!(arrow_head(3, 0), '>');
    assert_eq!(arrow_head(-3, 0), '<');
    assert_eq!(arrow_head(0, 3), 'v');
    assert_eq!(arrow_head(0, -3), '^');
    assert_eq!(arrow_head(2, 2), '>');
    assert_eq!(arrow_head(0, 0), '>');
    assert_eq!(arrow_head(1, -2), '^');
}

#[test]
fn canvas_set_and_serialize() {
    let mut c = Canvas::new(3, 2);
    c.set(0, 0, 'a', true);
    c.set(2, 1, 'b', true);
    assert_eq!(c.to_string(), "a\n  b");
}

#[test]
fn canvas_overwrite_policy() {
    let mut c = Canvas::new(2, 1);
    c.set(0, 0, 'a', true);
    c.set(0, 0, 'c', false);
    assert_eq!(c.to_string(), "a");
    c.set(0, 0, 'c', true);
    assert_eq!(c.to_string(), "c");
}

#[test]
fn canvas_out_of_range_writes_dropped() {
    let mut c = Canvas::new(2, 2);
    c.set(-1, 0, 'x', true);
    c.set(0, -1, 'x', true);
    c.set(2, 0, 'x', true);
    c.set(0, 2, 'x', true);
    assert_eq!(c.to_string(), "\n");
}

#[test]
fn canvas_blank_rows_kept() {
    let c = Canvas::new(4, 3);
    assert_eq!(c.to_string(), "\n\n");
}

#[test]
fn bounds_of_empty_list_is_none() {
    let shapes: Vec<Shape> = Vec::new();
    assert_eq!(bounds_in_cells(&shapes, 10), None);
}

#[test]
fn bounds_of_box_and_line() {
    let shapes = vec![
        Shape::Rect { id: String::from("r"), created_at: 0, x: 0, y: 0, width: 40, height: 20 },
        Shape::Line { id: String::from("l"), created_at: 0, x1: -20, y1: 10, x2: 0, y2: 10 },
    ];
    assert_eq!(bounds_in_cells(&shapes, 10), Some((-2, 0, 4, 2)));
}

#[test]
fn bounds_text_uses_display_width() {
    let narrow =
        vec![Shape::Text { id: String::from("t"), created_at: 0, x: 0, y: 0, text: String::from("A") }];
    assert_eq!(bounds_in_cells(&narrow, 10), Some((0, 0, 1, 0)));
    let wide = vec![Shape::Text {
        id: String::from("t"),
        created_at: 0,
        x: 0,
        y: 0,
        text: String::from("\u{4f60}"),
    }];
    assert_eq!(bounds_in_cells(&wide, 10), Some((0, 0, 2, 0)));
}

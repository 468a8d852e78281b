use asciidraw::render::{export_ascii, export_ascii_impl};
use asciidraw::shape::Shape;

fn rect(x: i64, y: i64, w: i64, h: i64) -> Shape {
    Shape::Rect { id: String::from("r"), created_at: 0, x, y, width: w, height: h }
}

fn line(x1: i64, y1: i64, x2: i64, y2: i64) -> Shape {
    Shape::Line { id: String::from("l"), created_at: 0, x1, y1, x2, y2 }
}

fn arrow(x1: i64, y1: i64, x2: i64, y2: i64) -> Shape {
    Shape::Arrow { id: String::from("a"), created_at: 0, x1, y1, x2, y2 }
}

fn text(x: i64, y: i64, t: &str) -> Shape {
    Shape::Text { id: String::from("t"), created_at: 0, x, y, text: String::from(t) }
}

#[test]
fn empty_input_renders_empty_string() {
    let shapes: Vec<Shape> = Vec::new();
    assert_eq!(export_ascii_impl(&shapes, 10), "");
    assert_eq!(export_ascii_impl(&shapes, 1), "");
    assert_eq!(export_ascii_impl(&shapes, 0), "");
}

#[test]
fn renders_are_deterministic() {
    let shapes = vec![rect(0, 0, 40, 20), arrow(-20, 10, 0, 10), text(5, 5, "hi")];
    let first = export_ascii_impl(&shapes, 10);
    let second = export_ascii_impl(&shapes, 10);
    assert_eq!(first, second);
    let rebuilt = vec![rect(0, 0, 40, 20), arrow(-20, 10, 0, 10), text(5, 5, "hi")];
    assert_eq!(first, export_ascii_impl(&rebuilt, 10));
}

#[test]
fn box_sizing_five_by_three_cells() {
    let shapes = vec![rect(0, 0, 40, 20)];
    let out = export_ascii_impl(&shapes, 10);
    assert_eq!(out, "\n\n  +---+\n  |   |\n  +---+\n\n");
}

#[test]
fn zero_extent_box_still_one_cell() {
    let shapes = vec![rect(0, 0, 0, 0)];
    let out = export_ascii_impl(&shapes, 10);
    let lines: Vec<&str> = out.split('\n').collect();
    assert_eq!(lines[2], "  ++");
    assert_eq!(lines[3], "  ++");
}

#[test]
fn line_endpoint_is_plus() {
    let shapes = vec![line(0, 0, 30, 0)];
    let out = export_ascii_impl(&shapes, 10);
    assert_eq!(out, "\n\n  ---+\n\n");
}

#[test]
fn arrow_endpoint_is_head_never_plus() {
    let shapes = vec![arrow(0, 0, 30, 0)];
    let out = export_ascii_impl(&shapes, 10);
    assert_eq!(out, "\n\n  --->\n\n");
    assert!(!out.contains('+'));
}

#[test]
fn arrow_directions() {
    let left = export_ascii_impl(&vec![arrow(30, 0, 0, 0)], 10);
    assert!(left.contains('<'));
    let down = export_ascii_impl(&vec![arrow(0, 0, 0, 30)], 10);
    assert!(down.contains('v'));
    let up = export_ascii_impl(&vec![arrow(0, 30, 0, 0)], 10);
    assert!(up.contains('^'));
}

#[test]
fn coincident_arrow_degrades_to_head_point() {
    let out = export_ascii_impl(&vec![arrow(0, 0, 0, 0)], 10);
    assert_eq!(out, "\n\n  >\n\n");
}

#[test]
fn coincident_line_degrades_to_plus_point() {
    let out = export_ascii_impl(&vec![line(0, 0, 0, 0)], 10);
    assert_eq!(out, "\n\n  +\n\n");
}

#[test]
fn diagonal_line_uses_backslash() {
    let out = export_ascii_impl(&vec![line(0, 0, 30, 30)], 10);
    let lines: Vec<&str> = out.split('\n').collect();
    assert_eq!(lines[2], "  \\");
    assert_eq!(lines[3], "   \\");
    assert_eq!(lines[4], "    \\");
    assert_eq!(lines[5], "     +");
}

#[test]
fn narrow_text_width_one_wide_text_width_two() {
    let narrow = export_ascii_impl(&vec![text(0, 0, "AX")], 10);
    assert_eq!(narrow, "\n\n  AX\n\n");
    let wide = export_ascii_impl(&vec![text(0, 0, "\u{4f60}X")], 10);
    assert_eq!(wide, "\n\n  \u{4f60} X\n\n");
}

#[test]
fn zero_width_character_does_not_advance() {
    let out = export_ascii_impl(&vec![text(0, 0, "a\u{0301}b")], 10);
    let lines: Vec<&str> = out.split('\n').collect();
    let chars: Vec<char> = lines[2].chars().collect();
    // the zero-width mark lands after `a` without advancing, so `b`
    // overwrites it in the same cell
    assert_eq!(chars, vec![' ', ' ', 'a', 'b']);
}

#[test]
fn arrow_head_wins_over_box_border() {
    let shapes = vec![rect(0, 0, 40, 20), arrow(-20, 10, 0, 10)];
    let out = export_ascii_impl(&shapes, 10);
    assert_eq!(out, "\n\n    +---+\n  -->   |\n    +---+\n\n");
    let lines: Vec<&str> = out.split('\n').collect();
    assert_eq!(lines[3].chars().nth(4), Some('>'));
}

#[test]
fn stroke_does_not_erase_box_border() {
    // a line crossing the border writes without overwrite: the border stays
    let shapes = vec![rect(0, 0, 40, 20), line(-20, 10, 0, 10)];
    let out = export_ascii_impl(&shapes, 10);
    let lines: Vec<&str> = out.split('\n').collect();
    assert_eq!(lines[3].chars().nth(4), Some('|'));
}

#[test]
fn text_overwrites_strokes() {
    let shapes = vec![rect(0, 0, 40, 20), text(0, 0, "T")];
    let out = export_ascii_impl(&shapes, 10);
    let lines: Vec<&str> = out.split('\n').collect();
    assert_eq!(lines[2].chars().nth(2), Some('T'));
}

#[test]
fn leading_blanks_kept_trailing_trimmed() {
    let shapes = vec![text(0, 0, "a"), text(40, 0, "b")];
    let out = export_ascii_impl(&shapes, 10);
    assert_eq!(out, "\n\n  a   b\n\n");
}

#[test]
fn grid_size_zero_clamped_to_one() {
    let zero = export_ascii_impl(&vec![rect(0, 0, 4, 2)], 0);
    let one = export_ascii_impl(&vec![rect(0, 0, 4, 2)], 1);
    assert_eq!(zero, one);
}

#[test]
fn list_order_decides_layers_not_created_at() {
    let mut late_box = rect(0, 0, 40, 20);
    if let Shape::Rect { ref mut created_at, .. } = late_box {
        *created_at = 999;
    }
    let shapes = vec![late_box, arrow(-20, 10, 0, 10)];
    let out = export_ascii_impl(&shapes, 10);
    let lines: Vec<&str> = out.split('\n').collect();
    assert_eq!(lines[3].chars().nth(4), Some('>'));
}

#[test]
fn export_ascii_wraps_ok() {
    let shapes = vec![rect(0, 0, 40, 20)];
    let r = export_ascii(&shapes, 10);
    assert_eq!(r, Ok(String::from("\n\n  +---+\n  |   |\n  +---+\n\n")));
}

#[test]
fn combined_scene_layers_and_margin() {
    let shapes = vec![
        rect(0, 0, 40, 20),
        line(40, 10, 70, 10),
        arrow(70, 10, 70, 40),
        text(10, 10, "ok"),
    ];
    let out = export_ascii_impl(&shapes, 10);
    let lines: Vec<&str> = out.split('\n').collect();
    // two blank margin rows above, none trimmed below the content
    assert_eq!(lines[0], "");
    assert_eq!(lines[1], "");
    // box border row with the line leaving its right border
    assert_eq!(lines[3].chars().nth(2), Some('|'));
    assert_eq!(lines[3].chars().nth(6), Some('|'));
    // the label overwrote the box interior
    assert_eq!(lines[3].chars().nth(3), Some('o'));
    assert_eq!(lines[3].chars().nth(4), Some('k'));
    // the arrow turns downward and ends in a head
    assert!(out.contains('v'));
    let rerun = export_ascii_impl(&shapes, 10);
    assert_eq!(out, rerun);
}

//! Bounds calculator: the minimal integer rectangle, in grid-cell
//! coordinates, enclosing every shape of a list.

use crate::quantize::{effective_grid, round_cell, round_div};
use crate::shape::{shape_in_range, shapes_in_range, Shape};
use crate::text::{char_width, str_chars, text_extent};
use vstd::prelude::*;

verus! {

/// Least of two integers.
pub open spec fn imin(a: int, b: int) -> int {
    if a < b {
        a
    } else {
        b
    }
}

/// Greatest of two integers.
pub open spec fn imax(a: int, b: int) -> int {
    if a < b {
        b
    } else {
        a
    }
}

/// The integer rectangle `(min x, min y, max x, max y)` one shape
/// spans in grid-cell coordinates. A rectangle's extents quantize to
/// at least one cell; a label spans its anchor row only.
pub open spec fn shape_cell_bounds(s: Shape, g: int) -> (int, int, int, int) {
    match s {
        Shape::Rect { x, y, width, height, .. } => {
            let x0 = round_div(x as int, g);
            let y0 = round_div(y as int, g);
            let w = imax(round_div(width as int, g), 1);
            let h = imax(round_div(height as int, g), 1);
            (x0, y0, x0 + w, y0 + h)
        },
        Shape::Line { x1, y1, x2, y2, .. } | Shape::Arrow { x1, y1, x2, y2, .. } => {
            let ax = round_div(x1 as int, g);
            let ay = round_div(y1 as int, g);
            let bx = round_div(x2 as int, g);
            let by = round_div(y2 as int, g);
            (imin(ax, bx), imin(ay, by), imax(ax, bx), imax(ay, by))
        },
        Shape::Text { x, y, text, .. } => {
            let x0 = round_div(x as int, g);
            let y0 = round_div(y as int, g);
            (x0, y0, x0 + imax(text_extent(text@), 0), y0)
        },
    }
}

/// Componentwise union of two rectangles.
pub open spec fn merge_bounds(b: (int, int, int, int), c: (int, int, int, int)) -> (
    int,
    int,
    int,
    int,
) {
    (imin(b.0, c.0), imin(b.1, c.1), imax(b.2, c.2), imax(b.3, c.3))
}

/// The minimal rectangle covering every shape of the list, or no
/// bounds at all when the list is empty.
pub open spec fn bounds_spec(shapes: Seq<Shape>, g: int) -> Option<(int, int, int, int)>
    decreases shapes.len(),
{
    if shapes.len() == 0 {
        None
    } else {
        match bounds_spec(shapes.drop_last(), g) {
            None => Some(shape_cell_bounds(shapes.last(), g)),
            Some(b) => Some(merge_bounds(b, shape_cell_bounds(shapes.last(), g))),
        }
    }
}

/// Every corner of a computed rectangle stays well within `i64`, and
/// the rectangle is properly ordered.
pub open spec fn cell_bounded(t: (i64, i64, i64, i64)) -> bool {
    &&& -2_000_000_000 <= t.0 <= 2_000_000_000
    &&& -2_000_000_000 <= t.1 <= 2_000_000_000
    &&& -2_000_000_000 <= t.2 <= 2_000_000_000
    &&& -2_000_000_000 <= t.3 <= 2_000_000_000
    &&& t.0 <= t.2
    &&& t.1 <= t.3
}

/// The integer view of a computed bounds value.
pub open spec fn bounds_view(r: Option<(i64, i64, i64, i64)>) -> Option<(int, int, int, int)> {
    match r {
        None => None,
        Some(t) => Some((t.0 as int, t.1 as int, t.2 as int, t.3 as int)),
    }
}

/// The rectangle one shape spans, with its machine-range guarantees.
fn shape_bounds_exec(s: &Shape, grid_cell_size: u32) -> (t: (i64, i64, i64, i64))
    requires
        shape_in_range(*s),
    ensures
        ({
            let b = shape_cell_bounds(*s, effective_grid(grid_cell_size as int));
            b.0 == t.0 as int && b.1 == t.1 as int && b.2 == t.2 as int && b.3 == t.3 as int
        }),
        cell_bounded(t),
{
    match s {
        Shape::Rect { x, y, width, height, .. } => {
            let x0 = round_cell(*x, grid_cell_size);
            let y0 = round_cell(*y, grid_cell_size);
            let qw = round_cell(*width, grid_cell_size);
            let qh = round_cell(*height, grid_cell_size);
            let w = if qw < 1 {
                1
            } else {
                qw
            };
            let h = if qh < 1 {
                1
            } else {
                qh
            };
            (x0, y0, x0 + w, y0 + h)
        },
        Shape::Line { x1, y1, x2, y2, .. } | Shape::Arrow { x1, y1, x2, y2, .. } => {
            let ax = round_cell(*x1, grid_cell_size);
            let ay = round_cell(*y1, grid_cell_size);
            let bx = round_cell(*x2, grid_cell_size);
            let by = round_cell(*y2, grid_cell_size);
            let lo_x = if ax < bx {
                ax
            } else {
                bx
            };
            let lo_y = if ay < by {
                ay
            } else {
                by
            };
            let hi_x = if ax < bx {
                bx
            } else {
                ax
            };
            let hi_y = if ay < by {
                by
            } else {
                ay
            };
            (lo_x, lo_y, hi_x, hi_y)
        },
        Shape::Text { x, y, text, .. } => {
            let x0 = round_cell(*x, grid_cell_size);
            let y0 = round_cell(*y, grid_cell_size);
            let chars = str_chars(text.as_str());
            let mut wsum: i64 = 0;
            let mut i: usize = 0;
            while i < chars.len()
                invariant
                    chars@ == text@,
                    i <= chars@.len(),
                    chars@.len() <= crate::shape::TEXT_LIMIT,
                    wsum == text_extent(text@.take(i as int)),
                    0 <= wsum <= 3 * i,
                decreases chars@.len() - i,
            {
                let w = char_width(chars[i]);
                proof {
                    assert(text@.take(i as int + 1).drop_last() =~= text@.take(i as int));
                    assert(text@.take(i as int + 1).last() == text@[i as int]);
                }
                wsum += w as i64;
                i += 1;
            }
            proof {
                assert(text@.take(text@.len() as int) =~= text@);
            }
            (x0, y0, x0 + wsum, y0)
        },
    }
}

/// Compute the minimal rectangle enclosing all shapes in grid space,
/// or nothing when the shape list is empty.
pub fn bounds_in_cells(shapes: &Vec<Shape>, grid_cell_size: u32) -> (r: Option<(i64, i64, i64, i64)>)
    requires
        shapes_in_range(shapes@),
    ensures
        bounds_view(r) == bounds_spec(shapes@, effective_grid(grid_cell_size as int)),
        r matches Some(t) ==> cell_bounded(t),
{
    let ghost g = effective_grid(grid_cell_size as int);
    let mut r: Option<(i64, i64, i64, i64)> = None;
    let mut i: usize = 0;
    while i < shapes.len()
        invariant
            shapes_in_range(shapes@),
            i <= shapes@.len(),
            bounds_view(r) == bounds_spec(shapes@.take(i as int), g),
            g == effective_grid(grid_cell_size as int),
            r matches Some(t) ==> cell_bounded(t),
        decreases shapes@.len() - i,
    {
        let c = shape_bounds_exec(&shapes[i], grid_cell_size);
        r = match r {
            None => Some(c),
            Some(t) => {
                let lo_x = if t.0 < c.0 {
                    t.0
                } else {
                    c.0
                };
                let lo_y = if t.1 < c.1 {
                    t.1
                } else {
                    c.1
                };
                let hi_x = if t.2 < c.2 {
                    c.2
                } else {
                    t.2
                };
                let hi_y = if t.3 < c.3 {
                    c.3
                } else {
                    t.3
                };
                Some((lo_x, lo_y, hi_x, hi_y))
            },
        };
        proof {
            assert(shapes@.take(i as int + 1).drop_last() =~= shapes@.take(i as int));
            assert(shapes@.take(i as int + 1).last() == shapes@[i as int]);
        }
        i += 1;
    }
    proof {
        assert(shapes@.take(shapes@.len() as int) =~= shapes@);
    }
    r
}

} // verus!

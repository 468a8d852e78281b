//! The shape data model: a closed tagged union of rectangles, lines,
//! arrows and text labels placed in a continuous integer coordinate space.

use vstd::prelude::*;

verus! {

/// One diagram element. Every variant carries a unique `id` and a
/// `created_at` stamp; both are accepted but never consulted by the
/// rasterizer, which draws strictly in input-list order.
pub enum Shape {
    /// Axis-aligned rectangle: top-left corner and extents, continuous units.
    Rect { id: String, created_at: i64, x: i64, y: i64, width: i64, height: i64 },
    /// Straight segment between two points; ends in a plain `+`.
    Line { id: String, created_at: i64, x1: i64, y1: i64, x2: i64, y2: i64 },
    /// Same geometry as `Line`, but ends in an arrowhead glyph.
    Arrow { id: String, created_at: i64, x1: i64, y1: i64, x2: i64, y2: i64 },
    /// A string rendered left-to-right on one row from an anchor point.
    Text { id: String, created_at: i64, x: i64, y: i64, text: String },
}

/// Largest coordinate magnitude the rasterizer accepts; keeps every
/// cell index and canvas dimension within machine integer ranges.
pub const COORD_LIMIT: i64 = 1_000_000_000;

/// Largest accepted label length in characters; keeps summed display
/// widths (at most three columns per character) within `COORD_LIMIT`.
pub const TEXT_LIMIT: usize = 300_000_000;

/// All coordinates of one shape are small enough that quantized cell
/// indices, corner sums and canvas dimensions fit comfortably in `i64`.
pub open spec fn shape_in_range(s: Shape) -> bool {
    match s {
        Shape::Rect { x, y, width, height, .. } => {
            -COORD_LIMIT <= x <= COORD_LIMIT && -COORD_LIMIT <= y <= COORD_LIMIT
                && -COORD_LIMIT <= width <= COORD_LIMIT && -COORD_LIMIT <= height <= COORD_LIMIT
        },
        Shape::Line { x1, y1, x2, y2, .. } | Shape::Arrow { x1, y1, x2, y2, .. } => {
            -COORD_LIMIT <= x1 <= COORD_LIMIT && -COORD_LIMIT <= y1 <= COORD_LIMIT
                && -COORD_LIMIT <= x2 <= COORD_LIMIT && -COORD_LIMIT <= y2 <= COORD_LIMIT
        },
        Shape::Text { x, y, text, .. } => {
            -COORD_LIMIT <= x <= COORD_LIMIT && -COORD_LIMIT <= y <= COORD_LIMIT
                && text@.len() <= TEXT_LIMIT
        },
    }
}

/// Range discipline for a whole shape list.
pub open spec fn shapes_in_range(shapes: Seq<Shape>) -> bool {
    forall|i: int| 0 <= i < shapes.len() ==> shape_in_range(#[trigger] shapes[i])
}

} // verus!

//! The renderer: compute bounds, allocate a canvas with a fixed
//! two-cell margin, draw all rectangles, then all lines and arrows in
//! input order, then all text labels, and serialize the grid.

use crate::bounds::{bounds_in_cells, bounds_spec, imax, merge_bounds, shape_cell_bounds};
use crate::canvas::{blank_grid, cell_set, serialize, Canvas};
use crate::line::{
    arrow_head, arrow_head_spec, bresenham_line, line_char, line_char_spec, line_path, pts_view,
};
use crate::quantize::{effective_grid, round_cell, round_div};
use crate::shape::{shapes_in_range, Shape};
use crate::text::{char_display_width, char_width, str_chars};
use vstd::prelude::*;

verus! {

/// Top and bottom edges of a rectangle, drawn left to right without
/// erasing anything already present.
pub open spec fn draw_hedges(
    g: Seq<Seq<char>>,
    x: int,
    x1: int,
    y0: int,
    y1: int,
) -> Seq<Seq<char>>
    decreases x1 - x,
{
    if x >= x1 {
        g
    } else {
        draw_hedges(
            cell_set(cell_set(g, x, y0, '-', false), x, y1, '-', false),
            x + 1,
            x1,
            y0,
            y1,
        )
    }
}

/// Left and right edges of a rectangle, drawn top to bottom without
/// erasing anything already present.
pub open spec fn draw_vedges(
    g: Seq<Seq<char>>,
    y: int,
    y1: int,
    x0: int,
    x1: int,
) -> Seq<Seq<char>>
    decreases y1 - y,
{
    if y >= y1 {
        g
    } else {
        draw_vedges(
            cell_set(cell_set(g, x0, y, '|', false), x1, y, '|', false),
            y + 1,
            y1,
            x0,
            x1,
        )
    }
}

/// One rectangle: four always-winning `+` corners, then the edges.
pub open spec fn draw_rect(g: Seq<Seq<char>>, x0: int, y0: int, x1: int, y1: int) -> Seq<
    Seq<char>,
> {
    let gc = cell_set(
        cell_set(cell_set(cell_set(g, x0, y0, '+', true), x1, y0, '+', true), x0, y1, '+', true),
        x1,
        y1,
        '+',
        true,
    );
    draw_vedges(draw_hedges(gc, x0 + 1, x1, y0, y1), y0 + 1, y1, x0, x1)
}

/// A rectangle shape drawn at its quantized, origin-shifted place;
/// any other shape leaves the grid alone in this pass.
pub open spec fn draw_rect_shape(
    g: Seq<Seq<char>>,
    s: Shape,
    gr: int,
    ox: int,
    oy: int,
) -> Seq<Seq<char>> {
    match s {
        Shape::Rect { x, y, width, height, .. } => {
            let x0 = round_div(x as int, gr) - ox;
            let y0 = round_div(y as int, gr) - oy;
            let w = imax(round_div(width as int, gr), 1);
            let h = imax(round_div(height as int, gr), 1);
            draw_rect(g, x0, y0, x0 + w, y0 + h)
        },
        _ => g,
    }
}

/// The base layer: all rectangles, in input order.
pub open spec fn rect_pass(
    g: Seq<Seq<char>>,
    shapes: Seq<Shape>,
    i: int,
    gr: int,
    ox: int,
    oy: int,
) -> Seq<Seq<char>>
    decreases shapes.len() - i,
{
    if i < 0 || i >= shapes.len() {
        g
    } else {
        rect_pass(draw_rect_shape(g, shapes[i], gr, ox, oy), shapes, i + 1, gr, ox, oy)
    }
}

/// The stroke glyphs of a path: for each consecutive pair of cells,
/// the first cell takes the glyph of the step, never erasing.
pub open spec fn draw_segments(g: Seq<Seq<char>>, path: Seq<(int, int)>, i: int) -> Seq<Seq<char>>
    decreases path.len() - i,
{
    if i < 0 || i + 1 >= path.len() {
        g
    } else {
        draw_segments(
            cell_set(
                g,
                path[i].0,
                path[i].1,
                line_char_spec(path[i + 1].0 - path[i].0, path[i + 1].1 - path[i].1),
                false,
            ),
            path,
            i + 1,
        )
    }
}

/// A line or arrow shape drawn along its Bresenham path; lines end in
/// a quiet `+`, arrows in an always-winning head glyph. Other shapes
/// leave the grid alone in this pass.
pub open spec fn draw_line_shape(
    g: Seq<Seq<char>>,
    s: Shape,
    gr: int,
    ox: int,
    oy: int,
) -> Seq<Seq<char>> {
    match s {
        Shape::Line { x1, y1, x2, y2, .. } => {
            let ax = round_div(x1 as int, gr) - ox;
            let ay = round_div(y1 as int, gr) - oy;
            let bx = round_div(x2 as int, gr) - ox;
            let by = round_div(y2 as int, gr) - oy;
            let path = line_path(ax, ay, bx, by);
            let gs = draw_segments(g, path, 0);
            if path.len() >= 1 {
                cell_set(gs, path.last().0, path.last().1, '+', false)
            } else {
                gs
            }
        },
        Shape::Arrow { x1, y1, x2, y2, .. } => {
            let ax = round_div(x1 as int, gr) - ox;
            let ay = round_div(y1 as int, gr) - oy;
            let bx = round_div(x2 as int, gr) - ox;
            let by = round_div(y2 as int, gr) - oy;
            let path = line_path(ax, ay, bx, by);
            let gs = draw_segments(g, path, 0);
            cell_set(gs, bx, by, arrow_head_spec(bx - ax, by - ay), true)
        },
        _ => g,
    }
}

/// The middle layer: all lines and arrows, in input order.
pub open spec fn line_pass(
    g: Seq<Seq<char>>,
    shapes: Seq<Shape>,
    i: int,
    gr: int,
    ox: int,
    oy: int,
) -> Seq<Seq<char>>
    decreases shapes.len() - i,
{
    if i < 0 || i >= shapes.len() {
        g
    } else {
        line_pass(draw_line_shape(g, shapes[i], gr, ox, oy), shapes, i + 1, gr, ox, oy)
    }
}

/// The characters of a label from index `i` on, walked left to right
/// from column `cx`: each lands with priority; a wide character also
/// reserves the following cell with a blank; zero-width characters do
/// not advance.
pub open spec fn place_chars(
    g: Seq<Seq<char>>,
    chars: Seq<char>,
    i: int,
    cx: int,
    cy: int,
) -> Seq<Seq<char>>
    decreases chars.len() - i,
{
    if i < 0 || i >= chars.len() {
        g
    } else {
        let c = chars[i];
        let g1 = cell_set(g, cx, cy, c, true);
        if char_display_width(c) >= 2 {
            place_chars(cell_set(g1, cx + 1, cy, ' ', true), chars, i + 1, cx + 2, cy)
        } else if char_display_width(c) == 1 {
            place_chars(g1, chars, i + 1, cx + 1, cy)
        } else {
            place_chars(g1, chars, i + 1, cx, cy)
        }
    }
}

/// A text shape placed from its quantized, origin-shifted anchor;
/// other shapes leave the grid alone in this pass.
pub open spec fn draw_text_shape(
    g: Seq<Seq<char>>,
    s: Shape,
    gr: int,
    ox: int,
    oy: int,
) -> Seq<Seq<char>> {
    match s {
        Shape::Text { x, y, text, .. } => {
            let cx = round_div(x as int, gr) - ox;
            let cy = round_div(y as int, gr) - oy;
            place_chars(g, text@, 0, cx, cy)
        },
        _ => g,
    }
}

/// The top layer: all labels, in input order.
pub open spec fn text_pass(
    g: Seq<Seq<char>>,
    shapes: Seq<Shape>,
    i: int,
    gr: int,
    ox: int,
    oy: int,
) -> Seq<Seq<char>>
    decreases shapes.len() - i,
{
    if i < 0 || i >= shapes.len() {
        g
    } else {
        text_pass(draw_text_shape(g, shapes[i], gr, ox, oy), shapes, i + 1, gr, ox, oy)
    }
}

/// The grid after the three drawing passes, on a canvas sized to the
/// bounds plus a fixed two-cell margin; the empty grid when there are
/// no bounds.
pub open spec fn rendered_grid(shapes: Seq<Shape>, grid_cell_size: int) -> Seq<Seq<char>> {
    let gr = effective_grid(grid_cell_size);
    match bounds_spec(shapes, gr) {
        None => Seq::empty(),
        Some(b) => {
            let ox = b.0 - 2;
            let oy = b.1 - 2;
            let w = imax(b.2 - ox + 3, 1);
            let h = imax(b.3 - oy + 3, 1);
            let g0 = blank_grid(w, h);
            let g1 = rect_pass(g0, shapes, 0, gr, ox, oy);
            let g2 = line_pass(g1, shapes, 0, gr, ox, oy);
            text_pass(g2, shapes, 0, gr, ox, oy)
        },
    }
}

/// What the renderer returns: the empty string for an empty shape
/// list; otherwise the serialization of the rendered grid.
pub open spec fn render_spec(shapes: Seq<Shape>, grid_cell_size: int) -> Seq<char> {
    match bounds_spec(shapes, effective_grid(grid_cell_size)) {
        None => Seq::empty(),
        Some(b) => serialize(rendered_grid(shapes, grid_cell_size)),
    }
}

/// A governed cell write never changes the grid's dimensions.
pub proof fn lemma_cell_set_dims(g: Seq<Seq<char>>, x: int, y: int, ch: char, overwrite: bool)
    ensures
        cell_set(g, x, y, ch, overwrite).len() == g.len(),
        forall|i: int|
            0 <= i < g.len() ==> #[trigger] cell_set(g, x, y, ch, overwrite)[i].len()
                == g[i].len(),
{
}

/// Drawing a path's stroke glyphs never changes the grid's dimensions.
pub proof fn lemma_segments_dims(g: Seq<Seq<char>>, path: Seq<(int, int)>, i: int)
    ensures
        draw_segments(g, path, i).len() == g.len(),
        forall|r: int|
            0 <= r < g.len() ==> #[trigger] draw_segments(g, path, i)[r].len() == g[r].len(),
    decreases path.len() - i,
{
    if !(i < 0 || i + 1 >= path.len()) {
        let g1 = cell_set(
            g,
            path[i].0,
            path[i].1,
            line_char_spec(path[i + 1].0 - path[i].0, path[i + 1].1 - path[i].1),
            false,
        );
        lemma_cell_set_dims(
            g,
            path[i].0,
            path[i].1,
            line_char_spec(path[i + 1].0 - path[i].0, path[i + 1].1 - path[i].1),
            false,
        );
        lemma_segments_dims(g1, path, i + 1);
    }
}

/// The canvas cell an arrow's head lands on, origin-shifted.
pub open spec fn arrow_head_cell(s: Shape, gr: int, ox: int, oy: int) -> (int, int)
    recommends
        s is Arrow,
{
    match s {
        Shape::Arrow { x2, y2, .. } => (round_div(x2 as int, gr) - ox, round_div(y2 as int, gr)
            - oy),
        _ => (0, 0),
    }
}

/// The glyph an arrow's head shows; the origin shift cancels out of
/// the displacement, so it depends on the endpoints alone.
pub open spec fn arrow_glyph(s: Shape, gr: int) -> char
    recommends
        s is Arrow,
{
    match s {
        Shape::Arrow { x1, y1, x2, y2, .. } => arrow_head_spec(
            round_div(x2 as int, gr) - round_div(x1 as int, gr),
            round_div(y2 as int, gr) - round_div(y1 as int, gr),
        ),
        _ => ' ',
    }
}

/// Overlap priority: wherever an arrow's head cell lies on the canvas,
/// drawing the arrow leaves the head glyph there, replacing whatever a
/// box border or an earlier stroke had written; and the head glyph is
/// never a border character.
pub proof fn lemma_arrow_head_wins(g: Seq<Seq<char>>, a: Shape, gr: int, ox: int, oy: int)
    requires
        a is Arrow,
        ({
            let (hx, hy) = arrow_head_cell(a, gr, ox, oy);
            0 <= hy < g.len() && 0 <= hx < g[hy].len()
        }),
    ensures
        ({
            let (hx, hy) = arrow_head_cell(a, gr, ox, oy);
            let gd = draw_line_shape(g, a, gr, ox, oy);
            &&& gd[hy][hx] == arrow_glyph(a, gr)
            &&& arrow_glyph(a, gr) != '+'
            &&& arrow_glyph(a, gr) != '-'
            &&& arrow_glyph(a, gr) != '|'
        }),
{
    match a {
        Shape::Arrow { x1, y1, x2, y2, .. } => {
            let ax = round_div(x1 as int, gr) - ox;
            let ay = round_div(y1 as int, gr) - oy;
            let bx = round_div(x2 as int, gr) - ox;
            let by = round_div(y2 as int, gr) - oy;
            let path = line_path(ax, ay, bx, by);
            let gs = draw_segments(g, path, 0);
            lemma_segments_dims(g, path, 0);
            assert(arrow_head_spec(bx - ax, by - ay) == arrow_glyph(a, gr));
            assert(draw_line_shape(g, a, gr, ox, oy) == cell_set(
                gs,
                bx,
                by,
                arrow_glyph(a, gr),
                true,
            ));
        },
        _ => {},
    }
}

/// Drawing a rectangle's edges never changes the grid's dimensions.
pub proof fn lemma_hedges_dims(g: Seq<Seq<char>>, x: int, x1: int, y0: int, y1: int)
    ensures
        draw_hedges(g, x, x1, y0, y1).len() == g.len(),
        forall|r: int|
            0 <= r < g.len() ==> #[trigger] draw_hedges(g, x, x1, y0, y1)[r].len() == g[r].len(),
    decreases x1 - x,
{
    if x < x1 {
        let g1 = cell_set(cell_set(g, x, y0, '-', false), x, y1, '-', false);
        lemma_cell_set_dims(g, x, y0, '-', false);
        lemma_cell_set_dims(cell_set(g, x, y0, '-', false), x, y1, '-', false);
        lemma_hedges_dims(g1, x + 1, x1, y0, y1);
    }
}

/// Likewise for the vertical edges.
pub proof fn lemma_vedges_dims(g: Seq<Seq<char>>, y: int, y1: int, x0: int, x1: int)
    ensures
        draw_vedges(g, y, y1, x0, x1).len() == g.len(),
        forall|r: int|
            0 <= r < g.len() ==> #[trigger] draw_vedges(g, y, y1, x0, x1)[r].len() == g[r].len(),
    decreases y1 - y,
{
    if y < y1 {
        let g1 = cell_set(cell_set(g, x0, y, '|', false), x1, y, '|', false);
        lemma_cell_set_dims(g, x0, y, '|', false);
        lemma_cell_set_dims(cell_set(g, x0, y, '|', false), x1, y, '|', false);
        lemma_vedges_dims(g1, y + 1, y1, x0, x1);
    }
}

/// The whole base layer never changes the grid's dimensions.
pub proof fn lemma_rect_pass_dims(
    g: Seq<Seq<char>>,
    shapes: Seq<Shape>,
    i: int,
    gr: int,
    ox: int,
    oy: int,
)
    ensures
        rect_pass(g, shapes, i, gr, ox, oy).len() == g.len(),
        forall|r: int|
            0 <= r < g.len() ==> #[trigger] rect_pass(g, shapes, i, gr, ox, oy)[r].len()
                == g[r].len(),
    decreases shapes.len() - i,
{
    if !(i < 0 || i >= shapes.len()) {
        let gd = draw_rect_shape(g, shapes[i], gr, ox, oy);
        match shapes[i] {
            Shape::Rect { x, y, width, height, .. } => {
                let x0 = round_div(x as int, gr) - ox;
                let y0 = round_div(y as int, gr) - oy;
                let w = imax(round_div(width as int, gr), 1);
                let h = imax(round_div(height as int, gr), 1);
                let gc = cell_set(
                    cell_set(
                        cell_set(cell_set(g, x0, y0, '+', true), x0 + w, y0, '+', true),
                        x0,
                        y0 + h,
                        '+',
                        true,
                    ),
                    x0 + w,
                    y0 + h,
                    '+',
                    true,
                );
                lemma_cell_set_dims(g, x0, y0, '+', true);
                lemma_cell_set_dims(cell_set(g, x0, y0, '+', true), x0 + w, y0, '+', true);
                lemma_cell_set_dims(
                    cell_set(cell_set(g, x0, y0, '+', true), x0 + w, y0, '+', true),
                    x0,
                    y0 + h,
                    '+',
                    true,
                );
                lemma_cell_set_dims(
                    cell_set(
                        cell_set(cell_set(g, x0, y0, '+', true), x0 + w, y0, '+', true),
                        x0,
                        y0 + h,
                        '+',
                        true,
                    ),
                    x0 + w,
                    y0 + h,
                    '+',
                    true,
                );
                lemma_hedges_dims(gc, x0 + 1, x0 + w, y0, y0 + h);
                lemma_vedges_dims(
                    draw_hedges(gc, x0 + 1, x0 + w, y0, y0 + h),
                    y0 + 1,
                    y0 + h,
                    x0,
                    x0 + w,
                );
            },
            _ => {},
        }
        lemma_rect_pass_dims(gd, shapes, i + 1, gr, ox, oy);
    }
}

/// Overlap priority, end to end: render a box and an arrow whose head
/// may land anywhere, the box drawn first; in the finished grid the
/// arrow's head cell shows the arrowhead glyph, never a border
/// character of the box.
pub proof fn lemma_arrow_over_rect(r: Shape, a: Shape, grid_cell_size: int)
    requires
        r is Rect,
        a is Arrow,
    ensures
        ({
            let shapes = seq![r, a];
            let gr = effective_grid(grid_cell_size);
            let b = bounds_spec(shapes, gr)->Some_0;
            let (hx, hy) = arrow_head_cell(a, gr, b.0 - 2, b.1 - 2);
            &&& bounds_spec(shapes, gr) is Some
            &&& rendered_grid(shapes, grid_cell_size)[hy][hx] == arrow_glyph(a, gr)
            &&& arrow_glyph(a, gr) != '+'
            &&& arrow_glyph(a, gr) != '-'
            &&& arrow_glyph(a, gr) != '|'
        }),
{
    let shapes = seq![r, a];
    let gr = effective_grid(grid_cell_size);
    assert(shapes.drop_last() =~= seq![r]);
    assert(shapes.drop_last() == seq![r]);
    assert(seq![r].drop_last() =~= Seq::<Shape>::empty());
    assert(seq![r].drop_last() == Seq::<Shape>::empty());
    assert(shapes.last() == a);
    assert(seq![r].last() == r);
    let cb_r = shape_cell_bounds(r, gr);
    let cb_a = shape_cell_bounds(a, gr);
    assert(bounds_spec(Seq::<Shape>::empty(), gr) is None);
    assert(bounds_spec(seq![r], gr) == Some::<(int, int, int, int)>(cb_r));
    let b = merge_bounds(cb_r, cb_a);
    assert(bounds_spec(shapes, gr) == Some::<(int, int, int, int)>(b));
    let ox = b.0 - 2;
    let oy = b.1 - 2;
    let w = imax(b.2 - ox + 3, 1);
    let h = imax(b.3 - oy + 3, 1);
    let (hx, hy) = arrow_head_cell(a, gr, ox, oy);
    match a {
        Shape::Arrow { x1, y1, x2, y2, .. } => {
            let qbx = round_div(x2 as int, gr);
            let qby = round_div(y2 as int, gr);
            assert(cb_a.0 <= qbx <= cb_a.2);
            assert(cb_a.1 <= qby <= cb_a.3);
            assert(b.0 <= qbx <= b.2);
            assert(b.1 <= qby <= b.3);
            assert(hx == qbx - ox && hy == qby - oy);
            assert(2 <= hx <= b.2 - b.0 + 2 < w);
            assert(2 <= hy <= b.3 - b.1 + 2 < h);
        },
        _ => {},
    }
    let g0 = blank_grid(w, h);
    let g1 = rect_pass(g0, shapes, 0, gr, ox, oy);
    lemma_rect_pass_dims(g0, shapes, 0, gr, ox, oy);
    assert(g1.len() == h && g1[hy].len() == w);
    let g2 = line_pass(g1, shapes, 0, gr, ox, oy);
    assert(draw_line_shape(g1, shapes[0], gr, ox, oy) == g1);
    assert(g2 == line_pass(g1, shapes, 1, gr, ox, oy));
    let gd = draw_line_shape(g1, shapes[1], gr, ox, oy);
    assert(g2 == line_pass(gd, shapes, 2, gr, ox, oy));
    assert(g2 == gd);
    lemma_arrow_head_wins(g1, a, gr, ox, oy);
    let g3 = text_pass(g2, shapes, 0, gr, ox, oy);
    assert(draw_text_shape(g2, shapes[0], gr, ox, oy) == g2);
    assert(g3 == text_pass(g2, shapes, 1, gr, ox, oy));
    assert(draw_text_shape(g2, shapes[1], gr, ox, oy) == g2);
    assert(g3 == text_pass(g2, shapes, 2, gr, ox, oy));
    assert(g3 == g2);
    assert(rendered_grid(shapes, grid_cell_size) == g3);
}

/// Determinism: the rendered text is a function of the shape list and
/// the grid cell size alone; identical inputs render identically.
pub proof fn lemma_render_deterministic(
    shapes1: Seq<Shape>,
    shapes2: Seq<Shape>,
    grid1: int,
    grid2: int,
)
    requires
        shapes1 == shapes2,
        grid1 == grid2,
    ensures
        render_spec(shapes1, grid1) == render_spec(shapes2, grid2),
{
}

/// An empty shape list renders as the empty string, whatever the grid
/// cell size.
pub proof fn lemma_render_empty(grid_cell_size: int)
    ensures
        render_spec(Seq::<Shape>::empty(), grid_cell_size) == Seq::<char>::empty(),
{
}

/// Draw one rectangle's cells: corners first, then the edges.
fn draw_rect_cells(canvas: &mut Canvas, x0: i64, y0: i64, x1: i64, y1: i64)
    requires
        old(canvas).wf(),
        -4_200_000_000 <= x0 <= 4_200_000_000,
        -4_200_000_000 <= y0 <= 4_200_000_000,
        -4_200_000_000 <= x1 <= 4_200_000_000,
        -4_200_000_000 <= y1 <= 4_200_000_000,
    ensures
        final (canvas).wf(),
        final (canvas).width == old(canvas).width,
        final (canvas).height == old(canvas).height,
        final (canvas)@ == draw_rect(old(canvas)@, x0 as int, y0 as int, x1 as int, y1 as int),
{
    canvas.set(x0, y0, '+', true);
    canvas.set(x1, y0, '+', true);
    canvas.set(x0, y1, '+', true);
    canvas.set(x1, y1, '+', true);
    let ghost gc = canvas@;
    let mut xx: i64 = x0 + 1;
    while xx < x1
        invariant
            canvas.wf(),
            canvas.width == old(canvas).width,
            canvas.height == old(canvas).height,
            x0 + 1 <= xx,
            xx <= x1 || xx == x0 + 1,
            -4_200_000_000 <= y0 <= 4_200_000_000,
            -4_200_000_000 <= y1 <= 4_200_000_000,
            x1 <= 4_200_000_000,
            draw_hedges(canvas@, xx as int, x1 as int, y0 as int, y1 as int) == draw_hedges(
                gc,
                x0 as int + 1,
                x1 as int,
                y0 as int,
                y1 as int,
            ),
        decreases x1 - xx,
    {
        canvas.set(xx, y0, '-', false);
        canvas.set(xx, y1, '-', false);
        xx += 1;
    }
    let ghost gh = draw_hedges(gc, x0 as int + 1, x1 as int, y0 as int, y1 as int);
    proof {
        assert(canvas@ == gh);
    }
    let mut yy: i64 = y0 + 1;
    while yy < y1
        invariant
            canvas.wf(),
            canvas.width == old(canvas).width,
            canvas.height == old(canvas).height,
            y0 + 1 <= yy,
            yy <= y1 || yy == y0 + 1,
            -4_200_000_000 <= x0 <= 4_200_000_000,
            -4_200_000_000 <= x1 <= 4_200_000_000,
            y1 <= 4_200_000_000,
            draw_vedges(canvas@, yy as int, y1 as int, x0 as int, x1 as int) == draw_vedges(
                gh,
                y0 as int + 1,
                y1 as int,
                x0 as int,
                x1 as int,
            ),
        decreases y1 - yy,
    {
        canvas.set(x0, yy, '|', false);
        canvas.set(x1, yy, '|', false);
        yy += 1;
    }
}

/// Draw the stroke glyphs along a produced path.
fn draw_path_cells(canvas: &mut Canvas, pts: &Vec<(i64, i64)>)
    requires
        old(canvas).wf(),
        forall|k: int|
            0 <= k < pts@.len() ==> -4_200_000_000 <= (#[trigger] pts@[k]).0 <= 4_200_000_000
                && -4_200_000_000 <= pts@[k].1 <= 4_200_000_000,
    ensures
        final (canvas).wf(),
        final (canvas).width == old(canvas).width,
        final (canvas).height == old(canvas).height,
        final (canvas)@ == draw_segments(old(canvas)@, pts_view(pts@), 0),
{
    let ghost path = pts_view(pts@);
    let mut k: usize = 0;
    if pts.len() == 0 {
        return ;
    }
    let n = pts.len();
    while k < n - 1
        invariant
            n == pts@.len(),
            n >= 1,
            canvas.wf(),
            canvas.width == old(canvas).width,
            canvas.height == old(canvas).height,
            k <= pts@.len(),
            path == pts_view(pts@),
            forall|j: int|
                0 <= j < pts@.len() ==> -4_200_000_000 <= (#[trigger] pts@[j]).0 <= 4_200_000_000
                    && -4_200_000_000 <= pts@[j].1 <= 4_200_000_000,
            draw_segments(canvas@, path, k as int) == draw_segments(old(canvas)@, path, 0),
        decreases pts@.len() - k,
    {
        let p = pts[k];
        let q = pts[k + 1];
        let c = line_char(q.0 - p.0, q.1 - p.1);
        proof {
            assert(path[k as int] == (p.0 as int, p.1 as int));
            assert(path[k as int + 1] == (q.0 as int, q.1 as int));
        }
        canvas.set(p.0, p.1, c, false);
        k += 1;
    }
}

/// Place one label's characters from its starting cell.
fn place_label(canvas: &mut Canvas, text: &str, cx0: i64, cy: i64)
    requires
        old(canvas).wf(),
        -4_200_000_000 <= cx0 <= 4_200_000_000,
        -4_200_000_000 <= cy <= 4_200_000_000,
        text@.len() <= crate::shape::TEXT_LIMIT,
    ensures
        final (canvas).wf(),
        final (canvas).width == old(canvas).width,
        final (canvas).height == old(canvas).height,
        final (canvas)@ == place_chars(old(canvas)@, text@, 0, cx0 as int, cy as int),
{
    let chars = str_chars(text);
    let mut cx: i64 = cx0;
    let mut k: usize = 0;
    while k < chars.len()
        invariant
            canvas.wf(),
            canvas.width == old(canvas).width,
            canvas.height == old(canvas).height,
            chars@ == text@,
            k <= chars@.len(),
            chars@.len() <= crate::shape::TEXT_LIMIT,
            -4_200_000_000 <= cx0 <= 4_200_000_000,
            cx0 <= cx <= cx0 + 2 * k,
            place_chars(canvas@, text@, k as int, cx as int, cy as int) == place_chars(
                old(canvas)@,
                text@,
                0,
                cx0 as int,
                cy as int,
            ),
        decreases chars@.len() - k,
    {
        let ch = chars[k];
        let w = char_width(ch);
        canvas.set(cx, cy, ch, true);
        if w >= 2 {
            canvas.set(cx + 1, cy, ' ', true);
            cx += 2;
        } else if w == 1 {
            cx += 1;
        }
        k += 1;
    }
}

/// Rasterize the whole shape list onto a fresh canvas and serialize
/// it; the empty list yields the empty string.
pub fn export_ascii_impl(shapes: &Vec<Shape>, grid_cell_size: u32) -> (out: String)
    requires
        shapes_in_range(shapes@),
    ensures
        out@ == render_spec(shapes@, grid_cell_size as int),
{
    let ghost gr = effective_grid(grid_cell_size as int);
    let b = match bounds_in_cells(shapes, grid_cell_size) {
        None => {
            return String::new();
        },
        Some(b) => b,
    };
    let ox = b.0 - 2;
    let oy = b.1 - 2;
    let w64 = {
        let w = b.2 - ox + 3;
        if w < 1 {
            1
        } else {
            w
        }
    };
    let h64 = {
        let h = b.3 - oy + 3;
        if h < 1 {
            1
        } else {
            h
        }
    };
    let width = w64 as usize;
    let height = h64 as usize;
    let mut canvas = Canvas::new(width, height);
    let ghost g0 = canvas@;
    let mut i: usize = 0;
    while i < shapes.len()
        invariant
            canvas.wf(),
            canvas.width == width,
            canvas.height == height,
            shapes_in_range(shapes@),
            i <= shapes@.len(),
            -2_100_000_000 <= ox <= 2_100_000_000,
            -2_100_000_000 <= oy <= 2_100_000_000,
            gr == effective_grid(grid_cell_size as int),
            rect_pass(canvas@, shapes@, i as int, gr, ox as int, oy as int) == rect_pass(
                g0,
                shapes@,
                0,
                gr,
                ox as int,
                oy as int,
            ),
        decreases shapes@.len() - i,
    {
        match &shapes[i] {
            Shape::Rect { x, y, width, height, .. } => {
                let x0 = round_cell(*x, grid_cell_size) - ox;
                let y0 = round_cell(*y, grid_cell_size) - oy;
                let qw = round_cell(*width, grid_cell_size);
                let qh = round_cell(*height, grid_cell_size);
                let w = if qw < 1 {
                    1
                } else {
                    qw
                };
                let h = if qh < 1 {
                    1
                } else {
                    qh
                };
                draw_rect_cells(&mut canvas, x0, y0, x0 + w, y0 + h);
            },
            _ => {},
        }
        i += 1;
    }
    let ghost g1 = canvas@;
    proof {
        assert(g1 == rect_pass(g0, shapes@, 0, gr, ox as int, oy as int));
    }
    let mut i: usize = 0;
    while i < shapes.len()
        invariant
            canvas.wf(),
            canvas.width == width,
            canvas.height == height,
            shapes_in_range(shapes@),
            i <= shapes@.len(),
            -2_100_000_000 <= ox <= 2_100_000_000,
            -2_100_000_000 <= oy <= 2_100_000_000,
            gr == effective_grid(grid_cell_size as int),
            line_pass(canvas@, shapes@, i as int, gr, ox as int, oy as int) == line_pass(
                g1,
                shapes@,
                0,
                gr,
                ox as int,
                oy as int,
            ),
        decreases shapes@.len() - i,
    {
        match &shapes[i] {
            Shape::Line { x1, y1, x2, y2, .. } => {
                let ax = round_cell(*x1, grid_cell_size) - ox;
                let ay = round_cell(*y1, grid_cell_size) - oy;
                let bx = round_cell(*x2, grid_cell_size) - ox;
                let by = round_cell(*y2, grid_cell_size) - oy;
                let pts = bresenham_line((ax, ay), (bx, by));
                draw_path_cells(&mut canvas, &pts);
                let p = pts[pts.len() - 1];
                proof {
                    assert(pts_view(pts@).last() == (p.0 as int, p.1 as int));
                }
                canvas.set(p.0, p.1, '+', false);
            },
            Shape::Arrow { x1, y1, x2, y2, .. } => {
                let ax = round_cell(*x1, grid_cell_size) - ox;
                let ay = round_cell(*y1, grid_cell_size) - oy;
                let bx = round_cell(*x2, grid_cell_size) - ox;
                let by = round_cell(*y2, grid_cell_size) - oy;
                let pts = bresenham_line((ax, ay), (bx, by));
                draw_path_cells(&mut canvas, &pts);
                let head = arrow_head(bx - ax, by - ay);
                canvas.set(bx, by, head, true);
            },
            _ => {},
        }
        i += 1;
    }
    let ghost g2 = canvas@;
    proof {
        assert(g2 == line_pass(g1, shapes@, 0, gr, ox as int, oy as int));
    }
    let mut i: usize = 0;
    while i < shapes.len()
        invariant
            canvas.wf(),
            canvas.width == width,
            canvas.height == height,
            shapes_in_range(shapes@),
            i <= shapes@.len(),
            -2_100_000_000 <= ox <= 2_100_000_000,
            -2_100_000_000 <= oy <= 2_100_000_000,
            gr == effective_grid(grid_cell_size as int),
            text_pass(canvas@, shapes@, i as int, gr, ox as int, oy as int) == text_pass(
                g2,
                shapes@,
                0,
                gr,
                ox as int,
                oy as int,
            ),
        decreases shapes@.len() - i,
    {
        match &shapes[i] {
            Shape::Text { x, y, text, .. } => {
                let cx = round_cell(*x, grid_cell_size) - ox;
                let cy = round_cell(*y, grid_cell_size) - oy;
                place_label(&mut canvas, text.as_str(), cx, cy);
            },
            _ => {},
        }
        i += 1;
    }
    proof {
        assert(canvas@ == text_pass(g2, shapes@, 0, gr, ox as int, oy as int));
    }
    canvas.to_string()
}

/// The renderer as the surrounding application calls it: it accepts
/// every in-range shape list and never fails.
pub fn export_ascii(shapes: &Vec<Shape>, grid_cell_size: u32) -> (r: Result<String, String>)
    requires
        shapes_in_range(shapes@),
    ensures
        r matches Ok(out) && out@ == render_spec(shapes@, grid_cell_size as int),
{
    Ok(export_ascii_impl(shapes, grid_cell_size))
}

} // verus!

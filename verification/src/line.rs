//! Line rasterization: the integer Bresenham path between two cells
//! (8-connected, both axes may advance in one step), the glyph chosen
//! for each step, and the arrowhead glyph for an overall displacement.


use vstd::prelude::*;

verus! {

/// Absolute value over the mathematical integers.
pub open spec fn iabs(a: int) -> int {
    if a >= 0 {
        a
    } else {
        -a
    }
}

/// Glyph for one path step with displacement `(dx, dy)`.
pub open spec fn line_char_spec(dx: int, dy: int) -> char {
    if dx == 0 && dy == 0 {
        '+'
    } else if dx == 0 {
        '|'
    } else if dy == 0 {
        '-'
    } else if (dx > 0) == (dy > 0) {
        '\\'
    } else {
        '/'
    }
}

/// Pick the stroke glyph for a single step.
pub fn line_char(dx: i64, dy: i64) -> (c: char)
    ensures
        c == line_char_spec(dx as int, dy as int),
{
    if dx == 0 && dy == 0 {
        '+'
    } else if dx == 0 {
        '|'
    } else if dy == 0 {
        '-'
    } else if (dx > 0) == (dy > 0) {
        '\\'
    } else {
        '/'
    }
}

/// Arrowhead glyph for the overall start-to-end displacement: the
/// dominant axis picks the direction the head points.
pub open spec fn arrow_head_spec(dx: int, dy: int) -> char {
    if iabs(dx) >= iabs(dy) {
        if dx >= 0 {
            '>'
        } else {
            '<'
        }
    } else if dy >= 0 {
        'v'
    } else {
        '^'
    }
}

/// Pick the arrowhead glyph.
pub fn arrow_head(dx: i64, dy: i64) -> (c: char)
    requires
        dx > i64::MIN,
        dy > i64::MIN,
    ensures
        c == arrow_head_spec(dx as int, dy as int),
{
    let adx = if dx >= 0 {
        dx
    } else {
        -dx
    };
    let ady = if dy >= 0 {
        dy
    } else {
        -dy
    };
    if adx >= ady {
        if dx >= 0 {
            '>'
        } else {
            '<'
        }
    } else if dy >= 0 {
        'v'
    } else {
        '^'
    }
}

/// Direction of one axis step: toward the target endpoint.
pub open spec fn sign_step(from: int, to: int) -> int {
    if from < to {
        1
    } else {
        -1
    }
}

/// One unfolding of the Bresenham stepper: emit the current cell, then
/// advance x and/or y by one toward the target according to the
/// accumulated error. The distance guard mirrors the progress the
/// algorithm always makes and justifies termination.
pub open spec fn bres_rec(
    x0: int,
    y0: int,
    x1: int,
    y1: int,
    dx: int,
    sx: int,
    dy: int,
    sy: int,
    err: int,
) -> Seq<(int, int)>
    decreases iabs(x1 - x0) + iabs(y1 - y0),
{
    if x0 == x1 && y0 == y1 {
        seq![(x0, y0)]
    } else {
        let e2 = 2 * err;
        let nx = if e2 >= dy {
            x0 + sx
        } else {
            x0
        };
        let ny = if e2 <= dx {
            y0 + sy
        } else {
            y0
        };
        let nerr = err + (if e2 >= dy {
            dy
        } else {
            0
        }) + (if e2 <= dx {
            dx
        } else {
            0
        });
        if iabs(x1 - nx) + iabs(y1 - ny) < iabs(x1 - x0) + iabs(y1 - y0) {
            seq![(x0, y0)] + bres_rec(nx, ny, x1, y1, dx, sx, dy, sy, nerr)
        } else {
            seq![(x0, y0)]
        }
    }
}

/// The ordered cell path from `(ax, ay)` to `(bx, by)`.
pub open spec fn line_path(ax: int, ay: int, bx: int, by: int) -> Seq<(int, int)> {
    bres_rec(
        ax,
        ay,
        bx,
        by,
        iabs(bx - ax),
        sign_step(ax, bx),
        -iabs(by - ay),
        sign_step(ay, by),
        iabs(bx - ax) - iabs(by - ay),
    )
}

/// The integer view of the produced cell list.
pub open spec fn pts_view(v: Seq<(i64, i64)>) -> Seq<(int, int)> {
    v.map_values(|p: (i64, i64)| (p.0 as int, p.1 as int))
}

/// Largest cell coordinate magnitude the stepper accepts; keeps the
/// error accumulator within `i64`.
pub const CELL_LIMIT: i64 = 4_000_000_000;

/// Produce the ordered sequence of grid cells between the two
/// endpoints by integer Bresenham stepping; every produced cell lies
/// in the axis-aligned rectangle spanned by the endpoints.
pub fn bresenham_line(a: (i64, i64), b: (i64, i64)) -> (pts: Vec<(i64, i64)>)
    requires
        -CELL_LIMIT <= a.0 <= CELL_LIMIT,
        -CELL_LIMIT <= a.1 <= CELL_LIMIT,
        -CELL_LIMIT <= b.0 <= CELL_LIMIT,
        -CELL_LIMIT <= b.1 <= CELL_LIMIT,
    ensures
        pts_view(pts@) == line_path(a.0 as int, a.1 as int, b.0 as int, b.1 as int),
        pts@.len() >= 1,
        pts@[0].0 == a.0 && pts@[0].1 == a.1,
        pts@.last().0 == b.0 && pts@.last().1 == b.1,
        forall|k: int|
            0 <= k < pts@.len() ==> -CELL_LIMIT <= (#[trigger] pts@[k]).0 <= CELL_LIMIT
                && -CELL_LIMIT <= pts@[k].1 <= CELL_LIMIT,
{
    let (mut x0, mut y0) = a;
    let (x1, y1) = b;
    let dx: i64 = (if x0 < x1 {
        x1 - x0
    } else {
        x0 - x1
    });
    let sx: i64 = if x0 < x1 {
        1
    } else {
        -1
    };
    let dy: i64 = -(if y0 < y1 {
        y1 - y0
    } else {
        y0 - y1
    });
    let sy: i64 = if y0 < y1 {
        1
    } else {
        -1
    };
    let mut err: i128 = dx as i128 + dy as i128;
    let mut pts: Vec<(i64, i64)> = Vec::new();
    let ghost gdx = dx as int;
    let ghost ady = -(dy as int);
    let ghost target = line_path(a.0 as int, a.1 as int, b.0 as int, b.1 as int);
    let ghost mut px: int = 0;
    let ghost mut py: int = 0;
    loop
        invariant_except_break
            target == pts_view(pts@) + bres_rec(
                x0 as int,
                y0 as int,
                x1 as int,
                y1 as int,
                dx as int,
                sx as int,
                dy as int,
                sy as int,
                err as int,
            ),
        invariant
            dx == gdx,
            gdx == iabs(b.0 as int - a.0 as int),
            ady == iabs(b.1 as int - a.1 as int),
            dy == -ady,
            sx == sign_step(a.0 as int, b.0 as int),
            sy == sign_step(a.1 as int, b.1 as int),
            x1 == b.0 && y1 == b.1,
            0 <= px <= gdx,
            0 <= py <= ady,
            x0 == a.0 + sx * px,
            y0 == a.1 + sy * py,
            -CELL_LIMIT <= a.0 <= CELL_LIMIT,
            -CELL_LIMIT <= a.1 <= CELL_LIMIT,
            -CELL_LIMIT <= b.0 <= CELL_LIMIT,
            -CELL_LIMIT <= b.1 <= CELL_LIMIT,
            err == gdx - ady + py * gdx - px * ady,
            pts@.len() == 0 ==> px == 0 && py == 0,
            pts@.len() >= 1 ==> pts@[0].0 == a.0 && pts@[0].1 == a.1,
            forall|k: int|
                0 <= k < pts@.len() ==> -CELL_LIMIT <= (#[trigger] pts@[k]).0 <= CELL_LIMIT
                    && -CELL_LIMIT <= pts@[k].1 <= CELL_LIMIT,
        ensures
            pts_view(pts@) == target,
            pts@.len() >= 1,
            pts@[0].0 == a.0 && pts@[0].1 == a.1,
            pts@.last().0 == b.0 && pts@.last().1 == b.1,
            forall|k: int|
                0 <= k < pts@.len() ==> -CELL_LIMIT <= (#[trigger] pts@[k]).0 <= CELL_LIMIT
                    && -CELL_LIMIT <= pts@[k].1 <= CELL_LIMIT,
        decreases (gdx - px) + (ady - py) + 1,
    {
        proof {
            assert(iabs(x1 as int - x0 as int) == gdx - px && iabs(y1 as int - y0 as int) == ady
                - py) by (nonlinear_arith)
                requires
                    x0 == a.0 + sx * px,
                    y0 == a.1 + sy * py,
                    0 <= px <= gdx,
                    0 <= py <= ady,
                    gdx == iabs(b.0 as int - a.0 as int),
                    ady == iabs(b.1 as int - a.1 as int),
                    sx == sign_step(a.0 as int, b.0 as int),
                    sy == sign_step(a.1 as int, b.1 as int),
                    x1 == b.0 && y1 == b.1,
            ;
            assert(-CELL_LIMIT <= x0 <= CELL_LIMIT && -CELL_LIMIT <= y0 <= CELL_LIMIT);
        }
        let ghost pre_pts = pts@;
        pts.push((x0, y0));
        proof {
            assert(pts_view(pts@) =~= pts_view(pre_pts).push((x0 as int, y0 as int)));
            if pre_pts.len() == 0 {
                assert(pts@[0] == (x0, y0));
                assert(px == 0 && py == 0);
                assert(x0 == a.0 && y0 == a.1) by (nonlinear_arith)
                    requires
                        px == 0,
                        py == 0,
                        x0 == a.0 + sx * px,
                        y0 == a.1 + sy * py,
                ;
            } else {
                assert(pts@[0] == pre_pts[0]);
            }
        }
        if x0 == x1 && y0 == y1 {
            proof {
                assert(bres_rec(
                    x0 as int,
                    y0 as int,
                    x1 as int,
                    y1 as int,
                    dx as int,
                    sx as int,
                    dy as int,
                    sy as int,
                    err as int,
                ) =~= seq![(x0 as int, y0 as int)]);
                assert(target =~= pts_view(pts@));
            }
            break ;
        }
        proof {
            // the stepper never moves past an exhausted axis
            if px == gdx {
                assert(!(2 * (err as int) >= dy as int)) by (nonlinear_arith)
                    requires
                        err == gdx - ady + py * gdx - px * ady,
                        px == gdx,
                        0 <= py < ady,
                        dy == -ady,
                        gdx >= 0,
                ;
            }
            if py == ady {
                assert(!(2 * (err as int) <= dx as int)) by (nonlinear_arith)
                    requires
                        err == gdx - ady + py * gdx - px * ady,
                        py == ady,
                        0 <= px < gdx,
                        dx == gdx,
                        ady >= 0,
                ;
            }
        }
        proof {
            assert(-200_000_000_000_000_000_000 <= py * gdx - px * ady
                <= 200_000_000_000_000_000_000) by (nonlinear_arith)
                requires
                    0 <= px <= gdx,
                    0 <= py <= ady,
                    gdx <= 8_000_000_001,
                    ady <= 8_000_000_001,
            ;
        }
        let e2: i128 = 2 * err;
        let ghost old_err = err as int;
        let ghost entry_px = px;
        let ghost entry_py = py;
        let ghost old_x0 = x0 as int;
        let ghost old_y0 = y0 as int;
        let stepped_x: bool = e2 >= dy as i128;
        let stepped_y: bool = e2 <= dx as i128;
        if stepped_x {
            err += dy as i128;
            x0 += sx;
            proof {
                px = px + 1;
            }
        }
        if stepped_y {
            err += dx as i128;
            y0 += sy;
            proof {
                py = py + 1;
            }
        }
        proof {
            assert(stepped_x || stepped_y);
            assert(x0 == a.0 + sx * px && y0 == a.1 + sy * py) by (nonlinear_arith)
                requires
                    old_x0 == a.0 + sx * (if stepped_x {
                        px - 1
                    } else {
                        px
                    }),
                    old_y0 == a.1 + sy * (if stepped_y {
                        py - 1
                    } else {
                        py
                    }),
                    x0 == old_x0 + (if stepped_x {
                        sx as int
                    } else {
                        0
                    }),
                    y0 == old_y0 + (if stepped_y {
                        sy as int
                    } else {
                        0
                    }),
            ;
            assert(err == gdx - ady + py * gdx - px * ady) by (nonlinear_arith)
                requires
                    old_err == gdx - ady + (if stepped_y {
                        py - 1
                    } else {
                        py
                    }) * gdx - (if stepped_x {
                        px - 1
                    } else {
                        px
                    }) * ady,
                    err == old_err + (if stepped_x {
                        -ady
                    } else {
                        0
                    }) + (if stepped_y {
                        gdx
                    } else {
                        0
                    }),
            ;
            assert(iabs(x1 as int - x0 as int) == gdx - px && iabs(y1 as int - y0 as int) == ady
                - py) by (nonlinear_arith)
                requires
                    x0 == a.0 + sx * px,
                    y0 == a.1 + sy * py,
                    0 <= px <= gdx,
                    0 <= py <= ady,
                    gdx == iabs(b.0 as int - a.0 as int),
                    ady == iabs(b.1 as int - a.1 as int),
                    sx == sign_step(a.0 as int, b.0 as int),
                    sy == sign_step(a.1 as int, b.1 as int),
                    x1 == b.0 && y1 == b.1,
            ;
            let old_rest = bres_rec(
                old_x0,
                old_y0,
                x1 as int,
                y1 as int,
                dx as int,
                sx as int,
                dy as int,
                sy as int,
                old_err,
            );
            let new_rest = bres_rec(
                x0 as int,
                y0 as int,
                x1 as int,
                y1 as int,
                dx as int,
                sx as int,
                dy as int,
                sy as int,
                err as int,
            );
            assert(old_rest == seq![(old_x0, old_y0)] + new_rest);
            assert(target =~= pts_view(pts@) + new_rest);
        }
    }
    pts
}

} // verus!

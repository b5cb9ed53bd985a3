//! Ellipse rasterization.
//!
//! The stroke walks the four-region midpoint algorithm over scaled integer
//! decision variables: region one steps the column while the curve's slope
//! is shallow, region two steps the row until it reaches the axis, and each
//! step emits four mirrored points.  The fill tests every pixel of the
//! bounding box against the scaled implicit equation
//! `x²·ry² + y²·rx² <= rx²·ry²`, which needs no per-pixel division.

use crate::color::Color;
use crate::coord::Coord;
use crate::drawing::Graphics;
use crate::drawing::gfx_wf;
use crate::drawing::lemma_paint_concat;
use crate::drawing::lemma_paint_config;
use crate::drawing::lemma_upd_buf_config;
use crate::drawing::paint;
use crate::drawing::upd_buf;
use crate::rendering::imax;
use crate::rendering::paint_wide;
use crate::rendering::wide_seq;
use crate::shapes::DrawType;
use crate::shapes::Ellipse;
use vstd::prelude::*;

verus! {

/// The four symmetric points one midpoint-ellipse step emits.
pub open spec fn ell_quad(cx: int, cy: int, x: int, y: int) -> Seq<(int, int)> {
    seq![(cx + x, cy + y), (cx - x, cy + y), (cx + x, cy - y), (cx - x, cy - y)]
}

/// The second-region walk from state `(x, y, p)`: four mirrored points per
/// row while `y` has not passed the horizontal axis, the decision variable
/// `p` choosing whether `x` also steps.
pub open spec fn ell_r2_seq(cx: int, cy: int, x: int, y: int, p: int, rx2: int, ry2: int) -> Seq<
    (int, int),
>
    decreases y + 1,
    when y >= -1
{
    if y < 0 {
        Seq::empty()
    } else {
        ell_quad(cx, cy, x, y) + (if p > 0 {
            ell_r2_seq(cx, cy, x, y - 1, p - 8 * rx2 * (y - 1) - 4 * rx2, rx2, ry2)
        } else {
            ell_r2_seq(
                cx,
                cy,
                x + 1,
                y - 1,
                p + 8 * ry2 * (x + 1) - 8 * rx2 * (y - 1) + 4 * rx2,
                rx2,
                ry2,
            )
        })
    }
}

/// The whole stroke walk from a first-region state `(x, y, p)`: while the
/// slope is shallow (`2·ry²·x < 2·rx²·y`) it emits a quad and steps the
/// column, `p` choosing whether the row steps too; when the slope turns it
/// reseeds the decision variable and hands over to the second region.
pub open spec fn ell_stroke_seq(cx: int, cy: int, x: int, y: int, p: int, rx2: int, ry2: int) -> Seq<
    (int, int),
>
    decreases imax(rx2 * y - ry2 * x, 0),
    when rx2 >= 0 && ry2 >= 0 && (ry2 == 0 ==> y <= 0)
    via ell_stroke_seq_dec
{
    if 2 * ry2 * x < 2 * rx2 * y {
        ell_quad(cx, cy, x, y) + (if p < 0 {
            ell_stroke_seq(cx, cy, x + 1, y, p + 8 * ry2 * (x + 1) + 4 * ry2, rx2, ry2)
        } else {
            ell_stroke_seq(
                cx,
                cy,
                x + 1,
                y - 1,
                p + 8 * ry2 * (x + 1) - 8 * rx2 * (y - 1) + 4 * ry2,
                rx2,
                ry2,
            )
        })
    } else {
        ell_r2_seq(
            cx,
            cy,
            x,
            y,
            ry2 * (2 * x + 1) * (2 * x + 1) + 4 * rx2 * (y - 1) * (y - 1) - 4 * rx2 * ry2,
            rx2,
            ry2,
        )
    }
}

#[via_fn]
proof fn ell_stroke_seq_dec(cx: int, cy: int, x: int, y: int, p: int, rx2: int, ry2: int) {
    if rx2 >= 0 && ry2 >= 0 && (ry2 == 0 ==> y <= 0) && 2 * ry2 * x < 2 * rx2 * y {
        assert(ry2 >= 1 && rx2 * y - ry2 * x >= 1) by (nonlinear_arith)
            requires
                rx2 >= 0 && ry2 >= 0 && (ry2 == 0 ==> y <= 0) && 2 * ry2 * x < 2 * rx2 * y,
        ;
        assert(rx2 * y - ry2 * (x + 1) == rx2 * y - ry2 * x - ry2) by (nonlinear_arith);
        assert(rx2 * (y - 1) - ry2 * (x + 1) == rx2 * y - ry2 * x - rx2 - ry2) by (nonlinear_arith);
    }
}

/// One fill row: each column of `[x, rx)` whose pixel satisfies the scaled
/// implicit equation contributes one point on row `cy + y`.
pub open spec fn ell_fill_row(
    cx: int,
    cy: int,
    y: int,
    x: int,
    rx: int,
    rx2: int,
    ry2: int,
) -> Seq<(int, int)>
    decreases rx - x,
    when x <= rx
{
    if x >= rx {
        Seq::empty()
    } else {
        (if x * x * ry2 + y * y * rx2 <= rx2 * ry2 {
            seq![(cx + x, cy + y)]
        } else {
            Seq::empty()
        }) + ell_fill_row(cx, cy, y, x + 1, rx, rx2, ry2)
    }
}

/// The fill rows from `y` up to `ry`, each scanning columns `[-rx, rx)`.
pub open spec fn ell_fill_rows(
    cx: int,
    cy: int,
    y: int,
    ry: int,
    rx: int,
    rx2: int,
    ry2: int,
) -> Seq<(int, int)>
    decreases ry - y,
    when y <= ry
{
    if y >= ry {
        Seq::empty()
    } else {
        ell_fill_row(cx, cy, y, -rx, rx, rx2, ry2) + ell_fill_rows(cx, cy, y + 1, ry, rx, rx2, ry2)
    }
}

/// The ordered pixels of an ellipse with semi-axes `rx` and `ry`: the
/// midpoint outline always, and for a fill additionally every bounding-box
/// pixel inside the implicit equation, row by row.
pub open spec fn ellipse_seq(center: Coord, rx: int, ry: int, draw_type: DrawType) -> Seq<
    (int, int),
> {
    let stroke = ell_stroke_seq(
        center.x as int,
        center.y as int,
        0,
        ry,
        4 * (ry * ry) - 4 * (rx * rx) * ry + rx * rx,
        rx * rx,
        ry * ry,
    );
    if draw_type is Stroke {
        stroke
    } else {
        stroke + ell_fill_rows(center.x as int, center.y as int, -ry, ry, rx, rx * rx, ry * ry)
    }
}

/// Draw an ellipse centred on `center` with the given full width and
/// height: the midpoint outline for a stroke, outline plus implicit-
/// equation fill for a fill.
#[verifier::rlimit(100)]
pub fn ellipse_draw(
    graphics: &mut Graphics,
    center: Coord,
    width: usize,
    height: usize,
    draw_type: DrawType,
)
    requires
        gfx_wf(*old(graphics)),
        width <= 0x8000_0000,
        height <= 0x8000_0000,
    ensures
        gfx_wf(*final(graphics)),
        *final(graphics) == (Graphics { buffer: final(graphics).buffer, ..*old(graphics) }),
        final(graphics).buffer@ == paint(
            *old(graphics),
            old(graphics).buffer@,
            ellipse_seq(center, (width / 2) as int, (height / 2) as int, draw_type),
            draw_type.spec_color(),
        ),
{
    let color = draw_type.color();
    let ghost g0 = *old(graphics);
    let rx: i128 = (width / 2) as i128;
    let ry: i128 = (height / 2) as i128;
    proof {
        assert(0 <= rx * rx <= 0x1000_0000_0000_0000 && 0 <= ry * ry <= 0x1000_0000_0000_0000)
            by (nonlinear_arith)
            requires
                0 <= rx <= 0x4000_0000 && 0 <= ry <= 0x4000_0000,
        ;
    }
    let rx2: i128 = rx * rx;
    let ry2: i128 = ry * ry;
    proof {
        assert(0 <= 4 * rx2 * ry <= 0x1_0000_0000_0000_0000_0000_0000) by (nonlinear_arith)
            requires
                0 <= rx2 <= 0x1000_0000_0000_0000 && 0 <= ry <= 0x4000_0000,
        ;
    }
    let cx: i128 = center.x as i128;
    let cy: i128 = center.y as i128;
    let is_fill = match draw_type {
        DrawType::Stroke(_) => false,
        DrawType::Fill(_) => true,
    };
    let ghost fill_part = if draw_type is Fill {
        ell_fill_rows(cx as int, cy as int, -(ry as int), ry as int, rx as int, rx2 as int, ry2 as int)
    } else {
        Seq::<(int, int)>::empty()
    };
    let ghost full = ellipse_seq(center, rx as int, ry as int, draw_type);
    let mut x: i128 = 0;
    let mut y: i128 = ry;
    let mut p: i128 = 4 * ry2 - 4 * rx2 * ry + rx2;
    proof {
        assert(p == 4 * ry2 * (0 + 1) * (0 + 1) + rx2 * (2 * ry - 1) * (2 * ry - 1) - 4 * rx2
            * ry2) by (nonlinear_arith)
            requires
                p == 4 * ry2 - 4 * rx2 * ry + rx2 && ry2 == ry * ry,
        ;
        assert(0 <= 2 * ry2 * x <= 0x1_0000_0000_0000_0000_0000_0000 && 0 <= 2 * rx2 * y
            <= 0x1_0000_0000_0000_0000_0000_0000) by (nonlinear_arith)
            requires
                x == 0 && 0 <= y <= 0x4000_0000 && 0 <= rx2 <= 0x1000_0000_0000_0000 && 0 <= ry2
                    <= 0x1000_0000_0000_0000,
        ;
        assert(full =~= ell_stroke_seq(
            cx as int,
            cy as int,
            0,
            ry as int,
            p as int,
            rx2 as int,
            ry2 as int,
        ) + fill_part);
    }
    while 2 * ry2 * x < 2 * rx2 * y
        invariant
            0 <= rx <= 0x4000_0000,
            0 <= ry <= 0x4000_0000,
            rx2 == rx * rx,
            ry2 == ry * ry,
            0 <= rx2 <= 0x1000_0000_0000_0000,
            0 <= ry2 <= 0x1000_0000_0000_0000,
            cx == center.x as int,
            cy == center.y as int,
            0 <= y <= ry,
            0 <= x <= rx + 1 + (ry - y),
            0 <= 2 * ry2 * x <= 0x1_0000_0000_0000_0000_0000_0000,
            0 <= 2 * rx2 * y <= 0x1_0000_0000_0000_0000_0000_0000,
            p == 4 * ry2 * (x + 1) * (x + 1) + rx2 * (2 * y - 1) * (2 * y - 1) - 4 * rx2 * ry2,
            color == draw_type.spec_color(),
            g0 == *old(graphics),
            gfx_wf(*graphics),
            *graphics == (Graphics { buffer: graphics.buffer, ..g0 }),
            paint(g0, old(graphics).buffer@, full, color) == paint(
                g0,
                graphics.buffer@,
                ell_stroke_seq(
                    cx as int,
                    cy as int,
                    x as int,
                    y as int,
                    p as int,
                    rx2 as int,
                    ry2 as int,
                ) + fill_part,
                color,
            ),
        decreases imax(rx2 * y - ry2 * x, 0),
    {
        proof {
            assert(rx2 >= 1 && y >= 1) by (nonlinear_arith)
                requires
                    2 * ry2 * x < 2 * rx2 * y && ry2 >= 0 && x >= 0 && rx2 >= 0,
            ;
            assert(ry2 >= 1) by (nonlinear_arith)
                requires
                    ry2 == ry * ry && ry >= 1,
            ;
            assert(rx2 * y - ry2 * x >= 1) by (nonlinear_arith)
                requires
                    2 * ry2 * x < 2 * rx2 * y,
            ;
            assert(0 <= 4 * ry2 * (x + 1) * (x + 1) <= 0x2000_0000_0000_0000_0000_0000_0000_0000)
                by (nonlinear_arith)
                requires
                    0 <= x <= 0x8000_0001 && 0 <= ry2 <= 0x1000_0000_0000_0000,
            ;
            assert(0 <= rx2 * (2 * y - 1) * (2 * y - 1)
                <= 0x1000_0000_0000_0000_0000_0000_0000_0000) by (nonlinear_arith)
                requires
                    1 <= y <= 0x4000_0000 && 0 <= rx2 <= 0x1000_0000_0000_0000,
            ;
            assert(0 <= 4 * rx2 * ry2 <= 0x1000_0000_0000_0000_0000_0000_0000_0000)
                by (nonlinear_arith)
                requires
                    0 <= rx2 <= 0x1000_0000_0000_0000 && 0 <= ry2 <= 0x1000_0000_0000_0000,
            ;
            assert(0 <= 8 * ry2 * (x + 1) <= 0x1_0000_0000_0000_0000_0000_0000)
                by (nonlinear_arith)
                requires
                    0 <= x <= 0x8000_0001 && 0 <= ry2 <= 0x1000_0000_0000_0000,
            ;
            assert(0 <= 8 * rx2 * (y - 1) <= 0x1_0000_0000_0000_0000_0000_0000)
                by (nonlinear_arith)
                requires
                    1 <= y <= 0x4000_0000 && 0 <= rx2 <= 0x1000_0000_0000_0000,
            ;
        }
        let ghost batch = ell_quad(cx as int, cy as int, x as int, y as int);
        let ghost pre = *graphics;
        let mut v: Vec<(i128, i128)> = Vec::new();
        v.push((cx + x, cy + y));
        v.push((cx - x, cy + y));
        v.push((cx + x, cy - y));
        v.push((cx - x, cy - y));
        proof {
            assert(wide_seq(v@) =~= batch);
            assert(forall|j: int|
                0 <= j < v@.len() ==> -0x1_0000_0000_0000_0000_0000 <= (#[trigger] v@[j]).0
                    <= 0x1_0000_0000_0000_0000_0000 && -0x1_0000_0000_0000_0000_0000 <= v@[j].1
                    <= 0x1_0000_0000_0000_0000_0000);
        }
        paint_wide(graphics, &v, color);
        proof {
            lemma_paint_config(g0, pre, pre.buffer@, batch, color);
        }
        if p < 0 {
            proof {
                let tail = ell_stroke_seq(
                    cx as int,
                    cy as int,
                    x as int + 1,
                    y as int,
                    p as int + 8 * (ry2 as int) * (x as int + 1) + 4 * (ry2 as int),
                    rx2 as int,
                    ry2 as int,
                );
                assert(ell_stroke_seq(
                    cx as int,
                    cy as int,
                    x as int,
                    y as int,
                    p as int,
                    rx2 as int,
                    ry2 as int,
                ) == batch + tail);
                assert((batch + tail) + fill_part =~= batch + (tail + fill_part));
                lemma_paint_concat(g0, pre.buffer@, batch, tail + fill_part, color);
                assert(rx2 * (2 * y - 1) * (2 * y - 1) >= 0) by (nonlinear_arith)
                    requires
                        rx2 >= 0,
                ;
                assert(4 * ry2 * (x + 1) * (x + 1) < 4 * rx2 * ry2);
                assert(x + 1 <= rx) by (nonlinear_arith)
                    requires
                        4 * ry2 * (x + 1) * (x + 1) < 4 * rx2 * ry2 && ry2 >= 1 && rx2 == rx * rx
                            && rx >= 0 && x >= 0,
                ;
                assert(p + 8 * ry2 * (x + 1) + 4 * ry2 == 4 * ry2 * ((x + 1) + 1) * ((x + 1) + 1)
                    + rx2 * (2 * y - 1) * (2 * y - 1) - 4 * rx2 * ry2) by (nonlinear_arith)
                    requires
                        p == 4 * ry2 * (x + 1) * (x + 1) + rx2 * (2 * y - 1) * (2 * y - 1) - 4
                            * rx2 * ry2,
                ;
                assert(rx2 * (y as int) - ry2 * (x as int + 1) == rx2 * (y as int) - ry2 * (
                x as int) - ry2) by (nonlinear_arith);
            }
            p = p + 8 * ry2 * (x + 1) + 4 * ry2;
        } else {
            proof {
                let tail = ell_stroke_seq(
                    cx as int,
                    cy as int,
                    x as int + 1,
                    y as int - 1,
                    p as int + 8 * (ry2 as int) * (x as int + 1) - 8 * (rx2 as int) * (y as int - 1)
                        + 4 * (ry2 as int),
                    rx2 as int,
                    ry2 as int,
                );
                assert(ell_stroke_seq(
                    cx as int,
                    cy as int,
                    x as int,
                    y as int,
                    p as int,
                    rx2 as int,
                    ry2 as int,
                ) == batch + tail);
                assert((batch + tail) + fill_part =~= batch + (tail + fill_part));
                lemma_paint_concat(g0, pre.buffer@, batch, tail + fill_part, color);
                assert(p + 8 * ry2 * (x + 1) - 8 * rx2 * (y - 1) + 4 * ry2 == 4 * ry2 * ((x + 1)
                    + 1) * ((x + 1) + 1) + rx2 * (2 * (y - 1) - 1) * (2 * (y - 1) - 1) - 4 * rx2
                    * ry2) by (nonlinear_arith)
                    requires
                        p == 4 * ry2 * (x + 1) * (x + 1) + rx2 * (2 * y - 1) * (2 * y - 1) - 4
                            * rx2 * ry2,
                ;
                assert(rx2 * (y as int - 1) - ry2 * (x as int + 1) == rx2 * (y as int) - ry2 * (
                x as int) - rx2 - ry2) by (nonlinear_arith);
            }
            p = p + 8 * ry2 * (x + 1) - 8 * rx2 * (y - 1) + 4 * ry2;
            y = y - 1;
        }
        x = x + 1;
        proof {
            assert(0 <= 2 * ry2 * x <= 0x1_0000_0000_0000_0000_0000_0000 && 0 <= 2 * rx2 * y
                <= 0x1_0000_0000_0000_0000_0000_0000) by (nonlinear_arith)
                requires
                    0 <= x <= 0x8000_0002 && 0 <= y <= 0x4000_0000 && 0 <= rx2
                        <= 0x1000_0000_0000_0000 && 0 <= ry2 <= 0x1000_0000_0000_0000,
            ;
        }
    }
    proof {
        assert(0 <= (2 * (x as int) + 1) * (2 * (x as int) + 1) <= 0x2_0000_0000_0000_0000)
            by (nonlinear_arith)
            requires
                0 <= x <= 0x8000_0001,
        ;
        assert(0 <= ry2 * ((2 * (x as int) + 1) * (2 * (x as int) + 1))
            <= 0x2000_0000_0000_0000_0000_0000_0000_0000) by (nonlinear_arith)
            requires
                0 <= x <= 0x8000_0001 && 0 <= ry2 <= 0x1000_0000_0000_0000,
        ;
        assert(0 <= (y as int - 1) * (y as int - 1) <= 0x1000_0000_0000_0000)
            by (nonlinear_arith)
            requires
                0 <= y <= 0x4000_0000,
        ;
        assert(0 <= 4 * rx2 * ((y as int - 1) * (y as int - 1))
            <= 0x1000_0000_0000_0000_0000_0000_0000_0000) by (nonlinear_arith)
            requires
                0 <= y <= 0x4000_0000 && 0 <= rx2 <= 0x1000_0000_0000_0000,
        ;
        assert(0 <= 4 * rx2 * ry2 <= 0x1000_0000_0000_0000_0000_0000_0000_0000)
            by (nonlinear_arith)
            requires
                0 <= rx2 <= 0x1000_0000_0000_0000 && 0 <= ry2 <= 0x1000_0000_0000_0000,
        ;
        assert(ry2 == 0 ==> ry == 0) by (nonlinear_arith)
            requires
                ry2 == ry * ry,
        ;
    }
    let mut p2: i128 = ry2 * ((2 * x + 1) * (2 * x + 1)) + 4 * rx2 * ((y - 1) * (y - 1)) - 4 * rx2
        * ry2;
    let ghost xs = x as int;
    let ghost ys = y as int;
    proof {
        assert(p2 == ry2 * (2 * (x as int) + 1) * (2 * (x as int) + 1) + 4 * rx2 * (y as int - 1)
            * (y as int - 1) - 4 * rx2 * ry2 - 8 * rx2 * ((ys - y) - (x - xs)) && p2 == ry2 * (2
            * (x as int) + 1) * (2 * (x as int) + 1) + 4 * rx2 * (y as int - 1) * (y as int - 1)
            - 4 * rx2 * ry2) by (nonlinear_arith)
            requires
                p2 == ry2 * ((2 * (x as int) + 1) * (2 * (x as int) + 1)) + 4 * rx2 * ((y as int
                    - 1) * (y as int - 1)) - 4 * rx2 * ry2 && xs == x as int && ys == y as int,
        ;
        assert(ell_stroke_seq(
            cx as int,
            cy as int,
            x as int,
            y as int,
            p as int,
            rx2 as int,
            ry2 as int,
        ) == ell_r2_seq(cx as int, cy as int, x as int, y as int, p2 as int, rx2 as int, ry2 as int));
    }
    while y >= 0
        invariant
            0 <= rx <= 0x4000_0000,
            0 <= ry <= 0x4000_0000,
            rx2 == rx * rx,
            ry2 == ry * ry,
            0 <= rx2 <= 0x1000_0000_0000_0000,
            0 <= ry2 <= 0x1000_0000_0000_0000,
            cx == center.x as int,
            cy == center.y as int,
            -1 <= y <= ys,
            0 <= ys <= ry,
            0 <= xs <= rx + 1 + ry,
            xs <= x <= xs + (ys - y),
            p2 == ry2 * (2 * x + 1) * (2 * x + 1) + 4 * rx2 * (y - 1) * (y - 1) - 4 * rx2 * ry2 - 8
                * rx2 * ((ys - y) - (x - xs)),
            0 <= (ys - y) - (x - xs),
            color == draw_type.spec_color(),
            g0 == *old(graphics),
            gfx_wf(*graphics),
            *graphics == (Graphics { buffer: graphics.buffer, ..g0 }),
            paint(g0, old(graphics).buffer@, full, color) == paint(
                g0,
                graphics.buffer@,
                ell_r2_seq(
                    cx as int,
                    cy as int,
                    x as int,
                    y as int,
                    p2 as int,
                    rx2 as int,
                    ry2 as int,
                ) + fill_part,
                color,
            ),
        decreases y + 1,
    {
        proof {
            assert(0 <= ry2 * (2 * x + 1) * (2 * x + 1)
                <= 0x4000_0000_0000_0000_0000_0000_0000_0000) by (nonlinear_arith)
                requires
                    0 <= x <= 0xC000_0002 && 0 <= ry2 <= 0x1000_0000_0000_0000,
            ;
            assert(0 <= 4 * rx2 * (y - 1) * (y - 1)
                <= 0x1000_0000_0000_0000_0000_0000_0000_0000) by (nonlinear_arith)
                requires
                    0 <= y <= 0x4000_0000 && 0 <= rx2 <= 0x1000_0000_0000_0000,
            ;
            assert(0 <= 4 * rx2 * ry2 <= 0x1000_0000_0000_0000_0000_0000_0000_0000)
                by (nonlinear_arith)
                requires
                    0 <= rx2 <= 0x1000_0000_0000_0000 && 0 <= ry2 <= 0x1000_0000_0000_0000,
            ;
            assert(0 <= 8 * rx2 * ((ys - y) - (x - xs)) <= 0x1_0000_0000_0000_0000_0000_0000)
                by (nonlinear_arith)
                requires
                    0 <= (ys - y) - (x - xs) <= 0x8000_0002 && 0 <= rx2 <= 0x1000_0000_0000_0000,
            ;
            assert(0 <= 8 * ry2 * (x + 1) <= 0x2_0000_0000_0000_0000_0000_0000)
                by (nonlinear_arith)
                requires
                    0 <= x <= 0xC000_0002 && 0 <= ry2 <= 0x1000_0000_0000_0000,
            ;
            assert(-0x2_0000_0000_0000_0000_0000_0000 <= 8 * rx2 * (y - 1)
                <= 0x2_0000_0000_0000_0000_0000_0000) by (nonlinear_arith)
                requires
                    -1 <= y <= 0x4000_0000 && 0 <= rx2 <= 0x1000_0000_0000_0000,
            ;
        }
        let ghost batch = ell_quad(cx as int, cy as int, x as int, y as int);
        let ghost pre = *graphics;
        let mut v: Vec<(i128, i128)> = Vec::new();
        v.push((cx + x, cy + y));
        v.push((cx - x, cy + y));
        v.push((cx + x, cy - y));
        v.push((cx - x, cy - y));
        proof {
            assert(wide_seq(v@) =~= batch);
            assert(forall|j: int|
                0 <= j < v@.len() ==> -0x1_0000_0000_0000_0000_0000 <= (#[trigger] v@[j]).0
                    <= 0x1_0000_0000_0000_0000_0000 && -0x1_0000_0000_0000_0000_0000 <= v@[j].1
                    <= 0x1_0000_0000_0000_0000_0000);
        }
        paint_wide(graphics, &v, color);
        proof {
            lemma_paint_config(g0, pre, pre.buffer@, batch, color);
        }
        if p2 > 0 {
            proof {
                let tail = ell_r2_seq(
                    cx as int,
                    cy as int,
                    x as int,
                    y as int - 1,
                    p2 as int - 8 * (rx2 as int) * (y as int - 1) - 4 * (rx2 as int),
                    rx2 as int,
                    ry2 as int,
                );
                assert(ell_r2_seq(
                    cx as int,
                    cy as int,
                    x as int,
                    y as int,
                    p2 as int,
                    rx2 as int,
                    ry2 as int,
                ) == batch + tail);
                assert((batch + tail) + fill_part =~= batch + (tail + fill_part));
                lemma_paint_concat(g0, pre.buffer@, batch, tail + fill_part, color);
                assert(p2 - 8 * rx2 * (y - 1) - 4 * rx2 == ry2 * (2 * x + 1) * (2 * x + 1) + 4
                    * rx2 * ((y - 1) - 1) * ((y - 1) - 1) - 4 * rx2 * ry2 - 8 * rx2 * ((ys - (y
                    - 1)) - (x - xs))) by (nonlinear_arith)
                    requires
                        p2 == ry2 * (2 * x + 1) * (2 * x + 1) + 4 * rx2 * (y - 1) * (y - 1) - 4
                            * rx2 * ry2 - 8 * rx2 * ((ys - y) - (x - xs)),
                ;
            }
            p2 = p2 - 8 * rx2 * (y - 1) - 4 * rx2;
            y = y - 1;
        } else {
            proof {
                let tail = ell_r2_seq(
                    cx as int,
                    cy as int,
                    x as int + 1,
                    y as int - 1,
                    p2 as int + 8 * (ry2 as int) * (x as int + 1) - 8 * (rx2 as int) * (y as int
                        - 1) + 4 * (rx2 as int),
                    rx2 as int,
                    ry2 as int,
                );
                assert(ell_r2_seq(
                    cx as int,
                    cy as int,
                    x as int,
                    y as int,
                    p2 as int,
                    rx2 as int,
                    ry2 as int,
                ) == batch + tail);
                assert((batch + tail) + fill_part =~= batch + (tail + fill_part));
                lemma_paint_concat(g0, pre.buffer@, batch, tail + fill_part, color);
                assert(p2 + 8 * ry2 * (x + 1) - 8 * rx2 * (y - 1) + 4 * rx2 == ry2 * (2 * (x + 1)
                    + 1) * (2 * (x + 1) + 1) + 4 * rx2 * ((y - 1) - 1) * ((y - 1) - 1) - 4 * rx2
                    * ry2 - 8 * rx2 * ((ys - (y - 1)) - ((x + 1) - xs))) by (nonlinear_arith)
                    requires
                        p2 == ry2 * (2 * x + 1) * (2 * x + 1) + 4 * rx2 * (y - 1) * (y - 1) - 4
                            * rx2 * ry2 - 8 * rx2 * ((ys - y) - (x - xs)),
                ;
            }
            p2 = p2 + 8 * ry2 * (x + 1) - 8 * rx2 * (y - 1) + 4 * rx2;
            y = y - 1;
            x = x + 1;
        }
    }
    proof {
        assert(ell_r2_seq(cx as int, cy as int, x as int, y as int, p2 as int, rx2 as int, ry2 as int)
            =~= Seq::<(int, int)>::empty());
        assert(Seq::<(int, int)>::empty() + fill_part =~= fill_part);
    }
    if is_fill {
        let mut fy: i128 = -ry;
        proof {
            assert(fill_part == ell_fill_rows(
                cx as int,
                cy as int,
                fy as int,
                ry as int,
                rx as int,
                rx2 as int,
                ry2 as int,
            ));
        }
        while fy < ry
            invariant
                0 <= rx <= 0x4000_0000,
                0 <= ry <= 0x4000_0000,
                rx2 == rx * rx,
                ry2 == ry * ry,
                0 <= rx2 <= 0x1000_0000_0000_0000,
                0 <= ry2 <= 0x1000_0000_0000_0000,
                cx == center.x as int,
                cy == center.y as int,
                -ry <= fy <= ry,
                color == draw_type.spec_color(),
                g0 == *old(graphics),
                gfx_wf(*graphics),
                *graphics == (Graphics { buffer: graphics.buffer, ..g0 }),
                paint(g0, old(graphics).buffer@, full, color) == paint(
                    g0,
                    graphics.buffer@,
                    ell_fill_rows(
                        cx as int,
                        cy as int,
                        fy as int,
                        ry as int,
                        rx as int,
                        rx2 as int,
                        ry2 as int,
                    ),
                    color,
                ),
            decreases ry - fy,
        {
            let mut fx: i128 = -rx;
            proof {
                assert(ell_fill_rows(
                    cx as int,
                    cy as int,
                    fy as int,
                    ry as int,
                    rx as int,
                    rx2 as int,
                    ry2 as int,
                ) == ell_fill_row(
                    cx as int,
                    cy as int,
                    fy as int,
                    fx as int,
                    rx as int,
                    rx2 as int,
                    ry2 as int,
                ) + ell_fill_rows(
                    cx as int,
                    cy as int,
                    fy as int + 1,
                    ry as int,
                    rx as int,
                    rx2 as int,
                    ry2 as int,
                ));
            }
            while fx < rx
                invariant
                    0 <= rx <= 0x4000_0000,
                    0 <= ry <= 0x4000_0000,
                    rx2 == rx * rx,
                    ry2 == ry * ry,
                    0 <= rx2 <= 0x1000_0000_0000_0000,
                    0 <= ry2 <= 0x1000_0000_0000_0000,
                    cx == center.x as int,
                    cy == center.y as int,
                    -ry <= fy < ry,
                    -rx <= fx <= rx,
                    color == draw_type.spec_color(),
                    g0 == *old(graphics),
                    gfx_wf(*graphics),
                    *graphics == (Graphics { buffer: graphics.buffer, ..g0 }),
                    paint(g0, old(graphics).buffer@, full, color) == paint(
                        g0,
                        graphics.buffer@,
                        ell_fill_row(
                            cx as int,
                            cy as int,
                            fy as int,
                            fx as int,
                            rx as int,
                            rx2 as int,
                            ry2 as int,
                        ) + ell_fill_rows(
                            cx as int,
                            cy as int,
                            fy as int + 1,
                            ry as int,
                            rx as int,
                            rx2 as int,
                            ry2 as int,
                        ),
                        color,
                    ),
                decreases rx - fx,
            {
                proof {
                    assert(0 <= fx * fx <= 0x1000_0000_0000_0000 && 0 <= fy * fy
                        <= 0x1000_0000_0000_0000) by (nonlinear_arith)
                        requires
                            -0x4000_0000 <= fx <= 0x4000_0000 && -0x4000_0000 <= fy
                                <= 0x4000_0000,
                    ;
                    assert(0 <= fx * fx * ry2 <= 0x1000_0000_0000_0000_0000_0000_0000_0000 && 0
                        <= fy * fy * rx2 <= 0x1000_0000_0000_0000_0000_0000_0000_0000 && 0 <= rx2
                        * ry2 <= 0x1000_0000_0000_0000_0000_0000_0000_0000) by (nonlinear_arith)
                        requires
                            -0x4000_0000 <= fx <= 0x4000_0000 && -0x4000_0000 <= fy
                                <= 0x4000_0000 && 0 <= rx2 <= 0x1000_0000_0000_0000 && 0 <= ry2
                                <= 0x1000_0000_0000_0000,
                    ;
                }
                let ghost pre = *graphics;
                let ghost row = ell_fill_row(
                    cx as int,
                    cy as int,
                    fy as int,
                    fx as int,
                    rx as int,
                    rx2 as int,
                    ry2 as int,
                );
                let ghost row_tail = ell_fill_row(
                    cx as int,
                    cy as int,
                    fy as int,
                    fx as int + 1,
                    rx as int,
                    rx2 as int,
                    ry2 as int,
                );
                let ghost rows_tail = ell_fill_rows(
                    cx as int,
                    cy as int,
                    fy as int + 1,
                    ry as int,
                    rx as int,
                    rx2 as int,
                    ry2 as int,
                );
                if fx * fx * ry2 + fy * fy * rx2 <= rx2 * ry2 {
                    proof {
                        assert(row == seq![((cx + fx) as int, (cy + fy) as int)] + row_tail);
                        assert((seq![((cx + fx) as int, (cy + fy) as int)] + row_tail)
                            + rows_tail =~= seq![((cx + fx) as int, (cy + fy) as int)] + (row_tail
                            + rows_tail));
                        lemma_paint_concat(
                            g0,
                            pre.buffer@,
                            seq![((cx + fx) as int, (cy + fy) as int)],
                            row_tail + rows_tail,
                            color,
                        );
                        assert(seq![((cx + fx) as int, (cy + fy) as int)].drop_first() =~= Seq::<
                            (int, int),
                        >::empty());
                        assert(paint(
                            g0,
                            upd_buf(g0, pre.buffer@, (cx + fx) as int, (cy + fy) as int, color),
                            Seq::<(int, int)>::empty(),
                            color,
                        ) == upd_buf(g0, pre.buffer@, (cx + fx) as int, (cy + fy) as int, color));
                        assert(paint(
                            g0,
                            pre.buffer@,
                            seq![((cx + fx) as int, (cy + fy) as int)],
                            color,
                        ) == upd_buf(g0, pre.buffer@, (cx + fx) as int, (cy + fy) as int, color));
                        lemma_upd_buf_config(
                            g0,
                            pre,
                            pre.buffer@,
                            (cx + fx) as int,
                            (cy + fy) as int,
                            color,
                        );
                    }
                    graphics.update_pixel_wide(cx + fx, cy + fy, color);
                } else {
                    proof {
                        assert(row =~= row_tail);
                    }
                }
                fx = fx + 1;
            }
            proof {
                assert(ell_fill_row(
                    cx as int,
                    cy as int,
                    fy as int,
                    fx as int,
                    rx as int,
                    rx2 as int,
                    ry2 as int,
                ) =~= Seq::<(int, int)>::empty());
                assert(ell_fill_row(
                    cx as int,
                    cy as int,
                    fy as int,
                    fx as int,
                    rx as int,
                    rx2 as int,
                    ry2 as int,
                ) + ell_fill_rows(
                    cx as int,
                    cy as int,
                    fy as int + 1,
                    ry as int,
                    rx as int,
                    rx2 as int,
                    ry2 as int,
                ) =~= ell_fill_rows(
                    cx as int,
                    cy as int,
                    fy as int + 1,
                    ry as int,
                    rx as int,
                    rx2 as int,
                    ry2 as int,
                ));
            }
            fy = fy + 1;
        }
        proof {
            assert(ell_fill_rows(
                cx as int,
                cy as int,
                fy as int,
                ry as int,
                rx as int,
                rx2 as int,
                ry2 as int,
            ) =~= Seq::<(int, int)>::empty());
        }
    } else {
        proof {
            assert(fill_part =~= Seq::<(int, int)>::empty());
        }
    }
}

impl Graphics {
    /// Draw an ellipse shape.
    pub fn draw_ellipse(&mut self, ellipse: Ellipse, draw_type: DrawType)
        requires
            gfx_wf(*old(self)),
            ellipse.width <= 0x8000_0000,
            ellipse.height <= 0x8000_0000,
        ensures
            gfx_wf(*final(self)),
            *final(self) == (Graphics { buffer: final(self).buffer, ..*old(self) }),
            final(self).buffer@ == paint(
                *old(self),
                old(self).buffer@,
                ellipse_seq(
                    ellipse.center,
                    (ellipse.width / 2) as int,
                    (ellipse.height / 2) as int,
                    draw_type,
                ),
                draw_type.spec_color(),
            ),
    {
        ellipse_draw(self, ellipse.center, ellipse.width, ellipse.height, draw_type)
    }
}

} // verus!

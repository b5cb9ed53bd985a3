//! Per-shape rasterization: each shape is turned into an ordered list of
//! pixel coordinates, and the list is painted through the pixel pipeline.

use crate::color::Color;
use crate::coord::Coord;
use crate::coord::is_round_sqrt;
use crate::coord::round_isqrt_u128;
use crate::coord::round_sqrt;
use crate::coord::trunc_div;
use crate::drawing::Graphics;
use crate::drawing::gfx_wf;
use crate::drawing::paint;
use crate::drawing::col_pts;
use crate::drawing::lemma_paint_concat;
use crate::drawing::lemma_paint_config;
use crate::drawing::lemma_upd_buf_config;
use crate::shapes::DrawType;
use vstd::prelude::*;

verus! {

/// The integer point list a coordinate vector denotes.
pub open spec fn coord_seq(s: Seq<Coord>) -> Seq<(int, int)> {
    Seq::new(s.len(), |i: int| (s[i].x as int, s[i].y as int))
}

pub open spec fn imax(a: int, b: int) -> int {
    if a < b {
        b
    } else {
        a
    }
}

impl Graphics {
    /// Paint every coordinate of `pts`, in order, in `color`, through the
    /// pixel pipeline.
    pub fn paint_coords(&mut self, pts: &Vec<Coord>, color: Color)
        requires
            gfx_wf(*old(self)),
        ensures
            gfx_wf(*final(self)),
            *final(self) == (Graphics { buffer: final(self).buffer, ..*old(self) }),
            final(self).buffer@ == paint(*old(self), old(self).buffer@, coord_seq(pts@), color),
    {
        let n = pts.len();
        proof {
            assert(coord_seq(pts@).subrange(0, n as int) =~= coord_seq(pts@));
        }
        let mut i: usize = 0;
        while i < n
            invariant
                i <= n,
                n == pts@.len(),
                gfx_wf(*self),
                *self == (Graphics { buffer: self.buffer, ..*old(self) }),
                paint(*old(self), old(self).buffer@, coord_seq(pts@), color) == paint(
                    *old(self),
                    self.buffer@,
                    coord_seq(pts@).subrange(i as int, n as int),
                    color,
                ),
            decreases n - i,
        {
            let ghost pre = *self;
            let p = pts[i];
            self.set_pixel(p.x, p.y, color);
            proof {
                let rest = coord_seq(pts@).subrange(i as int, n as int);
                assert(rest.len() > 0);
                assert(rest[0] == coord_seq(pts@)[i as int]);
                assert(rest[0] == (p.x as int, p.y as int));
                assert(rest.drop_first() =~= coord_seq(pts@).subrange(i as int + 1, n as int));
                lemma_upd_buf_config(*old(self), pre, pre.buffer@, p.x as int, p.y as int, color);
            }
            i += 1;
        }
        proof {
            assert(coord_seq(pts@).subrange(n as int, n as int).len() == 0);
        }
    }
}

/// The top/bottom edge pixels of a rectangle outline: for each column `x`
/// in `[x0, xe)`, the pixel on row `y1` then the pixel on row `y2`.
pub open spec fn rect_hpairs(x0: int, xe: int, y1: int, y2: int) -> Seq<(int, int)>
    decreases xe - x0,
    when x0 <= xe
{
    if x0 == xe {
        Seq::empty()
    } else {
        seq![(x0, y1), (x0, y2)] + rect_hpairs(x0 + 1, xe, y1, y2)
    }
}

/// The left/right edge pixels of a rectangle outline: for each row `y` in
/// `[y0, ye)`, the pixel in column `x1` then the pixel in column `x2`.
pub open spec fn rect_vpairs(y0: int, ye: int, x1: int, x2: int) -> Seq<(int, int)>
    decreases ye - y0,
    when y0 <= ye
{
    if y0 == ye {
        Seq::empty()
    } else {
        seq![(x1, y0), (x2, y0)] + rect_vpairs(y0 + 1, ye, x1, x2)
    }
}

/// The interior pixels of a rectangle, column-major: for each column `x`
/// in `[x0, xe)`, the run of rows `[y1, y2)`.
pub open spec fn rect_fill_cols(x0: int, xe: int, y1: int, y2: int) -> Seq<(int, int)>
    decreases xe - x0,
    when x0 <= xe
{
    if x0 == xe {
        Seq::empty()
    } else {
        col_pts(x0, y1, imax(y1, y2) - 1) + rect_fill_cols(x0 + 1, xe, y1, y2)
    }
}

/// The ordered pixels of a rectangle between `tl` and `br`.
///
/// A stroke walks the top and bottom edges over `[tl.x, br.x)`, then the
/// left and right edges over `[tl.y, br.y]`; a fill covers the half-open
/// box `[tl.x, br.x) × [tl.y, br.y)`.
pub open spec fn rect_seq(tl: Coord, br: Coord, draw_type: DrawType) -> Seq<(int, int)> {
    if draw_type is Stroke {
        rect_hpairs(tl.x as int, imax(tl.x as int, br.x as int), tl.y as int, br.y as int)
            + rect_vpairs(tl.y as int, imax(tl.y as int, br.y as int + 1), tl.x as int, br.x as int)
    } else {
        rect_fill_cols(tl.x as int, imax(tl.x as int, br.x as int), tl.y as int, br.y as int)
    }
}

/// The pixels a rectangle contributes, as coordinates.
pub fn rect_points(topleft: Coord, bottomright: Coord, draw_type: DrawType) -> (r: Vec<Coord>)
    requires
        bottomright.y < isize::MAX as int,
    ensures
        coord_seq(r@) == rect_seq(topleft, bottomright, draw_type),
{
    let mut out: Vec<Coord> = Vec::new();
    let is_stroke = match draw_type {
        DrawType::Stroke(_) => true,
        DrawType::Fill(_) => false,
    };
    let ghost full = rect_seq(topleft, bottomright, draw_type);
    if is_stroke {
        let ghost vtarget = rect_vpairs(
            topleft.y as int,
            imax(topleft.y as int, bottomright.y as int + 1),
            topleft.x as int,
            bottomright.x as int,
        );
        let mut x: isize = topleft.x;
        while x < bottomright.x
            invariant
                topleft.x <= x <= imax(topleft.x as int, bottomright.x as int),
                coord_seq(out@) + rect_hpairs(
                    x as int,
                    imax(topleft.x as int, bottomright.x as int),
                    topleft.y as int,
                    bottomright.y as int,
                ) + vtarget =~= full,
            decreases imax(topleft.x as int, bottomright.x as int) - x,
        {
            let ghost pre = out@;
            out.push(Coord { x, y: topleft.y });
            out.push(Coord { x, y: bottomright.y });
            proof {
                let xe = imax(topleft.x as int, bottomright.x as int);
                assert(rect_hpairs(x as int, xe, topleft.y as int, bottomright.y as int) == seq![
                    ((x as int), (topleft.y as int)),
                    ((x as int), (bottomright.y as int)),
                ] + rect_hpairs(x as int + 1, xe, topleft.y as int, bottomright.y as int));
                assert(coord_seq(out@) =~= coord_seq(pre) + seq![
                    ((x as int), (topleft.y as int)),
                    ((x as int), (bottomright.y as int)),
                ]);
                assert(coord_seq(out@) + rect_hpairs(
                    x as int + 1,
                    xe,
                    topleft.y as int,
                    bottomright.y as int,
                ) + vtarget =~= full);
            }
            x += 1;
        }
        proof {
            assert(rect_hpairs(
                x as int,
                imax(topleft.x as int, bottomright.x as int),
                topleft.y as int,
                bottomright.y as int,
            ) =~= Seq::<(int, int)>::empty());
            assert(coord_seq(out@) + rect_vpairs(
                topleft.y as int,
                imax(topleft.y as int, bottomright.y as int + 1),
                topleft.x as int,
                bottomright.x as int,
            ) =~= full);
        }
        let mut y: isize = topleft.y;
        while y <= bottomright.y
            invariant
                bottomright.y < isize::MAX as int,
                topleft.y <= y <= imax(topleft.y as int, bottomright.y as int + 1),
                coord_seq(out@) + rect_vpairs(
                    y as int,
                    imax(topleft.y as int, bottomright.y as int + 1),
                    topleft.x as int,
                    bottomright.x as int,
                ) =~= full,
            decreases imax(topleft.y as int, bottomright.y as int + 1) - y,
        {
            let ghost pre = out@;
            out.push(Coord { x: topleft.x, y });
            out.push(Coord { x: bottomright.x, y });
            proof {
                let ye = imax(topleft.y as int, bottomright.y as int + 1);
                assert(rect_vpairs(y as int, ye, topleft.x as int, bottomright.x as int) == seq![
                    ((topleft.x as int), (y as int)),
                    ((bottomright.x as int), (y as int)),
                ] + rect_vpairs(y as int + 1, ye, topleft.x as int, bottomright.x as int));
                assert(coord_seq(out@) =~= coord_seq(pre) + seq![
                    ((topleft.x as int), (y as int)),
                    ((bottomright.x as int), (y as int)),
                ]);
                assert(coord_seq(out@) + rect_vpairs(
                    y as int + 1,
                    ye,
                    topleft.x as int,
                    bottomright.x as int,
                ) =~= full);
            }
            y += 1;
        }
        proof {
            assert(rect_vpairs(
                y as int,
                imax(topleft.y as int, bottomright.y as int + 1),
                topleft.x as int,
                bottomright.x as int,
            ) =~= Seq::<(int, int)>::empty());
            assert(coord_seq(out@) =~= full);
        }
    } else {
        let mut x: isize = topleft.x;
        while x < bottomright.x
            invariant
                topleft.x <= x <= imax(topleft.x as int, bottomright.x as int),
                coord_seq(out@) + rect_fill_cols(
                    x as int,
                    imax(topleft.x as int, bottomright.x as int),
                    topleft.y as int,
                    bottomright.y as int,
                ) =~= full,
            decreases imax(topleft.x as int, bottomright.x as int) - x,
        {
            let mut y: isize = topleft.y;
            proof {
                let xe = imax(topleft.x as int, bottomright.x as int);
                assert(rect_fill_cols(x as int, xe, topleft.y as int, bottomright.y as int)
                    == col_pts(
                    x as int,
                    topleft.y as int,
                    imax(topleft.y as int, bottomright.y as int) - 1,
                ) + rect_fill_cols(x as int + 1, xe, topleft.y as int, bottomright.y as int));
            }
            while y < bottomright.y
                invariant
                    topleft.x <= x < imax(topleft.x as int, bottomright.x as int),
                    topleft.y <= y <= imax(topleft.y as int, bottomright.y as int),
                    coord_seq(out@) + col_pts(
                        x as int,
                        y as int,
                        imax(y as int, bottomright.y as int) - 1,
                    ) + rect_fill_cols(
                        x as int + 1,
                        imax(topleft.x as int, bottomright.x as int),
                        topleft.y as int,
                        bottomright.y as int,
                    ) =~= full,
                decreases imax(topleft.y as int, bottomright.y as int) - y,
            {
                let ghost pre = out@;
                out.push(Coord { x, y });
                proof {
                    assert(col_pts(x as int, y as int, imax(y as int, bottomright.y as int) - 1)
                        =~= seq![((x as int), (y as int))] + col_pts(
                        x as int,
                        y as int + 1,
                        imax(y as int + 1, bottomright.y as int) - 1,
                    ));
                    assert(coord_seq(out@) =~= coord_seq(pre) + seq![((x as int), (y as int))]);
                    assert(coord_seq(out@) + col_pts(
                        x as int,
                        y as int + 1,
                        imax(y as int + 1, bottomright.y as int) - 1,
                    ) + rect_fill_cols(
                        x as int + 1,
                        imax(topleft.x as int, bottomright.x as int),
                        topleft.y as int,
                        bottomright.y as int,
                    ) =~= full);
                }
                y += 1;
            }
            proof {
                assert(col_pts(x as int, y as int, imax(y as int, bottomright.y as int) - 1) =~= Seq::<
                    (int, int),
                >::empty());
            }
            x += 1;
        }
        proof {
            assert(rect_fill_cols(
                x as int,
                imax(topleft.x as int, bottomright.x as int),
                topleft.y as int,
                bottomright.y as int,
            ) =~= Seq::<(int, int)>::empty());
            assert(coord_seq(out@) =~= full);
        }
    }
    proof {
        assert(coord_seq(out@) =~= full);
    }
    out
}

/// The eight symmetric points one midpoint-circle step emits.  They go to
/// the pixel pipeline as they are; off-surface points are dropped there.
pub open spec fn circ_oct(cx: int, cy: int, x: int, y: int) -> Seq<(int, int)> {
    seq![
        (cx + x, cy + y),
        (cx + x, cy - y),
        (cx - x, cy + y),
        (cx - x, cy - y),
        (cx + y, cy + x),
        (cx + y, cy - x),
        (cx - y, cy + x),
        (cx - y, cy - x),
    ]
}

/// The ordered pixels of a midpoint-circle outline walk from state
/// `(x, y, d)`: eight mirrored points per step, the decision variable `d`
/// choosing whether `y` steps inward.
pub open spec fn circ_stroke_seq(cx: int, cy: int, x: int, y: int, d: int) -> Seq<(int, int)>
    decreases y - x + 2,
{
    if x > y {
        Seq::empty()
    } else {
        circ_oct(cx, cy, x, y) + (if d < 0 {
            circ_stroke_seq(cx, cy, x + 1, y, d + 2 * x + 1)
        } else {
            circ_stroke_seq(cx, cy, x + 1, y - 1, d + 2 * (x - y) + 1)
        })
    }
}

/// One filled circle row pair: four mirrored points per column `x` in
/// `[0, hw]` (inclusive), on the rows `up` and `down`.
pub open spec fn circ_fill_run(cx: int, up: int, down: int, x: int, hw: int) -> Seq<(int, int)>
    decreases hw + 1 - x,
    when x <= hw + 1
{
    if x > hw {
        Seq::empty()
    } else {
        seq![(cx - x, up), (cx + x, up), (cx - x, down), (cx + x, down)] + circ_fill_run(
            cx,
            up,
            down,
            x + 1,
            hw,
        )
    }
}

/// The filled circle rows from `y` to `radius`: each row's half width is
/// the rounded square root of `radius² - y²`.
pub open spec fn circ_fill_rows(cx: int, cy: int, rsq: int, y: int, radius: int) -> Seq<(int, int)>
    decreases radius - y,
    when y <= radius
{
    if y >= radius {
        Seq::empty()
    } else {
        circ_fill_run(cx, cy - y, cy + y, 0, round_sqrt(rsq - y * y)) + circ_fill_rows(
            cx,
            cy,
            rsq,
            y + 1,
            radius,
        )
    }
}

/// The ordered pixels of a circle: the midpoint outline walk for a
/// stroke, mirrored inclusive row runs for a fill.
pub open spec fn circle_seq(center: Coord, radius: int, draw_type: DrawType) -> Seq<(int, int)> {
    if draw_type is Stroke {
        circ_stroke_seq(center.x as int, center.y as int, 0, radius, trunc_div(5 - radius * 4, 4))
    } else {
        circ_fill_rows(center.x as int, center.y as int, radius * radius, 0, radius)
    }
}

/// The integer point list a wide coordinate vector denotes.
pub open spec fn wide_seq(s: Seq<(i128, i128)>) -> Seq<(int, int)> {
    Seq::new(s.len(), |i: int| (s[i].0 as int, s[i].1 as int))
}

/// Paint every wide coordinate of `pts`, in order, in `color`, through
/// the pixel pipeline.  Off-surface points are dropped there, so callers
/// may pass sums that left the machine-word range.
pub(crate) fn paint_wide(graphics: &mut Graphics, pts: &Vec<(i128, i128)>, color: Color)
    requires
        gfx_wf(*old(graphics)),
        forall|i: int|
            0 <= i < pts@.len() ==> -0x1_0000_0000_0000_0000_0000 <= (#[trigger] pts@[i]).0
                <= 0x1_0000_0000_0000_0000_0000 && -0x1_0000_0000_0000_0000_0000 <= pts@[i].1
                <= 0x1_0000_0000_0000_0000_0000,
    ensures
        gfx_wf(*final(graphics)),
        *final(graphics) == (Graphics { buffer: final(graphics).buffer, ..*old(graphics) }),
        final(graphics).buffer@ == paint(
            *old(graphics),
            old(graphics).buffer@,
            wide_seq(pts@),
            color,
        ),
{
    let n = pts.len();
    proof {
        assert(wide_seq(pts@).subrange(0, n as int) =~= wide_seq(pts@));
    }
    let mut i: usize = 0;
    while i < n
        invariant
            i <= n,
            n == pts@.len(),
            forall|j: int|
                0 <= j < pts@.len() ==> -0x1_0000_0000_0000_0000_0000 <= (#[trigger] pts@[j]).0
                    <= 0x1_0000_0000_0000_0000_0000 && -0x1_0000_0000_0000_0000_0000 <= pts@[j].1
                    <= 0x1_0000_0000_0000_0000_0000,
            gfx_wf(*graphics),
            *graphics == (Graphics { buffer: graphics.buffer, ..*old(graphics) }),
            paint(*old(graphics), old(graphics).buffer@, wide_seq(pts@), color) == paint(
                *old(graphics),
                graphics.buffer@,
                wide_seq(pts@).subrange(i as int, n as int),
                color,
            ),
        decreases n - i,
    {
        let ghost pre = *graphics;
        let p = pts[i];
        graphics.update_pixel_wide(p.0, p.1, color);
        proof {
            let rest = wide_seq(pts@).subrange(i as int, n as int);
            assert(rest.len() > 0);
            assert(rest[0] == wide_seq(pts@)[i as int]);
            assert(rest[0] == (p.0 as int, p.1 as int));
            assert(rest.drop_first() =~= wide_seq(pts@).subrange(i as int + 1, n as int));
            lemma_upd_buf_config(
                *old(graphics),
                pre,
                pre.buffer@,
                p.0 as int,
                p.1 as int,
                color,
            );
        }
        i += 1;
    }
    proof {
        assert(wide_seq(pts@).subrange(n as int, n as int).len() == 0);
    }
}

/// Draw a circle: the eight-way midpoint outline for a stroke, mirrored
/// inclusive row runs for a fill.  Every emitted point goes to the pixel
/// pipeline unchanged; off-surface points fall to its bounds check.
pub fn circle_draw(graphics: &mut Graphics, center: Coord, radius: usize, draw_type: DrawType)
    requires
        gfx_wf(*old(graphics)),
        radius <= 0x8000_0000,
    ensures
        gfx_wf(*final(graphics)),
        *final(graphics) == (Graphics { buffer: final(graphics).buffer, ..*old(graphics) }),
        final(graphics).buffer@ == paint(
            *old(graphics),
            old(graphics).buffer@,
            circle_seq(center, radius as int, draw_type),
            draw_type.spec_color(),
        ),
{
    let color = draw_type.color();
    let ghost g0 = *old(graphics);
    let ghost full = circle_seq(center, radius as int, draw_type);
    let cx: i128 = center.x as i128;
    let cy: i128 = center.y as i128;
    let is_stroke = match draw_type {
        DrawType::Stroke(_) => true,
        DrawType::Fill(_) => false,
    };
    if is_stroke {
        let num: i128 = 5 - 4 * (radius as i128);
        let d0: i128 = if num >= 0 {
            num / 4
        } else {
            -((-num) / 4)
        };
        proof {
            assert(d0 == trunc_div(5 - (radius as int) * 4, 4));
            assert(5 - (radius as int) * 4 == 5 - 4 * (radius as int));
        }
        let mut x: i128 = 0;
        let mut y: i128 = radius as i128;
        let mut d: i128 = d0;
        let mut x: i128 = 0;
        let mut y: i128 = radius as i128;
        let mut d: i128 = d0;
        proof {
            assert(full == circ_stroke_seq(cx as int, cy as int, 0, radius as int, d0 as int));
        }
        while x <= y
            invariant
                0 <= x <= radius + 1,
                -1 <= y <= radius,
                d0 == trunc_div(5 - (radius as int) * 4, 4),
                -(radius as int) <= d0 <= 1,
                d0 - x * (2 * (radius as int) + 1) <= d <= d0 + x * (2 * (radius as int) + 1),
                radius <= 0x8000_0000,
                cx == center.x as int,
                cy == center.y as int,
                color == draw_type.spec_color(),
                g0 == *old(graphics),
                gfx_wf(*graphics),
                *graphics == (Graphics { buffer: graphics.buffer, ..g0 }),
                paint(g0, old(graphics).buffer@, full, color) == paint(
                    g0,
                    graphics.buffer@,
                    circ_stroke_seq(cx as int, cy as int, x as int, y as int, d as int),
                    color,
                ),
            decreases y - x + 2,
        {
            let ghost pre = *graphics;
            let ghost batch = circ_oct(cx as int, cy as int, x as int, y as int);
            let mut v: Vec<(i128, i128)> = Vec::new();
            v.push((cx + x, cy + y));
            v.push((cx + x, cy - y));
            v.push((cx - x, cy + y));
            v.push((cx - x, cy - y));
            v.push((cx + y, cy + x));
            v.push((cx + y, cy - x));
            v.push((cx - y, cy + x));
            v.push((cx - y, cy - x));
            proof {
                assert(wide_seq(v@) =~= batch);
                assert(forall|j: int|
                    0 <= j < v@.len() ==> -0x1_0000_0000_0000_0000_0000 <= (#[trigger] v@[j]).0
                        <= 0x1_0000_0000_0000_0000_0000 && -0x1_0000_0000_0000_0000_0000
                        <= v@[j].1 <= 0x1_0000_0000_0000_0000_0000);
            }
            paint_wide(graphics, &v, color);
            proof {
                lemma_paint_config(g0, pre, pre.buffer@, batch, color);
                assert(x * (2 * (radius as int) + 1) <= (radius as int + 1) * (2 * (radius as int)
                    + 1) && (x + 1) * (2 * (radius as int) + 1) == x * (2 * (radius as int) + 1) + 2
                    * (radius as int) + 1 && (radius as int + 1) * (2 * (radius as int) + 1)
                    <= 0x2_0000_0005_0000_0002) by (nonlinear_arith)
                    requires
                        0 <= x <= radius as int + 1 && radius <= 0x8000_0000,
                ;
            }
            if d < 0 {
                proof {
                    let tail = circ_stroke_seq(
                        cx as int,
                        cy as int,
                        x as int + 1,
                        y as int,
                        d as int + 2 * (x as int) + 1,
                    );
                    assert(circ_stroke_seq(cx as int, cy as int, x as int, y as int, d as int)
                        == batch + tail);
                    lemma_paint_concat(g0, pre.buffer@, batch, tail, color);
                }
                d = d + 2 * x + 1;
            } else {
                proof {
                    let tail = circ_stroke_seq(
                        cx as int,
                        cy as int,
                        x as int + 1,
                        y as int - 1,
                        d as int + 2 * ((x as int) - (y as int)) + 1,
                    );
                    assert(circ_stroke_seq(cx as int, cy as int, x as int, y as int, d as int)
                        == batch + tail);
                    lemma_paint_concat(g0, pre.buffer@, batch, tail, color);
                }
                d = d + 2 * (x - y) + 1;
                y = y - 1;
            }
            x = x + 1;
        }
        proof {
            assert(circ_stroke_seq(cx as int, cy as int, x as int, y as int, d as int) =~= Seq::<
                (int, int),
            >::empty());
        }
    } else {
        proof {
            assert((radius as int) * (radius as int) <= 0x4000_0000_0000_0000) by (nonlinear_arith)
                requires
                    radius <= 0x8000_0000,
            ;
        }
        let rsq: i128 = (radius as i128) * (radius as i128);
        proof {
            assert(full == circ_fill_rows(cx as int, cy as int, rsq as int, 0, radius as int));
        }
        let mut y: i128 = 0;
        while y < radius as i128
            invariant
                0 <= y <= radius,
                rsq == (radius as int) * (radius as int),
                rsq <= 0x4000_0000_0000_0000,
                radius <= 0x8000_0000,
                cx == center.x as int,
                cy == center.y as int,
                color == draw_type.spec_color(),
                g0 == *old(graphics),
                gfx_wf(*graphics),
                *graphics == (Graphics { buffer: graphics.buffer, ..g0 }),
                paint(g0, old(graphics).buffer@, full, color) == paint(
                    g0,
                    graphics.buffer@,
                    circ_fill_rows(cx as int, cy as int, rsq as int, y as int, radius as int),
                    color,
                ),
            decreases radius - y,
        {
            proof {
                assert(y * y < rsq && y * y >= 0) by (nonlinear_arith)
                    requires
                        0 <= y < radius && rsq == (radius as int) * (radius as int),
                ;
            }
            let hw128: u128 = round_isqrt_u128((rsq - y * y) as u128);
            proof {
                assert(is_round_sqrt((rsq - y * y) as int, hw128 as int));
                assert(hw128 <= radius as int) by (nonlinear_arith)
                    requires
                        is_round_sqrt((rsq - y * y) as int, hw128 as int) && rsq == (
                        radius as int) * (radius as int) && 0 <= y && radius >= 1,
                ;
            }
            let hw: i128 = hw128 as i128;
            let up: i128 = cy - y;
            let down: i128 = cy + y;
            let mut x: i128 = 0;
            while x <= hw
                invariant
                    0 <= x <= hw + 1,
                    hw <= radius,
                    hw as int == round_sqrt(rsq - y * y),
                    radius <= 0x8000_0000,
                    rsq == (radius as int) * (radius as int),
                    up == cy - y,
                    down == cy + y,
                    0 <= y <= radius,
                    cx == center.x as int,
                    cy == center.y as int,
                    color == draw_type.spec_color(),
                    g0 == *old(graphics),
                    gfx_wf(*graphics),
                    *graphics == (Graphics { buffer: graphics.buffer, ..g0 }),
                    paint(g0, old(graphics).buffer@, full, color) == paint(
                        g0,
                        graphics.buffer@,
                        circ_fill_run(cx as int, up as int, down as int, x as int, hw as int)
                            + circ_fill_rows(
                            cx as int,
                            cy as int,
                            rsq as int,
                            y as int + 1,
                            radius as int,
                        ),
                        color,
                    ),
                decreases hw + 1 - x,
            {
                let ghost pre = *graphics;
                let ghost batch = seq![
                    ((cx - x) as int, up as int),
                    ((cx + x) as int, up as int),
                    ((cx - x) as int, down as int),
                    ((cx + x) as int, down as int),
                ];
                let mut v: Vec<(i128, i128)> = Vec::new();
                v.push((cx - x, up));
                v.push((cx + x, up));
                v.push((cx - x, down));
                v.push((cx + x, down));
                proof {
                    assert(wide_seq(v@) =~= batch);
                    assert(forall|j: int|
                        0 <= j < v@.len() ==> -0x1_0000_0000_0000_0000_0000 <= (
                        #[trigger] v@[j]).0 <= 0x1_0000_0000_0000_0000_0000
                            && -0x1_0000_0000_0000_0000_0000 <= v@[j].1
                            <= 0x1_0000_0000_0000_0000_0000);
                }
                paint_wide(graphics, &v, color);
                proof {
                    lemma_paint_config(g0, pre, pre.buffer@, batch, color);
                    let run_tail = circ_fill_run(
                        cx as int,
                        up as int,
                        down as int,
                        x as int + 1,
                        hw as int,
                    );
                    let rows_tail = circ_fill_rows(
                        cx as int,
                        cy as int,
                        rsq as int,
                        y as int + 1,
                        radius as int,
                    );
                    assert(circ_fill_run(cx as int, up as int, down as int, x as int, hw as int)
                        == batch + run_tail);
                    assert((batch + run_tail) + rows_tail =~= batch + (run_tail + rows_tail));
                    lemma_paint_concat(g0, pre.buffer@, batch, run_tail + rows_tail, color);
                }
                x = x + 1;
            }
            y = y + 1;
            proof {
                assert(circ_fill_run(cx as int, up as int, down as int, x as int, hw as int)
                    =~= Seq::<(int, int)>::empty());
                assert(circ_fill_run(cx as int, up as int, down as int, x as int, hw as int)
                    + circ_fill_rows(cx as int, cy as int, rsq as int, y as int, radius as int)
                    =~= circ_fill_rows(cx as int, cy as int, rsq as int, y as int, radius as int));
            }
        }
        proof {
            assert(circ_fill_rows(cx as int, cy as int, rsq as int, y as int, radius as int)
                =~= Seq::<(int, int)>::empty());
        }
    }
}


/// Draw a rectangle between `topleft` and `bottomright`: an outline along
/// all four edges for a stroke, the half-open interior for a fill.
pub fn rect_draw(graphics: &mut Graphics, topleft: Coord, bottomright: Coord, draw_type: DrawType)
    requires
        gfx_wf(*old(graphics)),
        bottomright.y < isize::MAX as int,
    ensures
        gfx_wf(*final(graphics)),
        *final(graphics) == (Graphics { buffer: final(graphics).buffer, ..*old(graphics) }),
        final(graphics).buffer@ == paint(
            *old(graphics),
            old(graphics).buffer@,
            rect_seq(topleft, bottomright, draw_type),
            draw_type.spec_color(),
        ),
{
    let pts = rect_points(topleft, bottomright, draw_type);
    let color = draw_type.color();
    graphics.paint_coords(&pts, color);
}

} // verus!

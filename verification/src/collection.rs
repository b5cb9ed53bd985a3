//! An ordered collection of drawables with a cached bounding rectangle.
//!
//! The bounds are recomputed on every structural mutation (add or remove),
//! never at render time; rendering paints the drawables strictly in
//! insertion order through the pixel pipeline.

use crate::drawable::Drawable;
use crate::drawable::ShapeBox;
use crate::drawable::drawable_buf;
use crate::drawable::drawable_wf;
use crate::drawable::tri_pts;
use crate::drawing::Graphics;
use crate::drawing::gfx_wf;
use crate::drawing::lemma_paint_config;
use crate::polygon::lemma_poly_fill_buf_config;
use crate::polygon::lemma_poly_outline_buf_config;
use crate::polygon::min_y;
use crate::polygon::max_y;
use crate::rect::Rect;
use crate::rendering::imax;
use vstd::prelude::*;

verus! {

pub open spec fn imin(a: int, b: int) -> int {
    if a < b {
        a
    } else {
        b
    }
}

/// The corner extent of one shape kind, as `(x1, y1, x2, y2)`: the least
/// and greatest coordinates the shape spans.
pub open spec fn shape_extent(s: ShapeBox) -> (int, int, int, int) {
    match s {
        ShapeBox::Rect(r) => (r.start.x as int, r.start.y as int, r.end.x as int, r.end.y as int),
        ShapeBox::Circle(c) => (
            c.center.x - c.radius,
            c.center.y - c.radius,
            c.center.x + c.radius,
            c.center.y + c.radius,
        ),
        ShapeBox::Line(l) => (
            imin(l.start.x as int, l.end.x as int),
            imin(l.start.y as int, l.end.y as int),
            imax(l.start.x as int, l.end.x as int),
            imax(l.start.y as int, l.end.y as int),
        ),
        ShapeBox::Triangle(t) => (
            imin(imin(t.p0.x as int, t.p1.x as int), t.p2.x as int),
            imin(imin(t.p0.y as int, t.p1.y as int), t.p2.y as int),
            imax(imax(t.p0.x as int, t.p1.x as int), t.p2.x as int),
            imax(imax(t.p0.y as int, t.p1.y as int), t.p2.y as int),
        ),
        ShapeBox::Ellipse(e) => (
            e.center.x - e.width / 2,
            e.center.y - e.height / 2,
            e.center.x + e.width / 2,
            e.center.y + e.height / 2,
        ),
    }
}

/// The extent's corners all fit in the machine word.
pub open spec fn extent_fits(d: Drawable) -> bool {
    let e = shape_extent(d.obj);
    &&& isize::MIN as int <= e.0 <= isize::MAX as int
    &&& isize::MIN as int <= e.1 <= isize::MAX as int
    &&& isize::MIN as int <= e.2 <= isize::MAX as int
    &&& isize::MIN as int <= e.3 <= isize::MAX as int
}

/// The bounding corners of a drawable list: the corner-wise union of the
/// item extents, and the origin rectangle when the list is empty.
pub open spec fn spec_bounds(items: Seq<Drawable>) -> (int, int, int, int)
    decreases items.len(),
{
    if items.len() == 0 {
        (0, 0, 0, 0)
    } else if items.len() == 1 {
        shape_extent(items[0].obj)
    } else {
        let rest = spec_bounds(items.drop_last());
        let e = shape_extent(items.last().obj);
        (imin(rest.0, e.0), imin(rest.1, e.1), imax(rest.2, e.2), imax(rest.3, e.3))
    }
}

/// The items of `items` that are not equal to `d`, in order.
pub open spec fn kept(items: Seq<Drawable>, d: Drawable) -> Seq<Drawable>
    decreases items.len(),
{
    if items.len() == 0 {
        Seq::empty()
    } else {
        let rest = kept(items.drop_last(), d);
        if items.last() == d {
            rest
        } else {
            rest.push(items.last())
        }
    }
}

/// The items of `items` whose shape is not `s`, in order.
pub open spec fn kept_shape(items: Seq<Drawable>, s: ShapeBox) -> Seq<Drawable>
    decreases items.len(),
{
    if items.len() == 0 {
        Seq::empty()
    } else {
        let rest = kept_shape(items.drop_last(), s);
        if items.last().obj == s {
            rest
        } else {
            rest.push(items.last())
        }
    }
}

/// The buffer after rendering every drawable of `items` in order.
pub open spec fn collection_buf(g: Graphics, buf: Seq<u8>, items: Seq<Drawable>) -> Seq<u8>
    decreases items.len(),
{
    if items.len() == 0 {
        buf
    } else {
        collection_buf(g, drawable_buf(g, buf, items[0]), items.drop_first())
    }
}

/// What a drawable leaves behind depends only on the surface
/// configuration, not on the buffer the graphics value holds.
pub proof fn lemma_drawable_buf_config(g1: Graphics, g2: Graphics, buf: Seq<u8>, d: Drawable)
    requires
        g1.width == g2.width,
        g1.height == g2.height,
        g1.translate == g2.translate,
        g1.clip == g2.clip,
    ensures
        drawable_buf(g1, buf, d) == drawable_buf(g2, buf, d),
{
    match d.obj {
        ShapeBox::Rect(rect) => {
            lemma_paint_config(
                g1,
                g2,
                buf,
                crate::rendering::rect_seq(rect.start, rect.end, d.draw_type),
                d.draw_type.spec_color(),
            );
        },
        ShapeBox::Circle(circle) => {
            lemma_paint_config(
                g1,
                g2,
                buf,
                crate::rendering::circle_seq(circle.center, circle.radius as int, d.draw_type),
                d.draw_type.spec_color(),
            );
        },
        ShapeBox::Line(line) => {
            lemma_paint_config(
                g1,
                g2,
                buf,
                crate::drawing::line_seq(line.start, line.end),
                d.draw_type.spec_color(),
            );
        },
        ShapeBox::Triangle(tri) => {
            let pts = tri_pts(tri);
            let color = d.draw_type.spec_color();
            lemma_poly_outline_buf_config(g1, g2, buf, pts, 0, color);
            if d.draw_type is Fill {
                crate::polygon::lemma_min_max_y_order(pts);
                lemma_poly_fill_buf_config(
                    g1,
                    g2,
                    crate::polygon::poly_outline_buf(g1, buf, pts, 0, color),
                    pts,
                    min_y(pts),
                    max_y(pts),
                    color,
                );
            }
        },
        ShapeBox::Ellipse(ellipse) => {
            lemma_paint_config(
                g1,
                g2,
                buf,
                crate::ellipse::ellipse_seq(
                    ellipse.center,
                    (ellipse.width / 2) as int,
                    (ellipse.height / 2) as int,
                    d.draw_type,
                ),
                d.draw_type.spec_color(),
            );
        },
    }
}

/// An ordered list of drawables with a cached bounding rectangle that is
/// recomputed after every add and remove.
pub struct ShapeCollection {
    pub items: Vec<Drawable>,
    pub bounds: Rect,
}

/// The cached bounds match the items, and every item's extent and
/// rasterizer arithmetic stay within the machine word.
pub open spec fn collection_wf(c: ShapeCollection) -> bool {
    &&& (c.bounds.x1 as int, c.bounds.y1 as int, c.bounds.x2 as int, c.bounds.y2 as int)
        == spec_bounds(c.items@)
    &&& forall|i: int|
        0 <= i < c.items@.len() ==> extent_fits(#[trigger] c.items@[i]) && drawable_wf(
            c.items@[i],
        )
}

/// One shape's extent as machine words.
fn extent_exec(d: &Drawable) -> (r: (isize, isize, isize, isize))
    requires
        extent_fits(*d),
    ensures
        (r.0 as int, r.1 as int, r.2 as int, r.3 as int) == shape_extent(d.obj),
{
    match &d.obj {
        ShapeBox::Rect(r) => (r.start.x, r.start.y, r.end.x, r.end.y),
        ShapeBox::Circle(c) => (
            ((c.center.x as i128) - (c.radius as i128)) as isize,
            ((c.center.y as i128) - (c.radius as i128)) as isize,
            ((c.center.x as i128) + (c.radius as i128)) as isize,
            ((c.center.y as i128) + (c.radius as i128)) as isize,
        ),
        ShapeBox::Line(l) => (
            if l.start.x < l.end.x {
                l.start.x
            } else {
                l.end.x
            },
            if l.start.y < l.end.y {
                l.start.y
            } else {
                l.end.y
            },
            if l.start.x < l.end.x {
                l.end.x
            } else {
                l.start.x
            },
            if l.start.y < l.end.y {
                l.end.y
            } else {
                l.start.y
            },
        ),
        ShapeBox::Triangle(t) => {
            let x1 = if t.p0.x < t.p1.x {
                t.p0.x
            } else {
                t.p1.x
            };
            let x1 = if x1 < t.p2.x {
                x1
            } else {
                t.p2.x
            };
            let y1 = if t.p0.y < t.p1.y {
                t.p0.y
            } else {
                t.p1.y
            };
            let y1 = if y1 < t.p2.y {
                y1
            } else {
                t.p2.y
            };
            let x2 = if t.p0.x < t.p1.x {
                t.p1.x
            } else {
                t.p0.x
            };
            let x2 = if x2 < t.p2.x {
                t.p2.x
            } else {
                x2
            };
            let y2 = if t.p0.y < t.p1.y {
                t.p1.y
            } else {
                t.p0.y
            };
            let y2 = if y2 < t.p2.y {
                t.p2.y
            } else {
                y2
            };
            (x1, y1, x2, y2)
        },
        ShapeBox::Ellipse(e) => (
            ((e.center.x as i128) - ((e.width / 2) as i128)) as isize,
            ((e.center.y as i128) - ((e.height / 2) as i128)) as isize,
            ((e.center.x as i128) + ((e.width / 2) as i128)) as isize,
            ((e.center.y as i128) + ((e.height / 2) as i128)) as isize,
        ),
    }
}

/// The bounds of a whole item list, recomputed from scratch.
fn bounds_of(items: &Vec<Drawable>) -> (r: Rect)
    requires
        forall|i: int| 0 <= i < items@.len() ==> extent_fits(#[trigger] items@[i]),
    ensures
        (r.x1 as int, r.y1 as int, r.x2 as int, r.y2 as int) == spec_bounds(items@),
{
    let n = items.len();
    if n == 0 {
        return Rect { x1: 0, y1: 0, x2: 0, y2: 0 };
    }
    let first = extent_exec(&items[0]);
    let mut x1 = first.0;
    let mut y1 = first.1;
    let mut x2 = first.2;
    let mut y2 = first.3;
    let mut k: usize = 1;
    proof {
        assert(items@.take(1).len() == 1);
        assert(items@.take(1)[0] == items@[0]);
    }
    while k < n
        invariant
            1 <= k <= n,
            n == items@.len(),
            forall|i: int| 0 <= i < items@.len() ==> extent_fits(#[trigger] items@[i]),
            (x1 as int, y1 as int, x2 as int, y2 as int) == spec_bounds(items@.take(k as int)),
        decreases n - k,
    {
        let e = extent_exec(&items[k]);
        proof {
            assert(items@.take(k as int + 1).drop_last() =~= items@.take(k as int));
            assert(items@.take(k as int + 1).last() == items@[k as int]);
            assert(items@.take(k as int + 1).len() == k + 1 >= 2);
        }
        if e.0 < x1 {
            x1 = e.0;
        }
        if e.1 < y1 {
            y1 = e.1;
        }
        if e.2 > x2 {
            x2 = e.2;
        }
        if e.3 > y2 {
            y2 = e.3;
        }
        k += 1;
    }
    proof {
        assert(items@.take(n as int) =~= items@);
    }
    Rect { x1, y1, x2, y2 }
}

impl ShapeCollection {
    /// An empty collection with origin bounds.
    pub fn new() -> (r: ShapeCollection)
        ensures
            r.items@.len() == 0,
            r.bounds == (Rect { x1: 0isize, y1: 0isize, x2: 0isize, y2: 0isize }),
            collection_wf(r),
    {
        ShapeCollection { items: Vec::new(), bounds: Rect { x1: 0, y1: 0, x2: 0, y2: 0 } }
    }

    #[inline]
    pub fn items(&self) -> (r: &Vec<Drawable>)
        ensures
            r == &self.items,
    {
        &self.items
    }

    /// The cached bounding rectangle.
    #[inline]
    pub fn bounds(&self) -> (r: Rect)
        ensures
            r == self.bounds,
    {
        self.bounds
    }

    /// Append a drawable and recompute the cached bounds.
    pub fn add(&mut self, d: Drawable)
        requires
            collection_wf(*old(self)),
            extent_fits(d),
            drawable_wf(d),
        ensures
            collection_wf(*final(self)),
            final(self).items@ == old(self).items@.push(d),
    {
        let e = extent_exec(&d);
        if self.items.len() == 0 {
            self.bounds = Rect { x1: e.0, y1: e.1, x2: e.2, y2: e.3 };
        } else {
            let mut x1 = self.bounds.x1;
            let mut y1 = self.bounds.y1;
            let mut x2 = self.bounds.x2;
            let mut y2 = self.bounds.y2;
            if e.0 < x1 {
                x1 = e.0;
            }
            if e.1 < y1 {
                y1 = e.1;
            }
            if e.2 > x2 {
                x2 = e.2;
            }
            if e.3 > y2 {
                y2 = e.3;
            }
            self.bounds = Rect { x1, y1, x2, y2 };
        }
        self.items.push(d);
        proof {
            assert(self.items@.drop_last() =~= old(self).items@);
            assert(self.items@.last() == d);
        }
    }

    /// Remove every item equal to `d`, keeping the rest in order, and
    /// recompute the cached bounds.
    pub fn remove(&mut self, d: &Drawable)
        requires
            collection_wf(*old(self)),
        ensures
            collection_wf(*final(self)),
            final(self).items@ == kept(old(self).items@, *d),
    {
        let n = self.items.len();
        let mut out: Vec<Drawable> = Vec::new();
        let mut k: usize = 0;
        proof {
            assert(kept(self.items@.take(0), *d) =~= Seq::<Drawable>::empty());
        }
        while k < n
            invariant
                k <= n,
                n == self.items@.len(),
                collection_wf(*self),
                *self == *old(self),
                out@ == kept(self.items@.take(k as int), *d),
                forall|i: int|
                    0 <= i < out@.len() ==> extent_fits(#[trigger] out@[i]) && drawable_wf(
                        out@[i],
                    ),
            decreases n - k,
        {
            let item = self.items[k];
            proof {
                assert(self.items@.take(k as int + 1).drop_last() =~= self.items@.take(k as int));
                assert(self.items@.take(k as int + 1).last() == item);
            }
            if !(item == *d) {
                out.push(item);
            }
            k += 1;
        }
        proof {
            assert(self.items@.take(n as int) =~= self.items@);
        }
        let b = bounds_of(&out);
        self.items = out;
        self.bounds = b;
    }

    /// Remove every item whose shape equals `shape`, whatever its draw
    /// style, keeping the rest in order.
    pub fn remove_shape(&mut self, shape: &ShapeBox)
        requires
            collection_wf(*old(self)),
        ensures
            collection_wf(*final(self)),
            final(self).items@ == kept_shape(old(self).items@, *shape),
    {
        let n = self.items.len();
        let mut out: Vec<Drawable> = Vec::new();
        let mut k: usize = 0;
        proof {
            assert(kept_shape(self.items@.take(0), *shape) =~= Seq::<Drawable>::empty());
        }
        while k < n
            invariant
                k <= n,
                n == self.items@.len(),
                collection_wf(*self),
                *self == *old(self),
                out@ == kept_shape(self.items@.take(k as int), *shape),
                forall|i: int|
                    0 <= i < out@.len() ==> extent_fits(#[trigger] out@[i]) && drawable_wf(
                        out@[i],
                    ),
            decreases n - k,
        {
            let item = self.items[k];
            proof {
                assert(self.items@.take(k as int + 1).drop_last() =~= self.items@.take(k as int));
                assert(self.items@.take(k as int + 1).last() == item);
            }
            if !(item.obj == *shape) {
                out.push(item);
            }
            k += 1;
        }
        proof {
            assert(self.items@.take(n as int) =~= self.items@);
        }
        let b = bounds_of(&out);
        self.items = out;
        self.bounds = b;
    }

    /// Render every drawable in insertion order through the pixel
    /// pipeline.
    pub fn render(&self, graphics: &mut Graphics)
        requires
            gfx_wf(*old(graphics)),
            collection_wf(*self),
        ensures
            gfx_wf(*final(graphics)),
            *final(graphics) == (Graphics { buffer: final(graphics).buffer, ..*old(graphics) }),
            final(graphics).buffer@ == collection_buf(
                *old(graphics),
                old(graphics).buffer@,
                self.items@,
            ),
    {
        let n = self.items.len();
        let mut k: usize = 0;
        proof {
            assert(self.items@.subrange(0, n as int) =~= self.items@);
        }
        while k < n
            invariant
                k <= n,
                n == self.items@.len(),
                collection_wf(*self),
                gfx_wf(*graphics),
                *graphics == (Graphics { buffer: graphics.buffer, ..*old(graphics) }),
                collection_buf(*old(graphics), old(graphics).buffer@, self.items@)
                    == collection_buf(
                    *old(graphics),
                    graphics.buffer@,
                    self.items@.subrange(k as int, n as int),
                ),
            decreases n - k,
        {
            let ghost pre = *graphics;
            let item = &self.items[k];
            item.render(graphics);
            proof {
                let rest = self.items@.subrange(k as int, n as int);
                assert(rest.len() > 0);
                assert(rest[0] == self.items@[k as int]);
                assert(rest.drop_first() =~= self.items@.subrange(k as int + 1, n as int));
                lemma_drawable_buf_config(*old(graphics), pre, pre.buffer@, self.items@[k as int]);
            }
            k += 1;
        }
        proof {
            assert(self.items@.subrange(n as int, n as int).len() == 0);
        }
    }
}

} // verus!

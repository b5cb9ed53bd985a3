//! Drawables: a shape bundled with how to draw it.
//!
//! The shape kinds form a closed union; rendering pattern-matches and
//! paints the kind's pixel list through the pipeline.

use crate::coord::Coord;
use crate::drawing::Graphics;
use crate::drawing::gfx_wf;
use crate::drawing::line_seq;
use crate::drawing::paint;
use crate::ellipse::ellipse_draw;
use crate::ellipse::ellipse_seq;
use crate::polygon::poly_coords_bounded;
use crate::polygon::poly_fill_buf;
use crate::polygon::poly_outline_buf;
use crate::polygon::min_y;
use crate::polygon::max_y;
use crate::polygon::triangle_draw;
use crate::rendering::circle_seq;
use crate::rendering::rect_seq;
use crate::rendering::circle_draw;
use crate::rendering::rect_draw;
use crate::shapes::Circle;
use crate::shapes::DrawType;
use crate::shapes::Ellipse;
use crate::shapes::Line;
use crate::shapes::Rect;
use crate::shapes::Triangle;
use vstd::prelude::*;

verus! {

/// One of the drawable shape kinds.
#[derive(Copy, Clone, Debug, PartialEq, Eq, Structural)]
pub enum ShapeBox {
    Rect(Rect),
    Circle(Circle),
    Line(Line),
    Triangle(Triangle),
    Ellipse(Ellipse),
}

/// An immutable pairing of a shape and a draw style.
#[derive(Copy, Clone, Debug, PartialEq, Eq, Structural)]
pub struct Drawable {
    pub obj: ShapeBox,
    pub draw_type: DrawType,
}

/// The corner list of a triangle shape.
pub open spec fn tri_pts(t: Triangle) -> Seq<Coord> {
    seq![t.p0, t.p1, t.p2]
}

/// The buffer a drawable leaves behind: each kind paints its own pixel
/// list through the pipeline.
pub open spec fn drawable_buf(g: Graphics, buf: Seq<u8>, d: Drawable) -> Seq<u8> {
    match d.obj {
        ShapeBox::Rect(rect) => paint(
            g,
            buf,
            rect_seq(rect.start, rect.end, d.draw_type),
            d.draw_type.spec_color(),
        ),
        ShapeBox::Circle(circle) => paint(
            g,
            buf,
            circle_seq(circle.center, circle.radius as int, d.draw_type),
            d.draw_type.spec_color(),
        ),
        ShapeBox::Line(line) => paint(
            g,
            buf,
            line_seq(line.start, line.end),
            d.draw_type.spec_color(),
        ),
        ShapeBox::Triangle(tri) => if d.draw_type is Fill {
            poly_fill_buf(
                g,
                poly_outline_buf(g, buf, tri_pts(tri), 0, d.draw_type.spec_color()),
                tri_pts(tri),
                min_y(tri_pts(tri)),
                max_y(tri_pts(tri)),
                d.draw_type.spec_color(),
            )
        } else {
            poly_outline_buf(g, buf, tri_pts(tri), 0, d.draw_type.spec_color())
        },
        ShapeBox::Ellipse(ellipse) => paint(
            g,
            buf,
            ellipse_seq(
                ellipse.center,
                (ellipse.width / 2) as int,
                (ellipse.height / 2) as int,
                d.draw_type,
            ),
            d.draw_type.spec_color(),
        ),
    }
}

/// What a drawable needs of the machine to render: sizes small enough
/// that the rasterizer arithmetic stays in range.
pub open spec fn drawable_wf(d: Drawable) -> bool {
    match d.obj {
        ShapeBox::Rect(rect) => rect.end.y < isize::MAX as int,
        ShapeBox::Circle(circle) => circle.radius <= 0x8000_0000,
        ShapeBox::Line(_) => true,
        ShapeBox::Triangle(tri) => poly_coords_bounded(tri_pts(tri)),
        ShapeBox::Ellipse(ellipse) => ellipse.width <= 0x8000_0000 && ellipse.height
            <= 0x8000_0000,
    }
}

impl Drawable {
    /// Pair a shape with its draw style.
    pub fn from_obj(obj: ShapeBox, draw_type: DrawType) -> (r: Drawable)
        ensures
            r == (Drawable { obj, draw_type }),
    {
        Drawable { obj, draw_type }
    }

    #[inline]
    pub fn obj(&self) -> (r: &ShapeBox)
        ensures
            r == &self.obj,
    {
        &self.obj
    }

    #[inline]
    pub fn draw_type(&self) -> (r: DrawType)
        ensures
            r == self.draw_type,
    {
        self.draw_type
    }

    /// The same shape with another draw style.
    pub fn with_draw_type(&self, draw_type: DrawType) -> (r: Drawable)
        ensures
            r == (Drawable { obj: self.obj, draw_type }),
    {
        Drawable { obj: self.obj.clone(), draw_type }
    }

    /// Draw the shape: outline or fill pixels of its kind, in order,
    /// through the pixel pipeline.
    pub fn render(&self, graphics: &mut Graphics)
        requires
            gfx_wf(*old(graphics)),
            drawable_wf(*self),
        ensures
            gfx_wf(*final(graphics)),
            *final(graphics) == (Graphics { buffer: final(graphics).buffer, ..*old(graphics) }),
            final(graphics).buffer@ == drawable_buf(*old(graphics), old(graphics).buffer@, *self),
    {
        match &self.obj {
            ShapeBox::Rect(rect) => {
                rect_draw(graphics, rect.start, rect.end, self.draw_type);
            },
            ShapeBox::Circle(circle) => {
                circle_draw(graphics, circle.center, circle.radius, self.draw_type);
            },
            ShapeBox::Line(line) => {
                let color = self.draw_type.color();
                graphics.draw_line(line.start, line.end, color);
            },
            ShapeBox::Triangle(tri) => {
                let arr = [tri.p0, tri.p1, tri.p2];
                proof {
                    assert(arr@ =~= tri_pts(*tri));
                }
                triangle_draw(graphics, arr, self.draw_type);
            },
            ShapeBox::Ellipse(ellipse) => {
                ellipse_draw(
                    graphics,
                    ellipse.center,
                    ellipse.width,
                    ellipse.height,
                    self.draw_type,
                );
            },
        }
    }
}

impl Graphics {
    /// Draw a rectangle shape.
    pub fn draw_rect(&mut self, rect: Rect, draw_type: DrawType)
        requires
            gfx_wf(*old(self)),
            rect.end.y < isize::MAX as int,
        ensures
            gfx_wf(*final(self)),
            *final(self) == (Graphics { buffer: final(self).buffer, ..*old(self) }),
            final(self).buffer@ == paint(
                *old(self),
                old(self).buffer@,
                rect_seq(rect.start, rect.end, draw_type),
                draw_type.spec_color(),
            ),
    {
        rect_draw(self, rect.start, rect.end, draw_type)
    }

    /// Draw a circle shape.
    pub fn draw_circle(&mut self, circle: Circle, draw_type: DrawType)
        requires
            gfx_wf(*old(self)),
            circle.radius <= 0x8000_0000,
        ensures
            gfx_wf(*final(self)),
            *final(self) == (Graphics { buffer: final(self).buffer, ..*old(self) }),
            final(self).buffer@ == paint(
                *old(self),
                old(self).buffer@,
                circle_seq(circle.center, circle.radius as int, draw_type),
                draw_type.spec_color(),
            ),
    {
        circle_draw(self, circle.center, circle.radius, draw_type)
    }
}

} // verus!

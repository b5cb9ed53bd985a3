//! Geometric shape values used by clipping and by the rasterizer.
//!
//! These shapes use inclusive containment on every edge, unlike
//! [`crate::rect::Rect`] whose right and bottom edges are outside.

use crate::color::Color;
use crate::coord::Coord;
use crate::drawing::Graphics;
use crate::drawing::gfx_wf;
use crate::drawing::lemma_paint_config;
use crate::drawing::line_seq;
use crate::drawing::paint;
use crate::rendering::coord_seq;
use crate::coord::is_floor_sqrt;
use crate::coord::isqrt_u128;
use vstd::math::abs;
use vstd::prelude::*;

verus! {

/// Whether a shape is drawn as an outline or filled, and in which color.
#[derive(Copy, Clone, Debug, PartialEq, Eq, Structural)]
pub enum DrawType {
    Stroke(Color),
    Fill(Color),
}

impl DrawType {
    /// The color this draw type paints with.
    pub open spec fn spec_color(&self) -> Color {
        match self {
            DrawType::Stroke(c) => *c,
            DrawType::Fill(c) => *c,
        }
    }

    pub fn is_stroke(&self) -> (r: bool)
        ensures
            r == (self is Stroke),
    {
        match self {
            DrawType::Stroke(_) => true,
            DrawType::Fill(_) => false,
        }
    }

    pub fn color(&self) -> (r: Color)
        ensures
            r == self.spec_color(),
    {
        match self {
            DrawType::Stroke(c) => *c,
            DrawType::Fill(c) => *c,
        }
    }
}

/// Outline drawing in the given color.
#[inline]
pub fn stroke(color: Color) -> (r: DrawType)
    ensures
        r == DrawType::Stroke(color),
{
    DrawType::Stroke(color)
}

/// Filled drawing in the given color.
#[inline]
pub fn fill(color: Color) -> (r: DrawType)
    ensures
        r == DrawType::Fill(color),
{
    DrawType::Fill(color)
}

/// An axis-aligned rectangle whose four edges are all inside.
#[derive(Copy, Clone, Debug, PartialEq, Eq, Structural)]
pub struct Rect {
    pub start: Coord,
    pub end: Coord,
}

/// Inclusive rectangle containment over mathematical integers.
pub open spec fn rect_contains_inclusive(start: Coord, end: Coord, x: int, y: int) -> bool {
    start.x <= x <= end.x && start.y <= y <= end.y
}

impl Rect {
    /// Build a rectangle from two opposite corners, in any order.
    pub fn new(start: (isize, isize), end: (isize, isize)) -> (r: Rect)
        ensures
            r.start.x == min_isize(start.0, end.0),
            r.start.y == min_isize(start.1, end.1),
            r.end.x == max_isize(start.0, end.0),
            r.end.y == max_isize(start.1, end.1),
    {
        let x1 = if start.0 < end.0 {
            start.0
        } else {
            end.0
        };
        let x2 = if start.0 < end.0 {
            end.0
        } else {
            start.0
        };
        let y1 = if start.1 < end.1 {
            start.1
        } else {
            end.1
        };
        let y2 = if start.1 < end.1 {
            end.1
        } else {
            start.1
        };
        Rect { start: Coord { x: x1, y: y1 }, end: Coord { x: x2, y: y2 } }
    }

    /// True when `(x, y)` lies inside, edges included.
    pub fn contains(&self, x: isize, y: isize) -> (r: bool)
        ensures
            r == rect_contains_inclusive(self.start, self.end, x as int, y as int),
    {
        self.start.x <= x && x <= self.end.x && self.start.y <= y && y <= self.end.y
    }
}

pub open spec fn min_isize(a: isize, b: isize) -> isize {
    if a < b {
        a
    } else {
        b
    }
}

pub open spec fn max_isize(a: isize, b: isize) -> isize {
    if a < b {
        b
    } else {
        a
    }
}

/// A circle given by its center and radius.
#[derive(Copy, Clone, Debug, PartialEq, Eq, Structural)]
pub struct Circle {
    pub center: Coord,
    pub radius: usize,
}

/// A triangle given by its three corners.
#[derive(Copy, Clone, Debug, PartialEq, Eq, Structural)]
pub struct Triangle {
    pub p0: Coord,
    pub p1: Coord,
    pub p2: Coord,
}

impl Triangle {
    pub fn new(p0: (isize, isize), p1: (isize, isize), p2: (isize, isize)) -> (r: Triangle)
        ensures
            r.p0 == (Coord { x: p0.0, y: p0.1 }),
            r.p1 == (Coord { x: p1.0, y: p1.1 }),
            r.p2 == (Coord { x: p2.0, y: p2.1 }),
    {
        Triangle {
            p0: Coord { x: p0.0, y: p0.1 },
            p1: Coord { x: p1.0, y: p1.1 },
            p2: Coord { x: p2.0, y: p2.1 },
        }
    }
}

/// An axis-aligned ellipse: a center with a full width and height.
#[derive(Copy, Clone, Debug, PartialEq, Eq, Structural)]
pub struct Ellipse {
    pub center: Coord,
    pub width: usize,
    pub height: usize,
}

impl Ellipse {
    pub fn new(center: (isize, isize), width: usize, height: usize) -> (r: Ellipse)
        ensures
            r.center == (Coord { x: center.0, y: center.1 }),
            r.width == width,
            r.height == height,
    {
        Ellipse { center: Coord { x: center.0, y: center.1 }, width, height }
    }
}

/// Circle containment: the rounded-down distance from the center is at most
/// the radius, which is exactly `dx² + dy² < (radius+1)²`.
pub open spec fn circle_contains_spec(center: Coord, radius: int, x: int, y: int) -> bool {
    (x - center.x) * (x - center.x) + (y - center.y) * (y - center.y) < (radius + 1) * (radius + 1)
}

impl Circle {
    pub fn new(center: (isize, isize), radius: usize) -> (r: Circle)
        ensures
            r.center == (Coord { x: center.0, y: center.1 }),
            r.radius == radius,
    {
        Circle { center: Coord { x: center.0, y: center.1 }, radius }
    }

    /// True when `(x, y)` is at most `radius` pixels from the center.
    pub fn contains(&self, x: isize, y: isize) -> (r: bool)
        ensures
            r == circle_contains_spec(self.center, self.radius as int, x as int, y as int),
    {
        circle_contains(self.center, self.radius, Coord { x, y })
    }
}

/// True when `point` is at most `radius` pixels from `center`, measuring
/// with the rounded-down Euclidean distance.
pub fn circle_contains(center: Coord, radius: usize, point: Coord) -> (r: bool)
    ensures
        r == circle_contains_spec(center, radius as int, point.x as int, point.y as int),
{
    let dx: i128 = point.x as i128 - center.x as i128;
    let dy: i128 = point.y as i128 - center.y as i128;
    let adx: u128 = if dx < 0 {
        (-dx) as u128
    } else {
        dx as u128
    };
    let ady: u128 = if dy < 0 {
        (-dy) as u128
    } else {
        dy as u128
    };
    proof {
        assert(adx * adx == (point.x - center.x) * (point.x - center.x) && ady * ady == (point.y
            - center.y) * (point.y - center.y) && adx * adx
            <= 0xffff_ffff_ffff_ffff_0000_0000_0000_0001int && ady * ady
            <= 0xffff_ffff_ffff_ffff_0000_0000_0000_0001int) by (nonlinear_arith)
            requires
                adx == abs(point.x as int - center.x as int) && ady == abs(
                    point.y as int - center.y as int,
                ) && adx <= 0xffff_ffff_ffff_ffffu128 && ady <= 0xffff_ffff_ffff_ffffu128,
        ;
    }
    let r1: u128 = radius as u128 + 1;
    if adx >= r1 || ady >= r1 {
        proof {
            assert(adx >= r1 ==> adx * adx >= r1 * r1) by (nonlinear_arith);
            assert(ady >= r1 ==> ady * ady >= r1 * r1) by (nonlinear_arith);
            assert(adx * adx + ady * ady >= r1 * r1);
        }
        false
    } else if r1 > 0xffff_ffff_ffff_ffff {
        // radius is the largest machine word; the squared distance still has
        // to stay below 2^128 to be within range
        let ady2: u128 = ady * ady;
        proof {
            assert(adx * adx <= 0xffff_ffff_ffff_ffff_0000_0000_0000_0001int && ady * ady
                <= 0xffff_ffff_ffff_ffff_0000_0000_0000_0001int) by (nonlinear_arith)
                requires
                    adx <= 0xffff_ffff_ffff_ffffu128 && ady <= 0xffff_ffff_ffff_ffffu128,
            ;
            assert(r1 * r1 == 0x1_0000_0000_0000_0000_0000_0000_0000_0000int) by (nonlinear_arith)
                requires
                    r1 == 0x1_0000_0000_0000_0000u128,
            ;
        }
        if adx * adx <= u128::MAX - ady2 {
            true
        } else {
            false
        }
    } else {
        proof {
            assert(adx < r1 && ady < r1 && r1 <= 0xffff_ffff_ffff_ffffu128 ==> adx * adx < r1 * r1
                <= 0xffff_ffff_ffff_ffff_0000_0000_0000_0001int && ady * ady < r1 * r1) by (
            nonlinear_arith);
        }
        let t: u128 = r1 * r1 - adx * adx;
        ady * ady < t
    }
}

/// Half-open rectangle containment between two corner points: the top-left
/// edges are inside, the bottom-right edges are not.
pub fn rect_contains(topleft: Coord, bottomright: Coord, point: Coord) -> (r: bool)
    ensures
        r == (topleft.x <= point.x < bottomright.x && topleft.y <= point.y < bottomright.y),
{
    topleft.x <= point.x && bottomright.x > point.x && topleft.y <= point.y && bottomright.y
        > point.y
}

/// Barycentric triangle containment: `point` is inside the triangle when
/// both barycentric ratios are non-negative and their sum is at most one.
/// A degenerate (zero-area) triangle contains nothing.
pub open spec fn triangle_contains_spec(a: Coord, b: Coord, c: Coord, p: Coord) -> bool {
    let d = (b.x - a.x) * (c.y - a.y) - (b.y - a.y) * (c.x - a.x);
    let s_num = (p.x - a.x) * (c.y - a.y) - (p.y - a.y) * (c.x - a.x);
    let t_num = (b.x - a.x) * (p.y - a.y) - (b.y - a.y) * (p.x - a.x);
    if d > 0 {
        s_num >= 0 && t_num >= 0 && s_num + t_num <= d
    } else if d < 0 {
        s_num <= 0 && t_num <= 0 && s_num + t_num >= d
    } else {
        false
    }
}

/// True when `point` lies inside the triangle `points`, by barycentric
/// ratios.  Coordinates are limited to 32 bits so the cross products fit in
/// machine arithmetic.
pub fn triangle_contains(points: [Coord; 3], point: Coord) -> (r: bool)
    requires
        forall|i: int|
            0 <= i < 3 ==> -0x1_0000_0000 <= points[i].x <= 0x1_0000_0000 && -0x1_0000_0000 <= (
            #[trigger] points[i]).y <= 0x1_0000_0000,
        -0x1_0000_0000 <= point.x <= 0x1_0000_0000,
        -0x1_0000_0000 <= point.y <= 0x1_0000_0000,
    ensures
        r == triangle_contains_spec(points[0], points[1], points[2], point),
{
    let a = points[0];
    let b = points[1];
    let c = points[2];
    let p1x: i128 = b.x as i128 - a.x as i128;
    let p1y: i128 = b.y as i128 - a.y as i128;
    let p2x: i128 = c.x as i128 - a.x as i128;
    let p2y: i128 = c.y as i128 - a.y as i128;
    let qx: i128 = point.x as i128 - a.x as i128;
    let qy: i128 = point.y as i128 - a.y as i128;
    proof {
        assert(points[0] == a && points[1] == b && points[2] == c);
        lemma_diff_product_bounds(p1x as int, p2y as int);
        lemma_diff_product_bounds(p1y as int, p2x as int);
        lemma_diff_product_bounds(qx as int, p2y as int);
        lemma_diff_product_bounds(qy as int, p2x as int);
        lemma_diff_product_bounds(p1x as int, qy as int);
        lemma_diff_product_bounds(p1y as int, qx as int);
    }
    let d: i128 = p1x * p2y - p1y * p2x;
    let s_num: i128 = qx * p2y - qy * p2x;
    let t_num: i128 = p1x * qy - p1y * qx;
    if d > 0 {
        s_num >= 0 && t_num >= 0 && s_num <= d - t_num
    } else if d < 0 {
        s_num <= 0 && t_num <= 0 && s_num >= d - t_num
    } else {
        false
    }
}

/// Products of differences of 33-bit values fit comfortably in 128 bits.
proof fn lemma_diff_product_bounds(a: int, b: int)
    requires
        -0x2_0000_0000 <= a <= 0x2_0000_0000,
        -0x2_0000_0000 <= b <= 0x2_0000_0000,
    ensures
        -0x10_0000_0000_0000_0000 <= a * b <= 0x10_0000_0000_0000_0000,
{
    assert(-0x10_0000_0000_0000_0000 <= a * b <= 0x10_0000_0000_0000_0000) by (nonlinear_arith)
        requires
            -0x2_0000_0000 <= a <= 0x2_0000_0000 && -0x2_0000_0000 <= b <= 0x2_0000_0000,
    ;
}

/// A line segment with its color and cached rounded-down length.
#[derive(Copy, Clone, Debug, PartialEq, Eq, Structural)]
pub struct Line {
    pub start: Coord,
    pub end: Coord,
    pub len: isize,
    pub color: Color,
}

impl Line {
    /// Build a line segment; the length is the rounded-down Euclidean
    /// distance between the endpoints.
    pub fn new(start: (isize, isize), end: (isize, isize), color: Color) -> (r: Line)
        requires
            (end.0 - start.0) * (end.0 - start.0) + (end.1 - start.1) * (end.1 - start.1) < (
            isize::MAX as int + 1) * (isize::MAX as int + 1),
        ensures
            r.start == (Coord { x: start.0, y: start.1 }),
            r.end == (Coord { x: end.0, y: end.1 }),
            is_floor_sqrt(
                (end.0 - start.0) * (end.0 - start.0) + (end.1 - start.1) * (end.1 - start.1),
                r.len as int,
            ),
            r.color == color,
    {
        let dx: i128 = end.0 as i128 - start.0 as i128;
        let dy: i128 = end.1 as i128 - start.1 as i128;
        let adx: u128 = if dx < 0 {
            (-dx) as u128
        } else {
            dx as u128
        };
        let ady: u128 = if dy < 0 {
            (-dy) as u128
        } else {
            dy as u128
        };
        proof {
            assert(adx * adx == (end.0 - start.0) * (end.0 - start.0) && ady * ady == (end.1
                - start.1) * (end.1 - start.1) && adx * adx
                <= 0xffff_ffff_ffff_ffff_0000_0000_0000_0001int && ady * ady
                <= 0xffff_ffff_ffff_ffff_0000_0000_0000_0001int) by (nonlinear_arith)
                requires
                    adx == abs(end.0 as int - start.0 as int) && ady == abs(
                        end.1 as int - start.1 as int,
                    ) && adx <= 0xffff_ffff_ffff_ffffu128 && ady <= 0xffff_ffff_ffff_ffffu128,
            ;
            assert(isize::MAX as int <= 0x7fff_ffff_ffff_ffffint);
            assert((isize::MAX as int + 1) * (isize::MAX as int + 1) <= u128::MAX as int + 1)
                by (nonlinear_arith)
                requires
                    isize::MAX as int <= 0x7fff_ffff_ffff_ffffint,
            ;
        }
        let sq: u128 = adx * adx + ady * ady;
        let len128 = isqrt_u128(sq);
        proof {
            assert((len128 as int) * (len128 as int) < (isize::MAX as int + 1) * (isize::MAX as int
                + 1) ==> len128 <= isize::MAX as int) by (nonlinear_arith);
        }
        let len: isize = len128 as isize;
        Line {
            start: Coord { x: start.0, y: start.1 },
            end: Coord { x: end.0, y: end.1 },
            len,
            color,
        }
    }

    pub fn start(&self) -> (r: Coord)
        ensures
            r == self.start,
    {
        self.start
    }

    pub fn end(&self) -> (r: Coord)
        ensures
            r == self.end,
    {
        self.end
    }

    pub fn color(&self) -> (r: Color)
        ensures
            r == self.color,
    {
        self.color
    }

    /// The cached rounded-down length.
    pub fn length(&self) -> (r: isize)
        ensures
            r == self.len,
    {
        self.len
    }
}

/// Errors building a polyline.
#[derive(Debug, Copy, Clone, Eq, PartialEq, Structural)]
pub enum PolylineError {
    /// The polyline was already closed; nothing more can be added.
    PolylineAlreadyClosed,
    /// The polyline does not begin with a start segment.
    InvalidPolyline,
}

/// One step of a polyline: where it starts, a straight segment, or an
/// arc around a center.
#[derive(Debug, Copy, Clone, Eq, PartialEq, Structural)]
pub enum Segment {
    Start(Coord),
    LineTo(Coord),
    ArcAround { center: Coord, angle_start: isize, angle_end: isize, radius: usize },
}

/// An open or closed chain of segments in one color.
#[derive(Debug, Clone, PartialEq, Eq)]
pub struct Polyline {
    pub segments: Vec<Segment>,
    pub color: Color,
    pub closed: bool,
}

impl Polyline {
    /// A polyline over the given segments, not yet closed.
    pub fn new(segments: Vec<Segment>, color: Color) -> (r: Polyline)
        ensures
            r.segments == segments,
            r.color == color,
            r.closed == false,
    {
        Polyline { segments, color, closed: false }
    }

    /// A polyline beginning at `start_at`.
    pub fn start(start_at: Coord, color: Color) -> (r: Polyline)
        ensures
            r.segments@ == seq![Segment::Start(start_at)],
            r.color == color,
            r.closed == false,
    {
        let mut segments: Vec<Segment> = Vec::new();
        segments.push(Segment::Start(start_at));
        proof {
            assert(segments@ =~= seq![Segment::Start(start_at)]);
        }
        Polyline { segments, color, closed: false }
    }

    /// The segments in order.
    pub fn segments(&self) -> (r: &Vec<Segment>)
        ensures
            r == &self.segments,
    {
        &self.segments
    }

    /// The same polyline in another color.
    pub fn with_color(&self, color: Color) -> (r: Polyline)
        ensures
            r.segments@ == self.segments@,
            r.color == color,
            r.closed == self.closed,
    {
        let mut segments: Vec<Segment> = Vec::new();
        let mut i: usize = 0;
        while i < self.segments.len()
            invariant
                i <= self.segments@.len(),
                segments@.len() == i,
                forall|j: int| 0 <= j < i ==> segments@[j] == self.segments@[j],
            decreases self.segments@.len() - i,
        {
            segments.push(self.segments[i]);
            i += 1;
        }
        proof {
            assert(segments@ =~= self.segments@);
        }
        Polyline { segments, color, closed: self.closed }
    }

    /// Append a straight segment; fails once the polyline is closed.
    pub fn add_line_to(self, point: Coord) -> (r: Result<Polyline, PolylineError>)
        ensures
            r is Ok <==> !self.closed,
            self.closed ==> r == Err::<Polyline, PolylineError>(
                PolylineError::PolylineAlreadyClosed,
            ),
            r matches Ok(p) ==> p.segments@ == self.segments@.push(Segment::LineTo(point))
                && p.color == self.color && p.closed == false,
    {
        if self.closed {
            return Err(PolylineError::PolylineAlreadyClosed);
        }
        let mut segments = self.segments;
        segments.push(Segment::LineTo(point));
        Ok(Polyline { segments, color: self.color, closed: false })
    }

    /// Append an arc segment; fails once the polyline is closed.
    pub fn add_arc_around(
        self,
        center: Coord,
        radius: usize,
        start_angle: isize,
        sweep_angle: usize,
    ) -> (r: Result<Polyline, PolylineError>)
        requires
            start_angle + sweep_angle <= isize::MAX as int,
        ensures
            r is Ok <==> !self.closed,
            self.closed ==> r == Err::<Polyline, PolylineError>(
                PolylineError::PolylineAlreadyClosed,
            ),
            r matches Ok(p) ==> p.segments@ == self.segments@.push(
                Segment::ArcAround {
                    center,
                    angle_start: start_angle,
                    angle_end: (start_angle + sweep_angle) as isize,
                    radius,
                },
            ) && p.color == self.color && p.closed == false,
    {
        if self.closed {
            return Err(PolylineError::PolylineAlreadyClosed);
        }
        let mut segments = self.segments;
        let angle_end: isize = (start_angle as i128 + sweep_angle as i128) as isize;
        segments.push(Segment::ArcAround { center, angle_start: start_angle, angle_end, radius });
        Ok(Polyline { segments, color: self.color, closed: false })
    }

    /// Close the polyline with a segment back to its start; fails when the
    /// first segment is not a start.
    pub fn close(self) -> (r: Result<Polyline, PolylineError>)
        ensures
            ({
                let ok = self.segments@.len() > 0 && self.segments@[0] is Start && !self.closed;
                &&& (r is Ok <==> ok)
                &&& (r matches Ok(p) ==> p.segments@ == self.segments@.push(
                    Segment::LineTo(self.segments@[0]->Start_0),
                ) && p.color == self.color && p.closed == true)
            }),
    {
        if self.segments.len() == 0 {
            return Err(PolylineError::InvalidPolyline);
        }
        match self.segments[0] {
            Segment::Start(coord) => {
                if self.closed {
                    return Err(PolylineError::PolylineAlreadyClosed);
                }
                let mut segments = self.segments;
                segments.push(Segment::LineTo(coord));
                Ok(Polyline { segments, color: self.color, closed: true })
            },
            _ => Err(PolylineError::InvalidPolyline),
        }
    }
}


/// Views of the precomputed arc data: each entry is an arc's point list
/// and the coordinate the arc ends on.
pub open spec fn arc_views(s: Seq<(Vec<Coord>, Coord)>) -> Seq<(Seq<Coord>, Coord)> {
    Seq::new(s.len(), |i: int| (s[i].0@, s[i].1))
}

/// The buffer after walking the segments from index `i`, with `last` the
/// previous segment's end and `k` the next arc entry: a straight segment
/// paints the line from `last`, an arc paints its precomputed points and
/// moves `last` to its stated end, and a stray start is skipped.
pub open spec fn polyline_buf(
    g: Graphics,
    buf: Seq<u8>,
    segs: Seq<Segment>,
    arcs: Seq<(Seq<Coord>, Coord)>,
    i: int,
    k: int,
    last: Coord,
    color: Color,
) -> Seq<u8>
    decreases segs.len() - i,
    when 0 <= i
{
    if i >= segs.len() {
        buf
    } else {
        match segs[i] {
            Segment::Start(_) => polyline_buf(g, buf, segs, arcs, i + 1, k, last, color),
            Segment::LineTo(c) => polyline_buf(
                g,
                paint(g, buf, line_seq(last, c), color),
                segs,
                arcs,
                i + 1,
                k,
                c,
                color,
            ),
            Segment::ArcAround { .. } => {
                if 0 <= k < arcs.len() {
                    polyline_buf(
                        g,
                        paint(g, buf, coord_seq(arcs[k].0), color),
                        segs,
                        arcs,
                        i + 1,
                        k + 1,
                        arcs[k].1,
                        color,
                    )
                } else {
                    polyline_buf(g, buf, segs, arcs, i + 1, k + 1, last, color)
                }
            },
        }
    }
}

impl Polyline {
    /// A rounded rectangle: four straight edges joined by four quarter
    /// arcs, beginning on the top edge.
    pub fn rounded_rect(
        left: isize,
        top: isize,
        right: isize,
        bottom: isize,
        corner_size: usize,
        color: Color,
    ) -> (r: Result<Polyline, PolylineError>)
        requires
            corner_size <= isize::MAX as int,
            isize::MIN as int <= left + corner_size <= isize::MAX as int,
            isize::MIN as int <= top + corner_size <= isize::MAX as int,
            isize::MIN as int <= right - corner_size <= isize::MAX as int,
            isize::MIN as int <= bottom - corner_size <= isize::MAX as int,
        ensures
            r is Ok,
            r matches Ok(p) ==> p.color == color && p.closed == false && p.segments@ == seq![
                Segment::Start(Coord { x: (left + corner_size) as isize, y: top }),
                Segment::LineTo(Coord { x: (right - corner_size) as isize, y: top }),
                Segment::ArcAround {
                    center: Coord {
                        x: (right - corner_size) as isize,
                        y: (top + corner_size) as isize,
                    },
                    angle_start: 0,
                    angle_end: 90,
                    radius: corner_size,
                },
                Segment::LineTo(Coord { x: right, y: (bottom - corner_size) as isize }),
                Segment::ArcAround {
                    center: Coord {
                        x: (right - corner_size) as isize,
                        y: (bottom - corner_size) as isize,
                    },
                    angle_start: 90,
                    angle_end: 180,
                    radius: corner_size,
                },
                Segment::LineTo(Coord { x: (left + corner_size) as isize, y: bottom }),
                Segment::ArcAround {
                    center: Coord {
                        x: (left + corner_size) as isize,
                        y: (bottom - corner_size) as isize,
                    },
                    angle_start: 180,
                    angle_end: 270,
                    radius: corner_size,
                },
                Segment::LineTo(Coord { x: left, y: (top + corner_size) as isize }),
                Segment::ArcAround {
                    center: Coord {
                        x: (left + corner_size) as isize,
                        y: (top + corner_size) as isize,
                    },
                    angle_start: 270,
                    angle_end: 360,
                    radius: corner_size,
                },
            ],
    {
        let cs = corner_size as isize;
        let mut segments: Vec<Segment> = Vec::new();
        segments.push(Segment::Start(Coord { x: left + cs, y: top }));
        segments.push(Segment::LineTo(Coord { x: right - cs, y: top }));
        segments.push(Segment::ArcAround {
            center: Coord { x: right - cs, y: top + cs },
            angle_start: 0,
            angle_end: 90,
            radius: corner_size,
        });
        segments.push(Segment::LineTo(Coord { x: right, y: bottom - cs }));
        segments.push(Segment::ArcAround {
            center: Coord { x: right - cs, y: bottom - cs },
            angle_start: 90,
            angle_end: 180,
            radius: corner_size,
        });
        segments.push(Segment::LineTo(Coord { x: left + cs, y: bottom }));
        segments.push(Segment::ArcAround {
            center: Coord { x: left + cs, y: bottom - cs },
            angle_start: 180,
            angle_end: 270,
            radius: corner_size,
        });
        segments.push(Segment::LineTo(Coord { x: left, y: top + cs }));
        segments.push(Segment::ArcAround {
            center: Coord { x: left + cs, y: top + cs },
            angle_start: 270,
            angle_end: 360,
            radius: corner_size,
        });
        proof {
            assert(segments@ =~= seq![
                    Segment::Start(Coord { x: (left + corner_size) as isize, y: top }),
                    Segment::LineTo(Coord { x: (right - corner_size) as isize, y: top }),
                    Segment::ArcAround {
                        center: Coord {
                            x: (right - corner_size) as isize,
                            y: (top + corner_size) as isize,
                        },
                        angle_start: 0,
                        angle_end: 90,
                        radius: corner_size,
                    },
                    Segment::LineTo(Coord { x: right, y: (bottom - corner_size) as isize }),
                    Segment::ArcAround {
                        center: Coord {
                            x: (right - corner_size) as isize,
                            y: (bottom - corner_size) as isize,
                        },
                        angle_start: 90,
                        angle_end: 180,
                        radius: corner_size,
                    },
                    Segment::LineTo(Coord { x: (left + corner_size) as isize, y: bottom }),
                    Segment::ArcAround {
                        center: Coord {
                            x: (left + corner_size) as isize,
                            y: (bottom - corner_size) as isize,
                        },
                        angle_start: 180,
                        angle_end: 270,
                        radius: corner_size,
                    },
                    Segment::LineTo(Coord { x: left, y: (top + corner_size) as isize }),
                    Segment::ArcAround {
                        center: Coord {
                            x: (left + corner_size) as isize,
                            y: (top + corner_size) as isize,
                        },
                        angle_start: 270,
                        angle_end: 360,
                        radius: corner_size,
                    },
                ]);
        }
        Ok(Polyline { segments, color, closed: false })
    }

    /// Render the polyline: each straight segment draws a line from the
    /// previous segment's end, and each arc paints a precomputed point
    /// list handed in by the caller, which also states where the arc
    /// ends.  A polyline that does not begin with a start segment leaves
    /// the surface untouched.
    pub fn render(&self, graphics: &mut Graphics, arcs: &Vec<(Vec<Coord>, Coord)>)
        requires
            gfx_wf(*old(graphics)),
        ensures
            gfx_wf(*final(graphics)),
            *final(graphics) == (Graphics { buffer: final(graphics).buffer, ..*old(graphics) }),
            final(graphics).buffer@ == (if self.segments@.len() > 0 && self.segments@[0] is Start {
                polyline_buf(
                    *old(graphics),
                    old(graphics).buffer@,
                    self.segments@,
                    arc_views(arcs@),
                    1,
                    0,
                    self.segments@[0]->Start_0,
                    self.color,
                )
            } else {
                old(graphics).buffer@
            }),
    {
        let n = self.segments.len();
        if n == 0 {
            return ;
        }
        let mut last: Coord = match self.segments[0] {
            Segment::Start(c) => c,
            _ => {
                return ;
            },
        };
        let color = self.color;
        let ghost g0 = *old(graphics);
        let ghost segs = self.segments@;
        let ghost av = arc_views(arcs@);
        let ghost c0 = last;
        let mut i: usize = 1;
        let mut k: usize = 0;
        while i < n
            invariant
                1 <= i <= n,
                k <= i,
                n == segs.len(),
                segs == self.segments@,
                av == arc_views(arcs@),
                color == self.color,
                g0 == *old(graphics),
                gfx_wf(*graphics),
                *graphics == (Graphics { buffer: graphics.buffer, ..g0 }),
                polyline_buf(g0, old(graphics).buffer@, segs, av, 1, 0, c0, color)
                    == polyline_buf(
                    g0,
                    graphics.buffer@,
                    segs,
                    av,
                    i as int,
                    k as int,
                    last,
                    color,
                ),
            decreases n - i,
        {
            match self.segments[i] {
                Segment::Start(_) => {
                    proof {
                        assert(polyline_buf(g0, graphics.buffer@, segs, av, i as int, k as int, last, color)
                            == polyline_buf(g0, graphics.buffer@, segs, av, i as int + 1, k as int, last, color));
                    }
                },
                Segment::LineTo(c) => {
                    let ghost pre = *graphics;
                    graphics.draw_line(last, c, color);
                    proof {
                        lemma_paint_config(g0, pre, pre.buffer@, line_seq(last, c), color);
                    }
                    last = c;
                },
                Segment::ArcAround { .. } => {
                    if k < arcs.len() {
                        let ghost pre = *graphics;
                        graphics.paint_coords(&arcs[k].0, color);
                        proof {
                            assert(coord_seq(arcs@[k as int].0@) == coord_seq(av[k as int].0));
                            lemma_paint_config(
                                g0,
                                pre,
                                pre.buffer@,
                                coord_seq(av[k as int].0),
                                color,
                            );
                        }
                        last = arcs[k].1;
                    }
                    k += 1;
                },
            }
            i += 1;
        }
    }
}

} // verus!

//! The drawing surface and the single pixel-write choke point.
//!
//! A [`Graphics`] owns an RGBA byte buffer (four bytes per pixel), a
//! translation offset, and a clip.  Every drawing primitive funnels each
//! pixel through [`Graphics::set_pixel`], which translates, bounds-checks,
//! clip-tests and alpha-composites; out-of-range writes are silent no-ops.

use crate::clipping::Clip;
use crate::clipping::clip_valid;
use crate::clipping::clip_wf;
use crate::color::Color;
use crate::color::spec_blend;
use crate::coord::Coord;
use vstd::prelude::*;

verus! {

/// Error cases of surface and image construction and export.
#[derive(Debug, PartialEq, Eq)]
pub enum GraphicsError {
    /// Buffer length does not match `width * height * 4`: expected, actual.
    InvalidBufferLength(usize, usize),
    /// Pixel array length does not match `width * height`: expected, actual.
    ImageInitSize(usize, usize),
    /// Two images must be the same size: expected w/h, actual w/h.
    ImageBlendSize(usize, usize, usize, usize),
    /// More than 255 distinct colors and palette simplification was off.
    TooManyColors,
    /// The surface exceeds 255x255 and cannot be exported indexed.
    TooBig(usize, usize),
    /// The indexed interchange format refused the image (a dimension of
    /// zero).
    ImageError,
}

/// A custom glyph: one bitmap per supported font size.  Only the sizes a
/// program uses need to be filled in.
#[derive(Clone, Debug, PartialEq, Eq)]
pub struct CustomLetter {
    pub px_6x7: [bool; 42],
    pub px_3x5: [bool; 15],
}

impl Default for CustomLetter {
    /// All pixels off for every size.
    fn default() -> (r: CustomLetter)
        ensures
            forall|i: int| 0 <= i < 42 ==> r.px_6x7@[i] == false,
            forall|i: int| 0 <= i < 15 ==> r.px_3x5@[i] == false,
    {
        CustomLetter { px_6x7: [false;42], px_3x5: [false;15] }
    }
}

/// A drawing surface over an owned RGBA byte buffer.
pub struct Graphics {
    pub buffer: Vec<u8>,
    pub width: usize,
    pub height: usize,
    pub translate: Coord,
    pub clip: Clip,
    /// Per-surface glyph overrides: the first entry whose code matches a
    /// drawn character replaces the built-in glyph of the same size.
    pub custom_font: Vec<(u8, CustomLetter)>,
}

/// Well-formedness: the buffer covers the surface exactly, the dimensions
/// are representable, and the clip matches the surface.
pub open spec fn gfx_wf(g: Graphics) -> bool {
    &&& g.buffer@.len() == g.width * g.height * 4
    &&& g.width * g.height * 4 <= usize::MAX
    &&& g.width <= isize::MAX as int
    &&& g.height <= isize::MAX as int
    &&& clip_wf(g.clip)
    &&& g.clip.width == g.width
    &&& g.clip.height == g.height
}

/// The color stored at flat pixel index `j` of an RGBA byte buffer.
pub open spec fn pixel_flat(buf: Seq<u8>, j: int) -> Color {
    Color { r: buf[4 * j], g: buf[4 * j + 1], b: buf[4 * j + 2], a: buf[4 * j + 3] }
}

/// The color stored at `(x, y)` in an RGBA byte buffer `w` pixels wide.
pub open spec fn pixel_color_at(buf: Seq<u8>, w: int, x: int, y: int) -> Color {
    Color {
        r: buf[4 * (x + y * w)],
        g: buf[4 * (x + y * w) + 1],
        b: buf[4 * (x + y * w) + 2],
        a: buf[4 * (x + y * w) + 3],
    }
}

/// The buffer with the four bytes of pixel `(x, y)` replaced by `c`.
pub open spec fn with_pixel(buf: Seq<u8>, w: int, x: int, y: int, c: Color) -> Seq<u8> {
    buf.update(4 * (x + y * w), c.r).update(4 * (x + y * w) + 1, c.g).update(
        4 * (x + y * w) + 2,
        c.b,
    ).update(4 * (x + y * w) + 3, c.a)
}

/// One pass of the pixel pipeline over a buffer: translate, bounds-check,
/// clip-test, then overwrite (alpha 255), skip (alpha 0) or composite.
/// `g` supplies the surface configuration; its own buffer is ignored.
pub open spec fn upd_buf(g: Graphics, buf: Seq<u8>, x: int, y: int, c: Color) -> Seq<u8> {
    let tx = x + g.translate.x;
    let ty = y + g.translate.y;
    if 0 <= tx < g.width && 0 <= ty < g.height && clip_valid(g.clip, tx, ty) && c.a != 0 {
        if c.a == 255 {
            with_pixel(buf, g.width as int, tx, ty, c)
        } else {
            with_pixel(
                buf,
                g.width as int,
                tx,
                ty,
                spec_blend(pixel_color_at(buf, g.width as int, tx, ty), c),
            )
        }
    } else {
        buf
    }
}

/// The buffer after painting every point of `pts` in order with `c`,
/// each through the pixel pipeline.
pub open spec fn paint(g: Graphics, buf: Seq<u8>, pts: Seq<(int, int)>, c: Color) -> Seq<u8>
    decreases pts.len(),
{
    if pts.len() == 0 {
        buf
    } else {
        paint(g, upd_buf(g, buf, pts[0].0, pts[0].1, c), pts.drop_first(), c)
    }
}

/// Painting a concatenation paints the two halves in order.
pub proof fn lemma_paint_concat(g: Graphics, buf: Seq<u8>, s1: Seq<(int, int)>, s2: Seq<
    (int, int),
>, c: Color)
    ensures
        paint(g, buf, s1 + s2, c) == paint(g, paint(g, buf, s1, c), s2, c),
    decreases s1.len(),
{
    if s1.len() == 0 {
        assert(s1 + s2 =~= s2);
    } else {
        let buf1 = upd_buf(g, buf, s1[0].0, s1[0].1, c);
        assert((s1 + s2).drop_first() =~= s1.drop_first() + s2);
        lemma_paint_concat(g, buf1, s1.drop_first(), s2, c);
    }
}

/// Painting a full-size buffer never changes its length.
pub proof fn lemma_paint_len(g: Graphics, buf: Seq<u8>, pts: Seq<(int, int)>, c: Color)
    requires
        buf.len() == g.width * g.height * 4,
    ensures
        paint(g, buf, pts, c).len() == buf.len(),
    decreases pts.len(),
{
    if pts.len() > 0 {
        lemma_upd_buf_len(g, buf, pts[0].0, pts[0].1, c);
        lemma_paint_len(g, upd_buf(g, buf, pts[0].0, pts[0].1, c), pts.drop_first(), c);
    }
}

pub proof fn lemma_upd_buf_len(g: Graphics, buf: Seq<u8>, x: int, y: int, c: Color)
    requires
        buf.len() == g.width * g.height * 4,
    ensures
        upd_buf(g, buf, x, y, c).len() == buf.len(),
{
    let tx = x + g.translate.x;
    let ty = y + g.translate.y;
    if 0 <= tx < g.width && 0 <= ty < g.height {
        lemma_pix_byte_bound(g.width as int, g.height as int, tx, ty);
    }
}

impl Graphics {
    /// A zeroed RGBA buffer of the right length for a `width` by `height`
    /// surface.
    pub fn create_buffer_u8(width: usize, height: usize) -> (r: Vec<u8>)
        requires
            width * height * 4 <= usize::MAX,
        ensures
            r@.len() == width * height * 4,
            forall|i: int| 0 <= i < r@.len() ==> r@[i] == 0u8,
    {
        proof {
            assert((width * height) * 4 == width * height * 4) by (nonlinear_arith);
        }
        let n: usize = width * height * 4;
        let mut out: Vec<u8> = Vec::new();
        let mut i: usize = 0;
        while i < n
            invariant
                i <= n,
                out@.len() == i,
                forall|j: int| 0 <= j < i ==> out@[j] == 0u8,
            decreases n - i,
        {
            out.push(0);
            i += 1;
        }
        out
    }

    /// Wrap an RGBA byte buffer as a surface.
    ///
    /// Succeeds exactly when the buffer length is `width * height * 4`;
    /// otherwise the mismatched lengths are reported and nothing is
    /// consumed beyond the moved buffer.
    pub fn new_u8_rgba(buffer: Vec<u8>, width: usize, height: usize) -> (r: Result<
        Graphics,
        GraphicsError,
    >)
        requires
            width * height * 4 <= usize::MAX,
            width <= isize::MAX as int,
            height <= isize::MAX as int,
        ensures
            r is Ok <==> buffer@.len() == width * height * 4,
            r is Ok ==> {
                &&& gfx_wf(r->Ok_0)
                &&& r->Ok_0.buffer == buffer
                &&& r->Ok_0.width == width
                &&& r->Ok_0.height == height
                &&& r->Ok_0.translate == (Coord { x: 0, y: 0 })
                &&& r->Ok_0.clip.mode is Nothing
                &&& r->Ok_0.custom_font@.len() == 0
            },
            r is Err ==> r->Err_0 == GraphicsError::InvalidBufferLength(
                (width * height * 4) as usize,
                buffer@.len() as usize,
            ),
    {
        proof {
            assert((width * height) * 4 == width * height * 4) by (nonlinear_arith);
            assert(width * height <= width * height * 4) by (nonlinear_arith);
        }
        let count: usize = width * height * 4;
        if count != buffer.len() {
            return Err(GraphicsError::InvalidBufferLength(count, buffer.len()));
        }
        Ok(
            Graphics {
                buffer,
                width,
                height,
                translate: Coord { x: 0, y: 0 },
                clip: Clip::new(width, height),
                custom_font: Vec::new(),
            },
        )
    }

    /// Take the surface apart, returning its buffer.
    pub fn into_buffer(self) -> (r: Vec<u8>)
        ensures
            r == self.buffer,
    {
        self.buffer
    }

    #[inline]
    pub fn width(&self) -> (r: usize)
        ensures
            r == self.width,
    {
        self.width
    }

    #[inline]
    pub fn height(&self) -> (r: usize)
        ensures
            r == self.height,
    {
        self.height
    }

    /// The buffer index of the first byte of the pixel at `(x, y)`.
    #[inline]
    pub fn index(&self, x: usize, y: usize) -> (r: usize)
        requires
            gfx_wf(*self),
            x < self.width,
            y < self.height,
        ensures
            r == 4 * (x + y * self.width),
    {
        proof {
            lemma_pix_byte_bound(self.width as int, self.height as int, x as int, y as int);
        }
        (x + y * self.width) * 4
    }

    /// True when `point`, after undoing the translation, lies on the
    /// surface.
    pub fn is_on_screen(&self, point: Coord) -> (r: bool)
        requires
            gfx_wf(*self),
        ensures
            r == (0 <= point.x - self.translate.x < self.width && 0 <= point.y - self.translate.y
                < self.height),
    {
        let x: i128 = point.x as i128 - self.translate.x as i128;
        let y: i128 = point.y as i128 - self.translate.y as i128;
        x >= 0 && y >= 0 && x < self.width as i128 && y < self.height as i128
    }

    /// The current drawing offset.
    #[inline]
    pub fn get_translate(&self) -> (r: Coord)
        ensures
            r == self.translate,
    {
        self.translate
    }

    /// Replace the drawing offset, returning the previous one.
    pub fn set_translate(&mut self, new_value: Coord) -> (r: Coord)
        ensures
            r == old(self).translate,
            *final(self) == (Graphics { translate: new_value, ..*old(self) }),
    {
        let old_value = self.translate;
        self.translate = new_value;
        old_value
    }

    /// Add `delta` to the drawing offset.
    pub fn update_translate(&mut self, delta: Coord)
        requires
            isize::MIN <= old(self).translate.x + delta.x <= isize::MAX as int,
            isize::MIN <= old(self).translate.y + delta.y <= isize::MAX as int,
        ensures
            *final(self) == (Graphics {
                translate: Coord {
                    x: (old(self).translate.x + delta.x) as isize,
                    y: (old(self).translate.y + delta.y) as isize,
                },
                ..*old(self)
            }),
    {
        self.translate = Coord { x: self.translate.x + delta.x, y: self.translate.y + delta.y };
    }

    /// Replace the clip; it must match the surface size.
    pub fn set_clip(&mut self, clip: Clip)
        requires
            gfx_wf(*old(self)),
            clip_wf(clip),
            clip.width == old(self).width,
            clip.height == old(self).height,
        ensures
            gfx_wf(*final(self)),
            *final(self) == (Graphics { clip, ..*old(self) }),
    {
        self.clip = clip;
    }

    pub fn clip(&self) -> (r: &Clip)
        ensures
            r == &self.clip,
    {
        &self.clip
    }

    /// The stored color of the pixel at `(x, y)`, `None` when out of
    /// range.  With `use_translate`, the drawing offset is applied first.
    pub fn get_pixel(&self, x: isize, y: isize, use_translate: bool) -> (r: Option<Color>)
        requires
            gfx_wf(*self),
        ensures
            ({
                let tx = if use_translate {
                    x + self.translate.x
                } else {
                    x as int
                };
                let ty = if use_translate {
                    y + self.translate.y
                } else {
                    y as int
                };
                if 0 <= tx < self.width && 0 <= ty < self.height {
                    r == Some(pixel_color_at(self.buffer@, self.width as int, tx, ty))
                } else {
                    r is None
                }
            }),
    {
        let tx: i128 = if use_translate {
            x as i128 + self.translate.x as i128
        } else {
            x as i128
        };
        let ty: i128 = if use_translate {
            y as i128 + self.translate.y as i128
        } else {
            y as i128
        };
        if tx >= 0 && ty >= 0 && tx < self.width as i128 && ty < self.height as i128 {
            let ux = tx as usize;
            let uy = ty as usize;
            proof {
                lemma_pix_byte_bound(self.width as int, self.height as int, ux as int, uy as int);
            }
            let idx = (ux + uy * self.width) * 4;
            Some(
                Color {
                    r: self.buffer[idx],
                    g: self.buffer[idx + 1],
                    b: self.buffer[idx + 2],
                    a: self.buffer[idx + 3],
                },
            )
        } else {
            None
        }
    }

    /// Set every pixel to `color`, ignoring the translation and the clip.
    pub fn clear(&mut self, color: Color)
        requires
            gfx_wf(*old(self)),
        ensures
            gfx_wf(*final(self)),
            *final(self) == (Graphics { buffer: final(self).buffer, ..*old(self) }),
            final(self).buffer@.len() == old(self).buffer@.len(),
            forall|x: int, y: int|
                0 <= x < old(self).width && 0 <= y < old(self).height ==> pixel_color_at(
                    final(self).buffer@,
                    old(self).width as int,
                    x,
                    y,
                ) == color,
    {
        let w = self.width;
        let h = self.height;
        let n = w * h;
        let mut i: usize = 0;
        while i < n
            invariant
                i <= n,
                n == w * h,
                gfx_wf(*self),
                w == self.width,
                h == self.height,
                self.buffer@.len() == w * h * 4,
                self.width == old(self).width,
                self.height == old(self).height,
                self.translate == old(self).translate,
                self.clip == old(self).clip,
                self.custom_font == old(self).custom_font,
                forall|j: int| 0 <= j < i ==> #[trigger] pixel_flat(self.buffer@, j) == color,
            decreases n - i,
        {
            proof {
                assert(4 * (i as int) + 3 < w * h * 4) by (nonlinear_arith)
                    requires
                        i < n && n == w * h,
                ;
            }
            proof {
                assert((i as int) * 4 == 4 * (i as int));
            }
            let base = i * 4;
            let ghost pre = self.buffer@;
            self.buffer.set(base, color.r);
            self.buffer.set(base + 1, color.g);
            self.buffer.set(base + 2, color.b);
            self.buffer.set(base + 3, color.a);
            proof {
                assert forall|j: int| 0 <= j < i + 1 implies #[trigger] pixel_flat(
                    self.buffer@,
                    j,
                ) == color by {
                    if j < i {
                        assert(pixel_flat(pre, j) == color);
                        assert(4 * j + 3 < 4 * (i as int));
                    }
                }
            }
            i += 1;
        }
        proof {
            assert forall|x: int, y: int|
                0 <= x < old(self).width && 0 <= y < old(self).height implies pixel_color_at(
                self.buffer@,
                old(self).width as int,
                x,
                y,
            ) == color by {
                crate::clipping::lemma_grid_index_bound(w as int, h as int, x, y);
                let j = x + y * (w as int);
                assert(pixel_flat(self.buffer@, j) == color);
            }
        }
    }

    /// Write one pixel through the full pipeline: translate, bounds-check,
    /// clip-test, then overwrite, composite or skip depending on the
    /// alpha.  Out-of-range and clipped writes change nothing.
    pub fn set_pixel(&mut self, x: isize, y: isize, color: Color)
        requires
            gfx_wf(*old(self)),
        ensures
            gfx_wf(*final(self)),
            *final(self) == (Graphics { buffer: final(self).buffer, ..*old(self) }),
            final(self).buffer@ == upd_buf(
                *old(self),
                old(self).buffer@,
                x as int,
                y as int,
                color,
            ),
    {
        self.update_pixel_wide(x as i128, y as i128, color)
    }

    /// The pixel pipeline over wide coordinates, so that callers may pass
    /// sums that overflow the machine word (they are simply off-surface).
    pub(crate) fn update_pixel_wide(&mut self, x: i128, y: i128, color: Color)
        requires
            gfx_wf(*old(self)),
            -0x8000_0000_0000_0000_0000_0000_0000_0000 + 0x1_0000_0000_0000_0000 <= x
                <= 0x7fff_ffff_ffff_ffff_ffff_ffff_ffff_ffff - 0x1_0000_0000_0000_0000,
            -0x8000_0000_0000_0000_0000_0000_0000_0000 + 0x1_0000_0000_0000_0000 <= y
                <= 0x7fff_ffff_ffff_ffff_ffff_ffff_ffff_ffff - 0x1_0000_0000_0000_0000,
        ensures
            gfx_wf(*final(self)),
            *final(self) == (Graphics { buffer: final(self).buffer, ..*old(self) }),
            final(self).buffer@ == upd_buf(
                *old(self),
                old(self).buffer@,
                x as int,
                y as int,
                color,
            ),
    {
        let tx: i128 = x + self.translate.x as i128;
        let ty: i128 = y + self.translate.y as i128;
        if !(tx >= 0 && ty >= 0 && tx < self.width as i128 && ty < self.height as i128) {
            return ;
        }
        let ux = tx as usize;
        let uy = ty as usize;
        if !self.clip.is_valid((tx as isize, ty as isize)) {
            return ;
        }
        if color.a == 0 {
            return ;
        }
        proof {
            lemma_pix_byte_bound(self.width as int, self.height as int, ux as int, uy as int);
        }
        let idx = (ux + uy * self.width) * 4;
        let new_color = if color.a == 255 {
            color
        } else {
            let dst = Color {
                r: self.buffer[idx],
                g: self.buffer[idx + 1],
                b: self.buffer[idx + 2],
                a: self.buffer[idx + 3],
            };
            dst.blend(color)
        };
        self.buffer.set(idx, new_color.r);
        self.buffer.set(idx + 1, new_color.g);
        self.buffer.set(idx + 2, new_color.b);
        self.buffer.set(idx + 3, new_color.a);
        proof {
            assert(self.buffer@ =~= upd_buf(*old(self), old(self).buffer@, x as int, y as int, color));
        }
    }
}

/// Two surfaces with the same configuration paint buffers identically.
pub proof fn lemma_upd_buf_config(g1: Graphics, g2: Graphics, buf: Seq<u8>, x: int, y: int, c: Color)
    requires
        g1.width == g2.width,
        g1.height == g2.height,
        g1.translate == g2.translate,
        g1.clip == g2.clip,
    ensures
        upd_buf(g1, buf, x, y, c) == upd_buf(g2, buf, x, y, c),
{
}

pub proof fn lemma_paint_config(g1: Graphics, g2: Graphics, buf: Seq<u8>, pts: Seq<(int, int)>, c: Color)
    requires
        g1.width == g2.width,
        g1.height == g2.height,
        g1.translate == g2.translate,
        g1.clip == g2.clip,
    ensures
        paint(g1, buf, pts, c) == paint(g2, buf, pts, c),
    decreases pts.len(),
{
    if pts.len() > 0 {
        lemma_upd_buf_config(g1, g2, buf, pts[0].0, pts[0].1, c);
        lemma_paint_config(g1, g2, upd_buf(g1, buf, pts[0].0, pts[0].1, c), pts.drop_first(), c);
    }
}

/// An inclusive horizontal run of pixels on row `y`, from `x0` to `x1`.
pub open spec fn row_pts(y: int, x0: int, x1: int) -> Seq<(int, int)> {
    Seq::new((x1 - x0 + 1) as nat, |i: int| (x0 + i, y))
}

/// An inclusive vertical run of pixels in column `x`, from `y0` to `y1`.
pub open spec fn col_pts(x: int, y0: int, y1: int) -> Seq<(int, int)> {
    Seq::new((y1 - y0 + 1) as nat, |i: int| (x, y0 + i))
}

/// The pixels of a shallow (x-dominant) Bresenham walk from `(x, y)` to
/// column `x2`: the major axis steps by `ix` every pixel, the minor axis
/// steps by `iy` whenever the error term `delta` overflows `dx`.
pub open spec fn bres_flat(
    x: int,
    y: int,
    x2: int,
    ix: int,
    iy: int,
    dx: int,
    dy: int,
    delta: int,
) -> Seq<(int, int)>
    decreases
            (if ix == 1 {
                x2 - x
            } else {
                x - x2
            }),
    when (ix == 1 && x <= x2) || (ix == -1 && x >= x2)
{
    if x == x2 {
        seq![(x, y)]
    } else {
        let d2 = delta + 2 * dy;
        if d2 > dx {
            seq![(x, y)] + bres_flat(x + ix, y + iy, x2, ix, iy, dx, dy, d2 - 2 * dx)
        } else {
            seq![(x, y)] + bres_flat(x + ix, y, x2, ix, iy, dx, dy, d2)
        }
    }
}

/// The pixels of a steep (y-dominant) Bresenham walk from `(x, y)` to row
/// `y2`.
pub open spec fn bres_steep(
    x: int,
    y: int,
    y2: int,
    ix: int,
    iy: int,
    dx: int,
    dy: int,
    delta: int,
) -> Seq<(int, int)>
    decreases
            (if iy == 1 {
                y2 - y
            } else {
                y - y2
            }),
    when (iy == 1 && y <= y2) || (iy == -1 && y >= y2)
{
    if y == y2 {
        seq![(x, y)]
    } else {
        let d2 = delta + 2 * dx;
        if d2 > dy {
            seq![(x, y)] + bres_steep(x + ix, y + iy, y2, ix, iy, dx, dy, d2 - 2 * dy)
        } else {
            seq![(x, y)] + bres_steep(x, y + iy, y2, ix, iy, dx, dy, d2)
        }
    }
}

/// The ordered pixels a line from `a` to `b` touches.
///
/// The endpoints are first normalized (swapped when `a.x > b.x` or
/// `a.y > b.y`); perfectly horizontal or vertical lines become inclusive
/// runs, anything else a Bresenham walk along the dominant axis.  Both
/// endpoints are always included.
pub open spec fn line_seq(a: Coord, b: Coord) -> Seq<(int, int)> {
    let s = if a.x > b.x || a.y > b.y {
        b
    } else {
        a
    };
    let e = if a.x > b.x || a.y > b.y {
        a
    } else {
        b
    };
    if s.x == e.x {
        col_pts(s.x as int, s.y as int, e.y as int)
    } else if s.y == e.y {
        row_pts(s.y as int, s.x as int, e.x as int)
    } else {
        let dx = if e.x >= s.x {
            e.x - s.x
        } else {
            s.x - e.x
        };
        let dy = if e.y >= s.y {
            e.y - s.y
        } else {
            s.y - e.y
        };
        let ix: int = if s.x < e.x {
            1
        } else {
            -1
        };
        let iy: int = if s.y < e.y {
            1
        } else {
            -1
        };
        if dx >= dy {
            bres_flat(s.x as int, s.y as int, e.x as int, ix, iy, dx, dy, 0)
        } else {
            bres_steep(s.x as int, s.y as int, e.y as int, ix, iy, dx, dy, 0)
        }
    }
}

/// Law: drawing a line between two endpoints that lie in the same closed
/// quadrant order (one endpoint at or left-and-above the other) touches
/// exactly the same pixels in either direction, because both calls
/// normalize to the same walk.  For endpoints in mixed order (one strictly
/// left, the other strictly above) the two walks may round differently and
/// the sets can differ.
pub proof fn lemma_line_seq_symmetric(a: Coord, b: Coord)
    requires
        (a.x <= b.x && a.y <= b.y) || (b.x <= a.x && b.y <= a.y),
    ensures
        line_seq(a, b) == line_seq(b, a),
{
    if a.x == b.x && a.y == b.y {
        assert(line_seq(a, b) == line_seq(b, a));
    } else if a.x <= b.x && a.y <= b.y {
        assert(!(a.x > b.x || a.y > b.y));
        assert(b.x > a.x || b.y > a.y);
        assert(line_seq(a, b) == line_seq(b, a));
    } else {
        assert(a.x > b.x || a.y > b.y);
        assert(!(b.x > a.x || b.y > a.y));
        assert(line_seq(a, b) == line_seq(b, a));
    }
}

impl Graphics {
    /// Draw a straight line from `start` to `end` (both inclusive) through
    /// the pixel pipeline, painting exactly the pixels of
    /// [`line_seq`] in order.
    pub fn draw_line(&mut self, start: Coord, end: Coord, color: Color)
        requires
            gfx_wf(*old(self)),
        ensures
            gfx_wf(*final(self)),
            *final(self) == (Graphics { buffer: final(self).buffer, ..*old(self) }),
            final(self).buffer@ == paint(
                *old(self),
                old(self).buffer@,
                line_seq(start, end),
                color,
            ),
    {
        let (s, e) = if start.x > end.x || start.y > end.y {
            (end, start)
        } else {
            (start, end)
        };
        let ghost pts = line_seq(start, end);
        if s.x == e.x {
            let mut y: i128 = s.y as i128;
            let ey: i128 = e.y as i128;
            while y <= ey
                invariant
                    gfx_wf(*self),
                    *self == (Graphics { buffer: self.buffer, ..*old(self) }),
                    s.y as int <= y <= ey + 1,
                    ey == e.y as int,
                    paint(*old(self), old(self).buffer@, pts, color) == paint(
                        *old(self),
                        self.buffer@,
                        col_pts(s.x as int, y as int, ey as int),
                        color,
                    ),
                decreases ey + 1 - y,
            {
                let ghost pre = *self;
                self.update_pixel_wide(s.x as i128, y, color);
                proof {
                    let rest = col_pts(s.x as int, y as int, ey as int);
                    assert(rest.len() > 0);
                    assert(rest[0] == (s.x as int, y as int));
                    assert(rest.drop_first() =~= col_pts(s.x as int, y as int + 1, ey as int));
                    lemma_upd_buf_config(*old(self), pre, pre.buffer@, s.x as int, y as int, color);
                }
                y = y + 1;
            }
            proof {
                assert(col_pts(s.x as int, y as int, ey as int).len() == 0);
                assert(pts == col_pts(s.x as int, s.y as int, e.y as int));
                assert(self.buffer@ == paint(*old(self), old(self).buffer@, pts, color));
            }
        } else if s.y == e.y {
            let mut x: i128 = s.x as i128;
            let ex: i128 = e.x as i128;
            while x <= ex
                invariant
                    gfx_wf(*self),
                    *self == (Graphics { buffer: self.buffer, ..*old(self) }),
                    s.x as int <= x <= ex + 1,
                    ex == e.x as int,
                    paint(*old(self), old(self).buffer@, pts, color) == paint(
                        *old(self),
                        self.buffer@,
                        row_pts(s.y as int, x as int, ex as int),
                        color,
                    ),
                decreases ex + 1 - x,
            {
                let ghost pre = *self;
                self.update_pixel_wide(x, s.y as i128, color);
                proof {
                    let rest = row_pts(s.y as int, x as int, ex as int);
                    assert(rest.len() > 0);
                    assert(rest[0] == (x as int, s.y as int));
                    assert(rest.drop_first() =~= row_pts(s.y as int, x as int + 1, ex as int));
                    lemma_upd_buf_config(*old(self), pre, pre.buffer@, x as int, s.y as int, color);
                }
                x = x + 1;
            }
            proof {
                assert(row_pts(s.y as int, x as int, ex as int).len() == 0);
                assert(pts == row_pts(s.y as int, s.x as int, e.x as int));
                assert(self.buffer@ == paint(*old(self), old(self).buffer@, pts, color));
            }
        } else {
            let x1: i128 = s.x as i128;
            let y1: i128 = s.y as i128;
            let x2: i128 = e.x as i128;
            let y2: i128 = e.y as i128;
            let dx: i128 = if x2 >= x1 {
                x2 - x1
            } else {
                x1 - x2
            };
            let dy: i128 = if y2 >= y1 {
                y2 - y1
            } else {
                y1 - y2
            };
            let ix: i128 = if x1 < x2 {
                1
            } else {
                -1
            };
            let iy: i128 = if y1 < y2 {
                1
            } else {
                -1
            };
            let mut x: i128 = x1;
            let mut y: i128 = y1;
            let mut delta: i128 = 0;
            if dx >= dy {
                while x != x2
                    invariant
                        gfx_wf(*self),
                        *self == (Graphics { buffer: self.buffer, ..*old(self) }),
                        dx == (if e.x >= s.x { e.x - s.x } else { s.x - e.x }),
                        dy == (if e.y >= s.y { e.y - s.y } else { s.y - e.y }),
                        dx >= dy >= 1,
                        ix == (if s.x < e.x { 1int } else { -1int }),
                        iy == (if s.y < e.y { 1int } else { -1int }),
                        x2 == e.x as int,
                        (ix == 1 && x1 <= x <= x2) || (ix == -1 && x2 <= x <= x1),
                        x1 == s.x as int,
                        y1 == s.y as int,
                        (if y >= y1 { y - y1 } else { y1 - y }) <= (if x >= x1 { x - x1 } else { x1 - x }),
                        -2 * dx <= delta <= dx,
                        paint(*old(self), old(self).buffer@, pts, color) == paint(
                            *old(self),
                            self.buffer@,
                            bres_flat(x as int, y as int, x2 as int, ix as int, iy as int, dx as int, dy as int, delta as int),
                            color,
                        ),
                    decreases
                            (if ix == 1 {
                                x2 - x
                            } else {
                                x - x2
                            }),
                {
                    let ghost pre = *self;
                    let ghost rest = bres_flat(x as int, y as int, x2 as int, ix as int, iy as int, dx as int, dy as int, delta as int);
                    self.update_pixel_wide(x, y, color);
                    proof {
                        assert(rest == seq![(x as int, y as int)] + bres_flat((x + ix) as int, (y + (if delta + 2 * dy > dx { iy } else { 0 })) as int, x2 as int, ix as int, iy as int, dx as int, dy as int, (if delta + 2 * dy > dx { delta + 2 * dy - 2 * dx } else { delta + 2 * dy }) as int));
                        assert(rest[0] == (x as int, y as int));
                        assert(rest.drop_first() =~= bres_flat((x + ix) as int, (y + (if delta + 2 * dy > dx { iy } else { 0 })) as int, x2 as int, ix as int, iy as int, dx as int, dy as int, (if delta + 2 * dy > dx { delta + 2 * dy - 2 * dx } else { delta + 2 * dy }) as int));
                        lemma_upd_buf_config(*old(self), pre, pre.buffer@, x as int, y as int, color);
                    }
                    x = x + ix;
                    delta = delta + 2 * dy;
                    if delta > dx {
                        y = y + iy;
                        delta = delta - 2 * dx;
                    }
                }
                let ghost pre = *self;
                self.update_pixel_wide(x, y, color);
                proof {
                    let rest = bres_flat(x as int, y as int, x2 as int, ix as int, iy as int, dx as int, dy as int, delta as int);
                    assert(rest == seq![(x as int, y as int)]);
                    assert(rest[0] == (x as int, y as int));
                    assert(rest.drop_first() =~= Seq::<(int, int)>::empty());
                    lemma_upd_buf_config(*old(self), pre, pre.buffer@, x as int, y as int, color);
                    assert(self.buffer@ == upd_buf(*old(self), pre.buffer@, x as int, y as int, color));
                    assert(paint(*old(self), pre.buffer@, rest, color) == paint(*old(self), upd_buf(*old(self), pre.buffer@, x as int, y as int, color), rest.drop_first(), color));
                    assert(paint(*old(self), pre.buffer@, rest, color) == self.buffer@);
                    assert(paint(*old(self), old(self).buffer@, pts, color) == paint(*old(self), pre.buffer@, rest, color));
                    assert(pts == bres_flat(x1 as int, y1 as int, x2 as int, ix as int, iy as int, dx as int, dy as int, 0));
                    assert(self.buffer@ == paint(*old(self), old(self).buffer@, pts, color));
                }
            } else {
                while y != y2
                    invariant
                        gfx_wf(*self),
                        *self == (Graphics { buffer: self.buffer, ..*old(self) }),
                        dx == (if e.x >= s.x { e.x - s.x } else { s.x - e.x }),
                        dy == (if e.y >= s.y { e.y - s.y } else { s.y - e.y }),
                        dy > dx >= 1,
                        ix == (if s.x < e.x { 1int } else { -1int }),
                        iy == (if s.y < e.y { 1int } else { -1int }),
                        y2 == e.y as int,
                        (iy == 1 && y1 <= y <= y2) || (iy == -1 && y2 <= y <= y1),
                        y1 == s.y as int,
                        x1 == s.x as int,
                        (if x >= x1 { x - x1 } else { x1 - x }) <= (if y >= y1 { y - y1 } else { y1 - y }),
                        -2 * dy <= delta <= dy,
                        paint(*old(self), old(self).buffer@, pts, color) == paint(
                            *old(self),
                            self.buffer@,
                            bres_steep(x as int, y as int, y2 as int, ix as int, iy as int, dx as int, dy as int, delta as int),
                            color,
                        ),
                    decreases
                            (if iy == 1 {
                                y2 - y
                            } else {
                                y - y2
                            }),
                {
                    let ghost pre = *self;
                    let ghost rest = bres_steep(x as int, y as int, y2 as int, ix as int, iy as int, dx as int, dy as int, delta as int);
                    self.update_pixel_wide(x, y, color);
                    proof {
                        assert(rest == seq![(x as int, y as int)] + bres_steep((x + (if delta + 2 * dx > dy { ix } else { 0 })) as int, (y + iy) as int, y2 as int, ix as int, iy as int, dx as int, dy as int, (if delta + 2 * dx > dy { delta + 2 * dx - 2 * dy } else { delta + 2 * dx }) as int));
                        assert(rest[0] == (x as int, y as int));
                        assert(rest.drop_first() =~= bres_steep((x + (if delta + 2 * dx > dy { ix } else { 0 })) as int, (y + iy) as int, y2 as int, ix as int, iy as int, dx as int, dy as int, (if delta + 2 * dx > dy { delta + 2 * dx - 2 * dy } else { delta + 2 * dx }) as int));
                        lemma_upd_buf_config(*old(self), pre, pre.buffer@, x as int, y as int, color);
                    }
                    y = y + iy;
                    delta = delta + 2 * dx;
                    if delta > dy {
                        x = x + ix;
                        delta = delta - 2 * dy;
                    }
                }
                let ghost pre = *self;
                self.update_pixel_wide(x, y, color);
                proof {
                    let rest = bres_steep(x as int, y as int, y2 as int, ix as int, iy as int, dx as int, dy as int, delta as int);
                    assert(rest == seq![(x as int, y as int)]);
                    assert(rest[0] == (x as int, y as int));
                    assert(rest.drop_first() =~= Seq::<(int, int)>::empty());
                    lemma_upd_buf_config(*old(self), pre, pre.buffer@, x as int, y as int, color);
                    assert(self.buffer@ == upd_buf(*old(self), pre.buffer@, x as int, y as int, color));
                    assert(paint(*old(self), pre.buffer@, rest, color) == paint(*old(self), upd_buf(*old(self), pre.buffer@, x as int, y as int, color), rest.drop_first(), color));
                    assert(paint(*old(self), pre.buffer@, rest, color) == self.buffer@);
                    assert(paint(*old(self), old(self).buffer@, pts, color) == paint(*old(self), pre.buffer@, rest, color));
                    assert(pts == bres_steep(x1 as int, y1 as int, y2 as int, ix as int, iy as int, dx as int, dy as int, 0));
                    assert(self.buffer@ == paint(*old(self), old(self).buffer@, pts, color));
                }
            }
        }
    }
}

/// The last byte of an in-range pixel is inside the buffer.
pub proof fn lemma_pix_byte_bound(w: int, h: int, x: int, y: int)
    requires
        0 <= x < w,
        0 <= y < h,
    ensures
        0 <= 4 * (x + y * w),
        4 * (x + y * w) + 3 < w * h * 4,
        (x + y * w) * 4 == 4 * (x + y * w),
        x + y * w < w * h,
        y * w <= (h - 1) * w,
{
    assert(0 <= 4 * (x + y * w) && 4 * (x + y * w) + 3 < w * h * 4 && (x + y * w) * 4 == 4 * (x + y
        * w) && x + y * w < w * h && y * w <= (h - 1) * w) by (nonlinear_arith)
        requires
            0 <= x < w && 0 <= y < h,
    ;
}

/// Law: a write with alpha 0 never changes the buffer.
pub proof fn lemma_alpha_zero_no_op(g: Graphics, buf: Seq<u8>, x: int, y: int, c: Color)
    requires
        c.a == 0,
    ensures
        upd_buf(g, buf, x, y, c) == buf,
{
}

/// Law: a write with alpha 255 that lands on the surface and passes the
/// clip fully overwrites the destination pixel with the new color.
pub proof fn lemma_alpha_opaque_overwrites(g: Graphics, buf: Seq<u8>, x: int, y: int, c: Color)
    requires
        c.a == 255,
        buf.len() == g.width * g.height * 4,
        0 <= x + g.translate.x < g.width,
        0 <= y + g.translate.y < g.height,
        clip_valid(g.clip, x + g.translate.x, y + g.translate.y),
    ensures
        pixel_color_at(
            upd_buf(g, buf, x, y, c),
            g.width as int,
            x + g.translate.x,
            y + g.translate.y,
        ) == c,
{
    let tx = x + g.translate.x;
    let ty = y + g.translate.y;
    lemma_pix_byte_bound(g.width as int, g.height as int, tx, ty);
}

/// Law: any other alpha composites the new color over the stored pixel
/// with the exact integer "over" formula.
pub proof fn lemma_alpha_blends(g: Graphics, buf: Seq<u8>, x: int, y: int, c: Color)
    requires
        c.a != 0 && c.a != 255,
        buf.len() == g.width * g.height * 4,
        0 <= x + g.translate.x < g.width,
        0 <= y + g.translate.y < g.height,
        clip_valid(g.clip, x + g.translate.x, y + g.translate.y),
    ensures
        pixel_color_at(
            upd_buf(g, buf, x, y, c),
            g.width as int,
            x + g.translate.x,
            y + g.translate.y,
        ) == spec_blend(pixel_color_at(buf, g.width as int, x + g.translate.x, y + g.translate.y), c),
    decreases 0int,
{
    let tx = x + g.translate.x;
    let ty = y + g.translate.y;
    lemma_pix_byte_bound(g.width as int, g.height as int, tx, ty);
}

/// Law: translate invariance.  Drawing at `(x, y)` on a surface translated
/// by `t` writes the same buffer as drawing at `(x + t.x, y + t.y)` on the
/// same surface with no translation.
pub proof fn lemma_translate_invariance(g: Graphics, buf: Seq<u8>, x: int, y: int, c: Color)
    ensures
        upd_buf(g, buf, x, y, c) == upd_buf(
            Graphics { translate: Coord { x: 0, y: 0 }, ..g },
            buf,
            x + g.translate.x,
            y + g.translate.y,
            c,
        ),
{
}

} // verus!

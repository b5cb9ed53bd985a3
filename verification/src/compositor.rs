//! Moving pixels between surfaces and images.
//!
//! Blitting an image iterates its pixels through the pixel pipeline, so
//! translation, clipping and compositing all apply; exporting copies the
//! surface bytes out as colors.

use crate::color::Color;
use crate::coord::Coord;
use crate::drawing::Graphics;
use crate::drawing::gfx_wf;
use crate::drawing::paint;
use crate::drawing::pixel_flat;
use crate::drawing::row_pts;
use crate::drawing::upd_buf;
use crate::drawing::lemma_upd_buf_config;
use crate::image::Image;
use crate::image::image_wf;
use vstd::prelude::*;

verus! {

/// The buffer after blitting image pixels from index `k` on, walking the
/// image row-major with top-left corner at `(ox, oy)`.
pub open spec fn blit_buf(
    g: Graphics,
    buf: Seq<u8>,
    pix: Seq<Color>,
    iw: int,
    ox: int,
    oy: int,
    x: int,
    y: int,
    k: int,
) -> Seq<u8>
    decreases pix.len() - k,
    when 0 <= k <= pix.len()
{
    if k >= pix.len() {
        buf
    } else {
        let b2 = upd_buf(g, buf, ox + x, oy + y, pix[k]);
        if x + 1 >= iw {
            blit_buf(g, b2, pix, iw, ox, oy, 0, y + 1, k + 1)
        } else {
            blit_buf(g, b2, pix, iw, ox, oy, x + 1, y, k + 1)
        }
    }
}

/// The whole surface, row-major, from row `y` down.
pub open spec fn grid_rows(w: int, h: int, y: int) -> Seq<(int, int)>
    decreases h - y,
    when y <= h
{
    if y >= h {
        Seq::empty()
    } else {
        row_pts(y, 0, w - 1) + grid_rows(w, h, y + 1)
    }
}

impl Graphics {
    /// Copy the whole surface out as an image.
    pub fn copy_to_image(&self) -> (r: Image)
        requires
            gfx_wf(*self),
        ensures
            image_wf(r),
            r.width == self.width,
            r.height == self.height,
            r.pixels@.len() == self.width * self.height,
            forall|j: int|
                0 <= j < r.pixels@.len() ==> r.pixels@[j] == #[trigger] pixel_flat(
                    self.buffer@,
                    j,
                ),
    {
        proof {
            assert(self.width * self.height <= self.width * self.height * 4) by (nonlinear_arith);
        }
        let n: usize = self.width * self.height;
        let mut pixels: Vec<Color> = Vec::new();
        let mut j: usize = 0;
        while j < n
            invariant
                j <= n,
                gfx_wf(*self),
                n == self.width * self.height,
                pixels@.len() == j,
                forall|i: int| 0 <= i < j ==> pixels@[i] == #[trigger] pixel_flat(self.buffer@, i),
            decreases n - j,
        {
            proof {
                assert(4 * (j as int) + 3 < self.width * self.height * 4) by (nonlinear_arith)
                    requires
                        j < self.width * self.height,
                ;
                assert((j as int) * 4 == 4 * (j as int));
            }
            let base = j * 4;
            pixels.push(
                Color {
                    r: self.buffer[base],
                    g: self.buffer[base + 1],
                    b: self.buffer[base + 2],
                    a: self.buffer[base + 3],
                },
            );
            j += 1;
        }
        let r = match Image::new(pixels, self.width, self.height) {
            Ok(img) => img,
            Err(_) => {
                proof {
                    assert(false);
                }
                Image::new_blank(0, 0)
            },
        };
        r
    }

    /// Blit `image` with its top-left corner at `xy`: every image pixel
    /// goes through the pixel pipeline in row-major order, so translation,
    /// clipping and alpha compositing all apply.
    pub fn draw_image(&mut self, xy: Coord, image: &Image)
        requires
            gfx_wf(*old(self)),
            image_wf(*image),
        ensures
            gfx_wf(*final(self)),
            *final(self) == (Graphics { buffer: final(self).buffer, ..*old(self) }),
            final(self).buffer@ == blit_buf(
                *old(self),
                old(self).buffer@,
                image.pixels@,
                image.width as int,
                xy.x as int,
                xy.y as int,
                0,
                0,
                0,
            ),
    {
        let n = image.pixels.len();
        let iw = image.width;
        let ox: i128 = xy.x as i128;
        let oy: i128 = xy.y as i128;
        let mut x: usize = 0;
        let mut y: usize = 0;
        let mut k: usize = 0;
        while k < n
            invariant
                k <= n,
                n == image.pixels@.len(),
                iw == image.width,
                ox == xy.x as int,
                oy == xy.y as int,
                x <= k,
                y <= k,
                gfx_wf(*self),
                *self == (Graphics { buffer: self.buffer, ..*old(self) }),
                blit_buf(
                    *old(self),
                    old(self).buffer@,
                    image.pixels@,
                    iw as int,
                    ox as int,
                    oy as int,
                    0,
                    0,
                    0,
                ) == blit_buf(
                    *old(self),
                    self.buffer@,
                    image.pixels@,
                    iw as int,
                    ox as int,
                    oy as int,
                    x as int,
                    y as int,
                    k as int,
                ),
            decreases n - k,
        {
            let px = image.pixels[k];
            let ghost pre = *self;
            self.update_pixel_wide(ox + x as i128, oy + y as i128, px);
            proof {
                lemma_upd_buf_config(
                    *old(self),
                    pre,
                    pre.buffer@,
                    ox + x as int,
                    oy + y as int,
                    px,
                );
            }
            x += 1;
            if x >= iw {
                x = 0;
                y += 1;
            }
            k += 1;
        }
    }

    /// Set or blend every pixel of the surface with `color`, row-major,
    /// through the pixel pipeline (so translation and clipping apply,
    /// unlike `clear`).
    pub fn clear_aware(&mut self, color: Color)
        requires
            gfx_wf(*old(self)),
        ensures
            gfx_wf(*final(self)),
            *final(self) == (Graphics { buffer: final(self).buffer, ..*old(self) }),
            final(self).buffer@ == paint(
                *old(self),
                old(self).buffer@,
                grid_rows(old(self).width as int, old(self).height as int, 0),
                color,
            ),
    {
        let w = self.width;
        let h = self.height;
        let ghost full = grid_rows(w as int, h as int, 0);
        let mut y: usize = 0;
        while y < h
            invariant
                y <= h,
                w == self.width,
                h == self.height,
                gfx_wf(*self),
                *self == (Graphics { buffer: self.buffer, ..*old(self) }),
                paint(*old(self), old(self).buffer@, full, color) == paint(
                    *old(self),
                    self.buffer@,
                    grid_rows(w as int, h as int, y as int),
                    color,
                ),
            decreases h - y,
        {
            let mut x: usize = 0;
            proof {
                assert(grid_rows(w as int, h as int, y as int) == row_pts(y as int, 0, w - 1)
                    + grid_rows(w as int, h as int, y as int + 1));
            }
            while x < w
                invariant
                    y < h,
                    x <= w,
                    w == self.width,
                    h == self.height,
                    gfx_wf(*self),
                    *self == (Graphics { buffer: self.buffer, ..*old(self) }),
                    paint(*old(self), old(self).buffer@, full, color) == paint(
                        *old(self),
                        self.buffer@,
                        row_pts(y as int, x as int, w - 1) + grid_rows(
                            w as int,
                            h as int,
                            y as int + 1,
                        ),
                        color,
                    ),
                decreases w - x,
            {
                let ghost pre = *self;
                self.set_pixel(x as isize, y as isize, color);
                proof {
                    let rest = row_pts(y as int, x as int, w - 1) + grid_rows(
                        w as int,
                        h as int,
                        y as int + 1,
                    );
                    assert(row_pts(y as int, x as int, w - 1).len() == w - x);
                    assert(rest[0] == (x as int, y as int));
                    assert(rest.drop_first() =~= row_pts(y as int, x as int + 1, w - 1)
                        + grid_rows(w as int, h as int, y as int + 1));
                    lemma_upd_buf_config(*old(self), pre, pre.buffer@, x as int, y as int, color);
                }
                x += 1;
            }
            proof {
                assert(row_pts(y as int, x as int, w - 1).len() == 0);
                assert(row_pts(y as int, x as int, w - 1) + grid_rows(
                    w as int,
                    h as int,
                    y as int + 1,
                ) =~= grid_rows(w as int, h as int, y as int + 1));
            }
            y += 1;
        }
        proof {
            assert(grid_rows(w as int, h as int, y as int) =~= Seq::<(int, int)>::empty());
        }
    }
}

} // verus!

//! In-memory images: rectangles of pixels that can be edited, combined and
//! drawn onto a surface.

use crate::color::Color;
use crate::color::spec_blend;
use crate::drawing::GraphicsError;
use vstd::prelude::*;

verus! {

/// How an image is scaled: nearest-neighbour by integer factors, or the
/// EPX pixel-art doubler (once or twice).
#[derive(Copy, Clone, Debug, PartialEq, Eq, Structural)]
pub enum Scaling {
    NearestNeighbour { x_scale: usize, y_scale: usize },
    Epx2x,
    Epx4x,
}

impl Scaling {
    /// Nearest-neighbour by the given factors; zero factors count as one.
    pub fn nearest_neighbour(x_scale: usize, y_scale: usize) -> (r: Scaling)
        ensures
            r == (Scaling::NearestNeighbour {
                x_scale: (if x_scale == 0 {
                    1usize
                } else {
                    x_scale
                }),
                y_scale: (if y_scale == 0 {
                    1usize
                } else {
                    y_scale
                }),
            }),
    {
        Scaling::NearestNeighbour {
            x_scale: if x_scale == 0 {
                1
            } else {
                x_scale
            },
            y_scale: if y_scale == 0 {
                1
            } else {
                y_scale
            },
        }
    }

    /// Nearest-neighbour doubling.
    pub fn nn_double() -> (r: Scaling)
        ensures
            r == (Scaling::NearestNeighbour { x_scale: 2usize, y_scale: 2usize }),
    {
        Scaling::NearestNeighbour { x_scale: 2, y_scale: 2 }
    }
}

/// A rectangle of pixels.
pub struct Image {
    pub pixels: Vec<Color>,
    pub width: usize,
    pub height: usize,
    pub is_transparent: bool,
}

/// Well-formedness: the pixel array covers the image exactly, and the
/// transparency flag reflects the pixels.
pub open spec fn image_wf(img: Image) -> bool {
    &&& img.pixels@.len() == img.width * img.height
    &&& img.width * img.height <= usize::MAX
    &&& img.height * img.width <= usize::MAX
    &&& img.is_transparent == exists|i: int| 0 <= i < img.pixels@.len() && img.pixels@[i].a == 0
}

/// True when any pixel of `s` is fully transparent.
pub open spec fn any_transparent(s: Seq<Color>) -> bool {
    exists|i: int| 0 <= i < s.len() && s[i].a == 0
}

fn scan_transparent(pixels: &Vec<Color>) -> (r: bool)
    ensures
        r == any_transparent(pixels@),
{
    let mut i: usize = 0;
    while i < pixels.len()
        invariant
            i <= pixels@.len(),
            forall|j: int| 0 <= j < i ==> pixels@[j].a != 0,
        decreases pixels@.len() - i,
    {
        if pixels[i].a == 0 {
            return true;
        }
        i += 1;
    }
    false
}

impl Image {
    /// Build an image from its pixel array.  Succeeds exactly when the
    /// array length is `width * height`.
    pub fn new(pixels: Vec<Color>, width: usize, height: usize) -> (r: Result<
        Image,
        GraphicsError,
    >)
        requires
            width * height <= usize::MAX,
        ensures
            r is Ok <==> pixels@.len() == width * height,
            r is Ok ==> {
                &&& image_wf(r->Ok_0)
                &&& r->Ok_0.pixels == pixels
                &&& r->Ok_0.width == width
                &&& r->Ok_0.height == height
            },
            r is Err ==> r->Err_0 == GraphicsError::ImageInitSize(
                (width * height) as usize,
                pixels@.len() as usize,
            ),
    {
        proof {
            assert(width * height == height * width) by (nonlinear_arith);
        }
        let count: usize = width * height;
        if count != pixels.len() {
            return Err(GraphicsError::ImageInitSize(count, pixels.len()));
        }
        let is_transparent = scan_transparent(&pixels);
        Ok(Image { pixels, width, height, is_transparent })
    }

    /// A white, fully opaque image.
    pub fn new_blank(width: usize, height: usize) -> (r: Image)
        requires
            width * height <= usize::MAX,
        ensures
            image_wf(r),
            r.width == width,
            r.height == height,
            r.pixels@.len() == width * height,
            forall|i: int|
                0 <= i < r.pixels@.len() ==> r.pixels@[i] == (Color {
                    r: 255u8,
                    g: 255u8,
                    b: 255u8,
                    a: 255u8,
                }),
    {
        proof {
            assert(width * height == height * width) by (nonlinear_arith);
        }
        let n: usize = width * height;
        let mut pixels: Vec<Color> = Vec::new();
        let mut i: usize = 0;
        while i < n
            invariant
                i <= n,
                pixels@.len() == i,
                forall|j: int|
                    0 <= j < i ==> pixels@[j] == (Color { r: 255u8, g: 255u8, b: 255u8, a: 255u8 }),
            decreases n - i,
        {
            pixels.push(Color { r: 255, g: 255, b: 255, a: 255 });
            i += 1;
        }
        Image { pixels, width, height, is_transparent: false }
    }

    #[inline]
    pub fn width(&self) -> (r: usize)
        ensures
            r == self.width,
    {
        self.width
    }

    #[inline]
    pub fn height(&self) -> (r: usize)
        ensures
            r == self.height,
    {
        self.height
    }

    /// True when any pixel is fully transparent (kept up to date by every
    /// edit).
    #[inline]
    pub fn is_transparent(&self) -> (r: bool)
        ensures
            r == self.is_transparent,
    {
        self.is_transparent
    }

    /// A copy of the pixel array.
    pub fn pixels(&self) -> (r: Vec<Color>)
        ensures
            r@ == self.pixels@,
    {
        let mut out: Vec<Color> = Vec::new();
        let mut i: usize = 0;
        while i < self.pixels.len()
            invariant
                i <= self.pixels@.len(),
                out@.len() == i,
                forall|j: int| 0 <= j < i ==> out@[j] == self.pixels@[j],
            decreases self.pixels@.len() - i,
        {
            out.push(self.pixels[i]);
            i += 1;
        }
        proof {
            assert(out@ =~= self.pixels@);
        }
        out
    }

    /// The pixel at `(x, y)`.
    #[inline]
    pub fn get_pixel(&self, x: usize, y: usize) -> (r: Color)
        requires
            image_wf(*self),
            x < self.width,
            y < self.height,
        ensures
            r == self.pixels@[x + y * self.width],
    {
        proof {
            crate::clipping::lemma_grid_index_bound(
                self.width as int,
                self.height as int,
                x as int,
                y as int,
            );
        }
        self.pixels[x + y * self.width]
    }

    /// Replace the pixel at `(x, y)`, keeping the transparency flag exact.
    pub fn set_pixel(&mut self, x: usize, y: usize, value: Color)
        requires
            image_wf(*old(self)),
            x < old(self).width,
            y < old(self).height,
        ensures
            image_wf(*final(self)),
            final(self).width == old(self).width,
            final(self).height == old(self).height,
            final(self).pixels@ == old(self).pixels@.update(x + y * old(self).width, value),
    {
        proof {
            crate::clipping::lemma_grid_index_bound(
                self.width as int,
                self.height as int,
                x as int,
                y as int,
            );
        }
        let i = x + y * self.width;
        self.pixels.set(i, value);
        let t = scan_transparent(&self.pixels);
        self.is_transparent = t;
    }

    /// Composite `value` over the pixel at `(x, y)` with the "over"
    /// operator.
    pub fn blend_pixel(&mut self, x: usize, y: usize, value: Color)
        requires
            image_wf(*old(self)),
            x < old(self).width,
            y < old(self).height,
        ensures
            image_wf(*final(self)),
            final(self).width == old(self).width,
            final(self).height == old(self).height,
            final(self).pixels@ == old(self).pixels@.update(
                x + y * old(self).width,
                spec_blend(old(self).pixels@[x + y * old(self).width], value),
            ),
    {
        let dst = self.get_pixel(x, y);
        let new_color = dst.blend(value);
        self.set_pixel(x, y, new_color);
    }

    /// The image rotated a quarter turn clockwise: destination `(dx, dy)`
    /// holds source pixel `(dy, h - 1 - dx)`.
    pub fn rotate_cw(&self) -> (r: Image)
        requires
            image_wf(*self),
        ensures
            image_wf(r),
            r.width == self.height,
            r.height == self.width,
            forall|dx: int, dy: int|
                0 <= dx < self.height && 0 <= dy < self.width
                    ==> r.pixels@[#[trigger] crate::clipping::pix_idx(self.height as int, dx, dy)]
                    == self.pixels@[dy + (self.height - 1 - dx) * self.width],
    {
        let h = self.height;
        let w = self.width;
        let mut out = Image::new_blank(h, w);
        let mut y: usize = 0;
        while y < h
            invariant
                y <= h,
                h == self.height,
                w == self.width,
                image_wf(*self),
                image_wf(out),
                out.width == h,
                out.height == w,
                forall|dx: int, dy: int|
                    0 <= dx < h && 0 <= dy < w && h - 1 - dx < y
                        ==> out.pixels@[#[trigger] crate::clipping::pix_idx(h as int, dx, dy)]
                        == self.pixels@[dy + (h - 1 - dx) * w],
            decreases h - y,
        {
            let mut x: usize = 0;
            while x < w
                invariant
                    y < h,
                    x <= w,
                    h == self.height,
                    w == self.width,
                    image_wf(*self),
                    image_wf(out),
                    out.width == h,
                    out.height == w,
                    forall|dx: int, dy: int|
                        0 <= dx < h && 0 <= dy < w && (h - 1 - dx < y || (h - 1 - dx == y && dy
                            < x)) ==> out.pixels@[#[trigger] crate::clipping::pix_idx(
                            h as int,
                            dx,
                            dy,
                        )] == self.pixels@[dy + (h - 1 - dx) * w],
                decreases w - x,
            {
                let ghost pre = out.pixels@;
                let px = self.get_pixel(x, y);
                out.set_pixel(h - 1 - y, x, px);
                proof {
                    let tgt = crate::clipping::pix_idx(h as int, h - 1 - y, x as int);
                    crate::clipping::lemma_grid_index_bound(h as int, w as int, h - 1 - y, x as int);
                    assert forall|dx: int, dy: int|
                        0 <= dx < h && 0 <= dy < w && (h - 1 - dx < y || (h - 1 - dx == y && dy < x
                            + 1)) implies out.pixels@[#[trigger] crate::clipping::pix_idx(
                        h as int,
                        dx,
                        dy,
                    )] == self.pixels@[dy + (h - 1 - dx) * w] by {
                        crate::clipping::lemma_grid_index_bound(h as int, w as int, dx, dy);
                        if dx == h - 1 - y && dy == x {
                            assert(crate::clipping::pix_idx(h as int, dx, dy) == tgt);
                        } else {
                            if crate::clipping::pix_idx(h as int, dx, dy) == tgt {
                                crate::clipping::lemma_grid_index_injective(
                                    h as int,
                                    h - 1 - y,
                                    x as int,
                                    dx,
                                    dy,
                                );
                            }
                            assert(out.pixels@[crate::clipping::pix_idx(h as int, dx, dy)]
                                == pre[crate::clipping::pix_idx(h as int, dx, dy)]);
                        }
                    }
                }
                x += 1;
            }
            y += 1;
        }
        out
    }

    /// The image rotated a quarter turn counterclockwise: destination
    /// `(dx, dy)` holds source pixel `(w - 1 - dy, dx)`.
    pub fn rotate_ccw(&self) -> (r: Image)
        requires
            image_wf(*self),
        ensures
            image_wf(r),
            r.width == self.height,
            r.height == self.width,
            forall|dx: int, dy: int|
                0 <= dx < self.height && 0 <= dy < self.width
                    ==> r.pixels@[#[trigger] crate::clipping::pix_idx(self.height as int, dx, dy)]
                    == self.pixels@[(self.width - 1 - dy) + dx * self.width],
    {
        let h = self.height;
        let w = self.width;
        let mut out = Image::new_blank(h, w);
        let mut y: usize = 0;
        while y < h
            invariant
                y <= h,
                h == self.height,
                w == self.width,
                image_wf(*self),
                image_wf(out),
                out.width == h,
                out.height == w,
                forall|dx: int, dy: int|
                    0 <= dx < h && 0 <= dy < w && dx < y
                        ==> out.pixels@[#[trigger] crate::clipping::pix_idx(h as int, dx, dy)]
                        == self.pixels@[(w - 1 - dy) + dx * w],
            decreases h - y,
        {
            let mut x: usize = 0;
            while x < w
                invariant
                    y < h,
                    x <= w,
                    h == self.height,
                    w == self.width,
                    image_wf(*self),
                    image_wf(out),
                    out.width == h,
                    out.height == w,
                    forall|dx: int, dy: int|
                        0 <= dx < h && 0 <= dy < w && (dx < y || (dx == y && w - 1 - dy < x))
                            ==> out.pixels@[#[trigger] crate::clipping::pix_idx(h as int, dx, dy)]
                            == self.pixels@[(w - 1 - dy) + dx * w],
                decreases w - x,
            {
                let ghost pre = out.pixels@;
                let px = self.get_pixel(x, y);
                out.set_pixel(y, w - 1 - x, px);
                proof {
                    let tgt = crate::clipping::pix_idx(h as int, y as int, w - 1 - x);
                    crate::clipping::lemma_grid_index_bound(h as int, w as int, y as int, w - 1 - x);
                    assert forall|dx: int, dy: int|
                        0 <= dx < h && 0 <= dy < w && (dx < y || (dx == y && w - 1 - dy < x + 1))
                            implies out.pixels@[#[trigger] crate::clipping::pix_idx(
                        h as int,
                        dx,
                        dy,
                    )] == self.pixels@[(w - 1 - dy) + dx * w] by {
                        crate::clipping::lemma_grid_index_bound(h as int, w as int, dx, dy);
                        if dx == y && dy == w - 1 - x {
                            assert(crate::clipping::pix_idx(h as int, dx, dy) == tgt);
                        } else {
                            if crate::clipping::pix_idx(h as int, dx, dy) == tgt {
                                crate::clipping::lemma_grid_index_injective(
                                    h as int,
                                    y as int,
                                    w - 1 - x,
                                    dx,
                                    dy,
                                );
                            }
                            assert(out.pixels@[crate::clipping::pix_idx(h as int, dx, dy)]
                                == pre[crate::clipping::pix_idx(h as int, dx, dy)]);
                        }
                    }
                }
                x += 1;
            }
            y += 1;
        }
        out
    }

    /// Composite `other` over this image pixel by pixel.  Fails, changing
    /// nothing, when the sizes differ.
    pub fn blend(&mut self, other: &Image) -> (r: Result<(), GraphicsError>)
        requires
            image_wf(*old(self)),
            image_wf(*other),
        ensures
            image_wf(*final(self)),
            final(self).width == old(self).width,
            final(self).height == old(self).height,
            r is Ok <==> (old(self).width == other.width && old(self).height == other.height),
            r is Err ==> *final(self) == *old(self) && r->Err_0 == GraphicsError::ImageBlendSize(
                old(self).width as usize,
                old(self).height as usize,
                other.width as usize,
                other.height as usize,
            ),
            r is Ok ==> final(self).pixels@.len() == old(self).pixels@.len() && forall|i: int|
                0 <= i < old(self).pixels@.len() ==> final(self).pixels@[i] == spec_blend(
                    old(self).pixels@[i],
                    other.pixels@[i],
                ),
    {
        if self.width != other.width || self.height != other.height {
            return Err(
                GraphicsError::ImageBlendSize(self.width, self.height, other.width, other.height),
            );
        }
        let n = self.pixels.len();
        let mut i: usize = 0;
        while i < n
            invariant
                i <= n,
                n == old(self).pixels@.len(),
                self.pixels@.len() == n,
                self.width == old(self).width,
                self.height == old(self).height,
                other.pixels@.len() == n,
                forall|j: int|
                    i <= j < n ==> self.pixels@[j] == old(self).pixels@[j],
                forall|j: int|
                    0 <= j < i ==> self.pixels@[j] == spec_blend(
                        old(self).pixels@[j],
                        other.pixels@[j],
                    ),
            decreases n - i,
        {
            let blended = self.pixels[i].blend(other.pixels[i]);
            self.pixels.set(i, blended);
            i += 1;
        }
        let t = scan_transparent(&self.pixels);
        self.is_transparent = t;
        Ok(())
    }

    /// A new image scaled by the chosen algorithm.
    pub fn scale(&self, algo: Scaling) -> (r: Image)
        requires
            image_wf(*self),
            algo matches Scaling::NearestNeighbour { x_scale, y_scale } ==> {
                let xs = if x_scale == 0 { 1int } else { x_scale as int };
                let ys = if y_scale == 0 { 1int } else { y_scale as int };
                self.width * xs <= usize::MAX && self.height * ys <= usize::MAX && self.width * xs
                    * (self.height * ys) <= usize::MAX
            },
            !(algo is NearestNeighbour) ==> self.width * 4 <= usize::MAX && self.height * 4
                <= usize::MAX && self.width * 4 * (self.height * 4) <= usize::MAX,
        ensures
            image_wf(r),
            algo matches Scaling::NearestNeighbour { x_scale, y_scale } ==> {
                let xs = if x_scale == 0 {
                    1int
                } else {
                    x_scale as int
                };
                let ys = if y_scale == 0 {
                    1int
                } else {
                    y_scale as int
                };
                r.width == self.width * xs && r.height == self.height * ys && (forall|
                    x: int,
                    y: int,
                |
                    0 <= x < r.width && 0 <= y < r.height
                        ==> r.pixels@[#[trigger] crate::clipping::pix_idx(r.width as int, x, y)]
                        == self.pixels@[(x / xs) + (y / ys) * self.width])
            },
            algo is Epx2x ==> r.width == self.width * 2 && r.height == self.height * 2 && (forall|
                x: int,
                y: int,
                corner: int,
            |
                0 <= x < self.width && 0 <= y < self.height && 0 <= corner < 4
                    ==> r.pixels@[#[trigger] crate::clipping::pix_idx(
                    self.width * 2,
                    epx_px(x, corner),
                    epx_py(y, corner),
                )] == epx_cell(*self, x, y, corner)),
            algo is Epx4x ==> r.width == self.width * 4 && r.height == self.height * 4 && (exists|
                mid: Image,
            |
                image_wf(mid) && (#[trigger] mid.width) == self.width * 2 && mid.height
                    == self.height * 2 && (forall|x: int, y: int, corner: int|
                    0 <= x < self.width && 0 <= y < self.height && 0 <= corner < 4
                        ==> mid.pixels@[#[trigger] crate::clipping::pix_idx(
                        self.width * 2,
                        epx_px(x, corner),
                        epx_py(y, corner),
                    )] == epx_cell(*self, x, y, corner)) && (forall|x: int, y: int, corner: int|
                    0 <= x < mid.width && 0 <= y < mid.height && 0 <= corner < 4
                        ==> r.pixels@[#[trigger] crate::clipping::pix_idx(
                        mid.width * 2,
                        epx_px(x, corner),
                        epx_py(y, corner),
                    )] == epx_cell(mid, x, y, corner))),
    {
        match algo {
            Scaling::NearestNeighbour { x_scale, y_scale } => {
                let xs = if x_scale == 0 {
                    1
                } else {
                    x_scale
                };
                let ys = if y_scale == 0 {
                    1
                } else {
                    y_scale
                };
                scale_nearest_neighbor(self, xs, ys)
            },
            Scaling::Epx2x => {
                proof {
                    assert(self.width * 2 <= self.width * 4 && self.height * 2 <= self.height * 4
                        && self.width * 2 * (self.height * 2) <= self.width * 4 * (self.height
                        * 4)) by (nonlinear_arith);
                }
                scale_epx(self)
            },
            Scaling::Epx4x => {
                proof {
                    assert(self.width * 2 <= self.width * 4 && self.height * 2 <= self.height * 4
                        && self.width * 2 * (self.height * 2) <= self.width * 4 * (self.height
                        * 4)) by (nonlinear_arith);
                }
                let once = scale_epx(self);
                proof {
                    assert(self.width * 2 * (self.height * 2) <= self.width * 4 * (self.height
                        * 4)) by (nonlinear_arith);
                    assert(self.width * 2 * 2 == self.width * 4 && self.height * 2 * 2
                        == self.height * 4) by (nonlinear_arith);
                }
                let twice = scale_epx(&once);
                proof {
                    assert(image_wf(once) && once.width == self.width * 2 && once.height
                        == self.height * 2);
                }
                twice
            },
        }
    }
}

/// Nearest-neighbour scaling: destination pixel `(x, y)` copies source
/// pixel `(x / xs, y / ys)`.
pub fn scale_nearest_neighbor(image: &Image, x_scale: usize, y_scale: usize) -> (r: Image)
    requires
        image_wf(*image),
        x_scale >= 1,
        y_scale >= 1,
        image.width * x_scale * (image.height * y_scale) <= usize::MAX,
        image.width * x_scale <= usize::MAX,
        image.height * y_scale <= usize::MAX,
    ensures
        image_wf(r),
        r.width == image.width * x_scale,
        r.height == image.height * y_scale,
        forall|x: int, y: int|
            0 <= x < r.width && 0 <= y < r.height ==> r.pixels@[#[trigger] crate::clipping::pix_idx(
                r.width as int,
                x,
                y,
            )] == image.pixels@[(x / x_scale as int) + (y / y_scale as int) * image.width],
{
    let new_width = image.width * x_scale;
    let new_height = image.height * y_scale;
    let mut out = Image::new_blank(new_width, new_height);
    let mut y: usize = 0;
    while y < new_height
        invariant
            y <= new_height,
            image_wf(*image),
            image_wf(out),
            x_scale >= 1,
            y_scale >= 1,
            new_width == image.width * x_scale,
            new_height == image.height * y_scale,
            out.width == new_width,
            out.height == new_height,
            out.pixels@.len() == new_width * new_height,
            forall|xx: int, yy: int|
                0 <= xx < new_width && 0 <= yy < y ==> out.pixels@[#[trigger] crate::clipping::pix_idx(
                    new_width as int,
                    xx,
                    yy,
                )] == image.pixels@[(xx / x_scale as int) + (yy / y_scale as int) * image.width],
        decreases new_height - y,
    {
        let mut x: usize = 0;
        while x < new_width
            invariant
                y < new_height,
                x <= new_width,
                image_wf(*image),
                image_wf(out),
                x_scale >= 1,
                y_scale >= 1,
                new_width == image.width * x_scale,
                new_height == image.height * y_scale,
                out.width == new_width,
                out.height == new_height,
                out.pixels@.len() == new_width * new_height,
                forall|xx: int, yy: int|
                    0 <= xx < new_width && 0 <= yy < new_height && (yy < y || (yy == y && xx < x))
                        ==> out.pixels@[#[trigger] crate::clipping::pix_idx(
                        new_width as int,
                        xx,
                        yy,
                    )] == image.pixels@[(xx / x_scale as int) + (yy / y_scale as int)
                        * image.width],
            decreases new_width - x,
        {
            let px_x = x / x_scale;
            let px_y = y / y_scale;
            proof {
                assert(px_x < image.width && px_y < image.height) by (nonlinear_arith)
                    requires
                        x_scale >= 1 && y_scale >= 1 && x < image.width * x_scale && y
                            < image.height * y_scale && px_x == x as int / x_scale as int && px_y
                            == y as int / y_scale as int,
                ;
            }
            let ghost pre = out.pixels@;
            let px = image.get_pixel(px_x, px_y);
            out.set_pixel(x, y, px);
            proof {
                let tgt = crate::clipping::pix_idx(new_width as int, x as int, y as int);
                crate::clipping::lemma_grid_index_bound(
                    new_width as int,
                    new_height as int,
                    x as int,
                    y as int,
                );
                assert(out.pixels@ == pre.update(tgt, px));
                assert forall|xx: int, yy: int|
                    0 <= xx < new_width && 0 <= yy < new_height && (yy < y || (yy == y && xx < x
                        + 1)) implies out.pixels@[#[trigger] crate::clipping::pix_idx(
                    new_width as int,
                    xx,
                    yy,
                )] == image.pixels@[(xx / x_scale as int) + (yy / y_scale as int)
                    * image.width] by {
                    crate::clipping::lemma_grid_index_bound(
                        new_width as int,
                        new_height as int,
                        xx,
                        yy,
                    );
                    if xx == x && yy == y {
                        assert(crate::clipping::pix_idx(new_width as int, xx, yy) == tgt);
                        assert(out.pixels@[tgt] == px);
                    } else {
                        if crate::clipping::pix_idx(new_width as int, xx, yy) == tgt {
                            crate::clipping::lemma_grid_index_injective(
                                new_width as int,
                                x as int,
                                y as int,
                                xx,
                                yy,
                            );
                        }
                        assert(out.pixels@[crate::clipping::pix_idx(new_width as int, xx, yy)]
                            == pre[crate::clipping::pix_idx(new_width as int, xx, yy)]);
                    }
                }
            }
            x += 1;
        }
        y += 1;
    }
    out
}

/// The destination column of an EPX corner.
pub open spec fn epx_px(x: int, corner: int) -> int {
    2 * x + (if corner == 1 || corner == 3 {
        1int
    } else {
        0int
    })
}

/// The destination row of an EPX corner.
pub open spec fn epx_py(y: int, corner: int) -> int {
    2 * y + (if corner >= 2 {
        1int
    } else {
        0int
    })
}

/// The EPX source pixel a destination cell copies: the neighbours decide
/// whether a corner takes an edge color.
pub open spec fn epx_cell(img: Image, x: int, y: int, corner: int) -> Color {
    let w = img.width as int;
    let h = img.height as int;
    let p = img.pixels@[x + y * w];
    let a = img.pixels@[x + (if y > 0 {
        y - 1
    } else {
        y
    }) * w];
    let c = img.pixels@[(if x > 0 {
        x - 1
    } else {
        x
    }) + y * w];
    let b = img.pixels@[(if x < w - 2 {
        x + 1
    } else {
        x
    }) + y * w];
    let d = img.pixels@[x + (if y < h - 2 {
        y + 1
    } else {
        y
    }) * w];
    if corner == 0 {
        if c == a && c != d && a != b {
            a
        } else {
            p
        }
    } else if corner == 1 {
        if a == b && a != c && b != d {
            b
        } else {
            p
        }
    } else if corner == 2 {
        if d == c && d != b && c != a {
            c
        } else {
            p
        }
    } else {
        if b == d && b != a && d != c {
            d
        } else {
            p
        }
    }
}

/// EPX doubling: each source pixel becomes a 2x2 block whose corners take
/// neighbouring colors when two neighbours agree.
#[verifier::rlimit(100)]
pub fn scale_epx(image: &Image) -> (r: Image)
    requires
        image_wf(*image),
        image.width * 2 <= usize::MAX,
        image.height * 2 <= usize::MAX,
        image.width * 2 * (image.height * 2) <= usize::MAX,
    ensures
        image_wf(r),
        r.width == image.width * 2,
        r.height == image.height * 2,
        forall|x: int, y: int, corner: int|
            0 <= x < image.width && 0 <= y < image.height && 0 <= corner < 4
                ==> r.pixels@[#[trigger] crate::clipping::pix_idx(
                image.width * 2,
                epx_px(x, corner),
                epx_py(y, corner),
            )] == epx_cell(*image, x, y, corner),
{
    let new_width = image.width * 2;
    let new_height = image.height * 2;
    let mut out = Image::new_blank(new_width, new_height);
    let mut x: usize = 0;
    while x < image.width
        invariant
            x <= image.width,
            image_wf(*image),
            image_wf(out),
            new_width == image.width * 2,
            new_height == image.height * 2,
            out.width == new_width,
            out.height == new_height,
            out.pixels@.len() == new_width * new_height,
            forall|xx: int, yy: int, corner: int|
                0 <= xx < image.width && 0 <= yy < image.height && 0 <= corner < 4 && xx < x
                    ==> out.pixels@[#[trigger] crate::clipping::pix_idx(
                    image.width * 2,
                    epx_px(xx, corner),
                    epx_py(yy, corner),
                )] == epx_cell(*image, xx, yy, corner),
        decreases image.width - x,
    {
        let mut y: usize = 0;
        while y < image.height
            invariant
                x < image.width,
                y <= image.height,
                image_wf(*image),
                image_wf(out),
                new_width == image.width * 2,
                new_height == image.height * 2,
                out.width == new_width,
                out.height == new_height,
                out.pixels@.len() == new_width * new_height,
                forall|xx: int, yy: int, corner: int|
                    0 <= xx < image.width && 0 <= yy < image.height && 0 <= corner < 4 && (xx < x
                        || (xx == x && yy < y)) ==> out.pixels@[#[trigger] crate::clipping::pix_idx(
                        image.width * 2,
                        epx_px(xx, corner),
                        epx_py(yy, corner),
                    )] == epx_cell(*image, xx, yy, corner),
            decreases image.height - y,
        {
            let p1 = image.get_pixel(x, y);
            let mut p2 = p1;
            let mut p3 = p1;
            let mut p4 = p1;
            let mut p1v = p1;
            let a = image.get_pixel(x, if y > 0 { y - 1 } else { y });
            let c = image.get_pixel(if x > 0 { x - 1 } else { x }, y);
            let b = image.get_pixel(
                if image.width >= 2 && x < image.width - 2 {
                    x + 1
                } else {
                    x
                },
                y,
            );
            let d = image.get_pixel(
                x,
                if image.height >= 2 && y < image.height - 2 {
                    y + 1
                } else {
                    y
                },
            );
            if c == a && c != d && a != b {
                p1v = a;
            }
            if a == b && a != c && b != d {
                p2 = b;
            }
            if d == c && d != b && c != a {
                p3 = c;
            }
            if b == d && b != a && d != c {
                p4 = d;
            }
            let nx = x * 2;
            let ny = y * 2;
            proof {
                assert(2 * (x as int) + 1 < new_width && 2 * (y as int) + 1 < new_height)
                    by (nonlinear_arith)
                    requires
                        x < image.width && y < image.height && new_width == image.width * 2
                            && new_height == image.height * 2,
                ;
            }
            let ghost pre0 = out.pixels@;
            let ghost i0 = crate::clipping::pix_idx(new_width as int, 2 * (x as int), 2 * (y as int));
            let ghost i1 = crate::clipping::pix_idx(new_width as int, 2 * (x as int) + 1, 2 * (y as int));
            let ghost i2 = crate::clipping::pix_idx(new_width as int, 2 * (x as int), 2 * (y as int) + 1);
            let ghost i3 = crate::clipping::pix_idx(new_width as int, 2 * (x as int) + 1, 2 * (y as int) + 1);
            proof {
                crate::clipping::lemma_grid_index_bound(new_width as int, new_height as int, 2 * (x as int), 2 * (y as int));
                crate::clipping::lemma_grid_index_bound(new_width as int, new_height as int, 2 * (x as int) + 1, 2 * (y as int));
                crate::clipping::lemma_grid_index_bound(new_width as int, new_height as int, 2 * (x as int), 2 * (y as int) + 1);
                crate::clipping::lemma_grid_index_bound(new_width as int, new_height as int, 2 * (x as int) + 1, 2 * (y as int) + 1);
                if i0 == i1 { crate::clipping::lemma_grid_index_injective(new_width as int, 2 * (x as int), 2 * (y as int), 2 * (x as int) + 1, 2 * (y as int)); }
                if i0 == i2 { crate::clipping::lemma_grid_index_injective(new_width as int, 2 * (x as int), 2 * (y as int), 2 * (x as int), 2 * (y as int) + 1); }
                if i0 == i3 { crate::clipping::lemma_grid_index_injective(new_width as int, 2 * (x as int), 2 * (y as int), 2 * (x as int) + 1, 2 * (y as int) + 1); }
                if i1 == i2 { crate::clipping::lemma_grid_index_injective(new_width as int, 2 * (x as int) + 1, 2 * (y as int), 2 * (x as int), 2 * (y as int) + 1); }
                if i1 == i3 { crate::clipping::lemma_grid_index_injective(new_width as int, 2 * (x as int) + 1, 2 * (y as int), 2 * (x as int) + 1, 2 * (y as int) + 1); }
                if i2 == i3 { crate::clipping::lemma_grid_index_injective(new_width as int, 2 * (x as int), 2 * (y as int) + 1, 2 * (x as int) + 1, 2 * (y as int) + 1); }
            }
            out.set_pixel(nx, ny, p1v);
            out.set_pixel(nx + 1, ny, p2);
            out.set_pixel(nx, ny + 1, p3);
            out.set_pixel(nx + 1, ny + 1, p4);
            proof {
                assert(out.pixels@ == pre0.update(i0, p1v).update(i1, p2).update(i2, p3).update(i3, p4));
                assert(out.pixels@[i0] == p1v && out.pixels@[i1] == p2 && out.pixels@[i2] == p3 && out.pixels@[i3] == p4);
                assert forall|xx: int, yy: int, corner: int|
                    0 <= xx < image.width && 0 <= yy < image.height && 0 <= corner < 4 && (xx < x
                        || (xx == x && yy < y + 1)) implies out.pixels@[#[trigger] crate::clipping::pix_idx(
                    image.width * 2,
                    epx_px(xx, corner),
                    epx_py(yy, corner),
                )] == epx_cell(*image, xx, yy, corner) by {
                    let px = epx_px(xx, corner);
                    let py = epx_py(yy, corner);
                    assert(px < new_width && py < new_height) by (nonlinear_arith)
                        requires
                            0 <= xx < image.width && 0 <= yy < image.height && new_width
                                == image.width * 2 && new_height == image.height * 2 && px <= 2
                                * xx + 1 && py <= 2 * yy + 1 && px >= 0 && py >= 0,
                    ;
                    crate::clipping::lemma_grid_index_bound(new_width as int, new_height as int, px, py);
                    if xx == x && yy == y {
                        assert(px == 2 * x || px == 2 * x + 1);
                        assert(py == 2 * y || py == 2 * y + 1);
                        if corner == 0 {
                            assert(crate::clipping::pix_idx(new_width as int, px, py) == i0);
                        } else if corner == 1 {
                            assert(crate::clipping::pix_idx(new_width as int, px, py) == i1);
                        } else if corner == 2 {
                            assert(crate::clipping::pix_idx(new_width as int, px, py) == i2);
                        } else {
                            assert(crate::clipping::pix_idx(new_width as int, px, py) == i3);
                        }
                    } else {
                        let pidx = crate::clipping::pix_idx(new_width as int, px, py);
                        if pidx == i0 {
                            crate::clipping::lemma_grid_index_injective(new_width as int, 2 * (x as int), 2 * (y as int), px, py);
                        }
                        if pidx == i1 {
                            crate::clipping::lemma_grid_index_injective(new_width as int, 2 * (x as int) + 1, 2 * (y as int), px, py);
                        }
                        if pidx == i2 {
                            crate::clipping::lemma_grid_index_injective(new_width as int, 2 * (x as int), 2 * (y as int) + 1, px, py);
                        }
                        if pidx == i3 {
                            crate::clipping::lemma_grid_index_injective(new_width as int, 2 * (x as int) + 1, 2 * (y as int) + 1, px, py);
                        }
                        assert(out.pixels@[pidx] == pre0[pidx]);
                    }
                }
            }
            y += 1;
        }
        x += 1;
    }
    out
}

} // verus!

//! The clip region: a per-pixel validity predicate over the surface.
//!
//! A clip has four modes.  `Nothing` accepts every pixel; `Simple` accepts
//! the pixels inside one shape; `Complex` applies an ordered list of add and
//! remove shapes, the last shape touching a pixel deciding its validity, and
//! caches the result as a boolean mask; `Custom` uses a caller-supplied
//! mask directly.  Querying a `Complex` clip whose mask has not been built
//! fails open: the pixel is treated as valid rather than dropped.

use crate::shapes::Circle;
use crate::shapes::Rect;
use crate::shapes::circle_contains_spec;
use crate::shapes::rect_contains_inclusive;
use vstd::prelude::*;

verus! {

/// One shape usable for clipping.
#[derive(Clone, Debug)]
pub enum ClipShape {
    Box(Rect),
    Round(Circle),
}

/// What a clip shape contains, over mathematical integers.
pub open spec fn shape_contains(s: ClipShape, x: int, y: int) -> bool {
    match s {
        ClipShape::Box(r) => rect_contains_inclusive(r.start, r.end, x, y),
        ClipShape::Round(c) => circle_contains_spec(c.center, c.radius as int, x, y),
    }
}

impl ClipShape {
    pub fn contains(&self, xy: (isize, isize)) -> (r: bool)
        ensures
            r == shape_contains(*self, xy.0 as int, xy.1 as int),
    {
        match self {
            ClipShape::Box(rect) => rect.contains(xy.0, xy.1),
            ClipShape::Round(circle) => circle.contains(xy.0, xy.1),
        }
    }
}

/// One edit of a complex clip: make a shape's pixels valid or invalid.
#[derive(Clone, Debug)]
pub enum ClipElement {
    Add(ClipShape),
    Remove(ClipShape),
}

/// The current mode of a clip.
#[derive(Clone, Debug)]
pub enum ClipMode {
    Nothing,
    Simple(ClipShape),
    Complex(Vec<ClipElement>),
    Custom(Vec<bool>),
}

/// Validity under an ordered list of add/remove shapes: every pixel starts
/// valid, and the last shape that touches a pixel decides it.
pub open spec fn complex_valid(ops: Seq<ClipElement>, x: int, y: int) -> bool
    decreases ops.len(),
{
    if ops.len() == 0 {
        true
    } else {
        match ops.last() {
            ClipElement::Add(s) => if shape_contains(s, x, y) {
                true
            } else {
                complex_valid(ops.drop_last(), x, y)
            },
            ClipElement::Remove(s) => if shape_contains(s, x, y) {
                false
            } else {
                complex_valid(ops.drop_last(), x, y)
            },
        }
    }
}

/// The validity a mode denotes, independent of any cached mask.
pub open spec fn region_valid(mode: ClipMode, width: int, x: int, y: int) -> bool {
    match mode {
        ClipMode::Nothing => true,
        ClipMode::Simple(s) => shape_contains(s, x, y),
        ClipMode::Complex(ops) => complex_valid(ops@, x, y),
        ClipMode::Custom(m) => m@[x + y * width],
    }
}

/// The buffer index of the pixel at `(x, y)` on a surface `w` wide.
pub open spec fn pix_idx(w: int, x: int, y: int) -> int {
    x + y * w
}

/// Restricts which pixels drawing may touch; owned by a surface.
pub struct Clip {
    pub width: usize,
    pub height: usize,
    pub mode: ClipMode,
    pub old_mode: ClipMode,
    pub valid_pixel_map: Option<Vec<bool>>,
    pub old_valid_pixel_map: Option<Vec<bool>>,
    pub auto_build_map: bool,
}

/// Well-formedness: the dimensions are representable and every stored mask
/// covers the whole surface.
pub open spec fn clip_wf(c: Clip) -> bool {
    &&& c.width * c.height <= usize::MAX
    &&& c.width <= isize::MAX as int
    &&& c.height <= isize::MAX as int
    &&& match c.mode {
        ClipMode::Custom(m) => m@.len() == c.width * c.height,
        _ => true,
    }
    &&& match c.valid_pixel_map {
        Some(m) => m@.len() == c.width * c.height,
        None => true,
    }
}

/// What `is_valid` answers: the mode's validity, except that a complex clip
/// goes through its cached mask and fails open when the mask is missing.
pub open spec fn clip_valid(c: Clip, x: int, y: int) -> bool {
    match c.mode {
        ClipMode::Nothing => true,
        ClipMode::Simple(s) => shape_contains(s, x, y),
        ClipMode::Complex(ops) => match c.valid_pixel_map {
            Some(m) => m@[x + y * c.width],
            None => true,
        },
        ClipMode::Custom(m) => m@[x + y * c.width],
    }
}

/// Distinct in-range grid positions have distinct buffer indices.
pub proof fn lemma_grid_index_injective(w: int, x1: int, y1: int, x2: int, y2: int)
    requires
        0 <= x1 < w,
        0 <= x2 < w,
        0 <= y1,
        0 <= y2,
        x1 + y1 * w == x2 + y2 * w,
    ensures
        x1 == x2 && y1 == y2,
{
    assert(x1 == x2 && y1 == y2) by (nonlinear_arith)
        requires
            0 <= x1 < w && 0 <= x2 < w && 0 <= y1 && 0 <= y2 && x1 + y1 * w == x2 + y2 * w,
    ;
}

/// An in-range grid position has an in-range buffer index.
pub proof fn lemma_grid_index_bound(w: int, h: int, x: int, y: int)
    requires
        0 <= x < w,
        0 <= y < h,
    ensures
        0 <= x + y * w < w * h,
        y * w <= (h - 1) * w,
{
    assert(0 <= x + y * w < w * h && y * w <= (h - 1) * w) by (nonlinear_arith)
        requires
            0 <= x < w && 0 <= y < h,
    ;
}

fn filled_bools(n: usize, v: bool) -> (r: Vec<bool>)
    ensures
        r@.len() == n,
        forall|i: int| 0 <= i < n ==> r@[i] == v,
{
    let mut out: Vec<bool> = Vec::new();
    let mut i: usize = 0;
    while i < n
        invariant
            i <= n,
            out@.len() == i,
            forall|j: int| 0 <= j < i ==> out@[j] == v,
        decreases n - i,
    {
        out.push(v);
        i += 1;
    }
    out
}

fn copy_bools(src: &Vec<bool>) -> (r: Vec<bool>)
    ensures
        r@ == src@,
{
    let mut out: Vec<bool> = Vec::new();
    let mut i: usize = 0;
    while i < src.len()
        invariant
            i <= src@.len(),
            out@.len() == i,
            forall|j: int| 0 <= j < i ==> out@[j] == src@[j],
        decreases src@.len() - i,
    {
        out.push(src[i]);
        i += 1;
    }
    proof {
        assert(out@ =~= src@);
    }
    out
}

impl Clip {
    /// A clip for a `width` by `height` surface, initially accepting every
    /// pixel.
    pub fn new(width: usize, height: usize) -> (r: Clip)
        requires
            width * height <= usize::MAX,
            width <= isize::MAX as int,
            height <= isize::MAX as int,
        ensures
            r.width == width,
            r.height == height,
            r.mode is Nothing,
            r.old_mode is Nothing,
            r.valid_pixel_map is None,
            r.old_valid_pixel_map is None,
            r.auto_build_map == true,
            clip_wf(r),
    {
        Clip {
            width,
            height,
            mode: ClipMode::Nothing,
            old_mode: ClipMode::Nothing,
            valid_pixel_map: None,
            old_valid_pixel_map: None,
            auto_build_map: true,
        }
    }

    pub fn is_nothing(&self) -> (r: bool)
        ensures
            r == (self.mode is Nothing),
    {
        match &self.mode {
            ClipMode::Nothing => true,
            _ => false,
        }
    }

    pub fn is_simple(&self) -> (r: bool)
        ensures
            r == (self.mode is Simple),
    {
        match &self.mode {
            ClipMode::Simple(_) => true,
            _ => false,
        }
    }

    pub fn is_complex(&self) -> (r: bool)
        ensures
            r == (self.mode is Complex),
    {
        match &self.mode {
            ClipMode::Complex(_) => true,
            _ => false,
        }
    }

    pub fn is_custom(&self) -> (r: bool)
        ensures
            r == (self.mode is Custom),
    {
        match &self.mode {
            ClipMode::Custom(_) => true,
            _ => false,
        }
    }

    /// When false, complex edits no longer rebuild the mask; the caller
    /// batches edits and calls `update_pixel_map` once at the end.
    pub fn set_auto_build_map(&mut self, auto_build_map: bool)
        ensures
            *final(self) == (Clip { auto_build_map, ..*old(self) }),
    {
        self.auto_build_map = auto_build_map;
    }

    /// Whether drawing may touch the pixel at `xy`.
    ///
    /// A complex clip with no built mask fails open: the pixel counts as
    /// valid, so content is drawn rather than silently dropped.
    pub fn is_valid(&self, xy: (isize, isize)) -> (r: bool)
        requires
            clip_wf(*self),
            0 <= xy.0 < self.width,
            0 <= xy.1 < self.height,
        ensures
            r == clip_valid(*self, xy.0 as int, xy.1 as int),
    {
        proof {
            lemma_grid_index_bound(
                self.width as int,
                self.height as int,
                xy.0 as int,
                xy.1 as int,
            );
        }
        let u: usize = xy.0 as usize + xy.1 as usize * self.width;
        match &self.mode {
            ClipMode::Nothing => true,
            ClipMode::Simple(shape) => shape.contains(xy),
            ClipMode::Complex(_) => {
                if let Some(map) = &self.valid_pixel_map {
                    map[u]
                } else {
                    true
                }
            },
            ClipMode::Custom(map) => map[u],
        }
    }

    /// Save the current mode and mask into the single history slot.
    fn store_current_mode(&mut self)
        ensures
            final(self).width == old(self).width,
            final(self).height == old(self).height,
            final(self).auto_build_map == old(self).auto_build_map,
            final(self).old_mode == old(self).mode,
            final(self).old_valid_pixel_map == old(self).valid_pixel_map,
            final(self).mode == old(self).old_mode,
            final(self).valid_pixel_map is None,
    {
        core::mem::swap(&mut self.old_mode, &mut self.mode);
        core::mem::swap(&mut self.old_valid_pixel_map, &mut self.valid_pixel_map);
        self.valid_pixel_map = None;
    }

    /// Clear the clip: every pixel becomes valid.
    pub fn set_all_valid(&mut self)
        requires
            clip_wf(*old(self)),
        ensures
            clip_wf(*final(self)),
            final(self).width == old(self).width,
            final(self).height == old(self).height,
            final(self).auto_build_map == old(self).auto_build_map,
            final(self).old_mode == old(self).mode,
            final(self).old_valid_pixel_map == old(self).valid_pixel_map,
            final(self).mode is Nothing,
            final(self).valid_pixel_map is None,
    {
        self.store_current_mode();
        self.mode = ClipMode::Nothing;
    }

    /// Restrict the valid pixels to `rect` (edges included).
    pub fn set_valid_rect(&mut self, rect: Rect)
        requires
            clip_wf(*old(self)),
        ensures
            clip_wf(*final(self)),
            final(self).width == old(self).width,
            final(self).height == old(self).height,
            final(self).auto_build_map == old(self).auto_build_map,
            final(self).old_mode == old(self).mode,
            final(self).old_valid_pixel_map == old(self).valid_pixel_map,
            final(self).mode == ClipMode::Simple(ClipShape::Box(rect)),
            final(self).valid_pixel_map is None,
    {
        self.store_current_mode();
        self.mode = ClipMode::Simple(ClipShape::Box(rect));
    }

    /// Restrict the valid pixels to `circle`.
    pub fn set_valid_circle(&mut self, circle: Circle)
        requires
            clip_wf(*old(self)),
        ensures
            clip_wf(*final(self)),
            final(self).width == old(self).width,
            final(self).height == old(self).height,
            final(self).auto_build_map == old(self).auto_build_map,
            final(self).old_mode == old(self).mode,
            final(self).old_valid_pixel_map == old(self).valid_pixel_map,
            final(self).mode == ClipMode::Simple(ClipShape::Round(circle)),
            final(self).valid_pixel_map is None,
    {
        self.store_current_mode();
        self.mode = ClipMode::Simple(ClipShape::Round(circle));
    }

    /// Install `pixel_map` as the validity mask; it must cover the whole
    /// surface.
    pub fn custom(&mut self, pixel_map: Vec<bool>)
        requires
            clip_wf(*old(self)),
            pixel_map@.len() == old(self).width * old(self).height,
        ensures
            clip_wf(*final(self)),
            final(self).width == old(self).width,
            final(self).height == old(self).height,
            final(self).auto_build_map == old(self).auto_build_map,
            final(self).old_mode == old(self).mode,
            final(self).old_valid_pixel_map == old(self).valid_pixel_map,
            final(self).mode == ClipMode::Custom(pixel_map),
            final(self).valid_pixel_map is None,
    {
        self.store_current_mode();
        self.mode = ClipMode::Custom(pixel_map);
    }

    /// A fully materialized mask for the current mode.
    ///
    /// For a complex clip whose mask is already built, the stored mask is
    /// returned as it is (it can be stale after edits made with
    /// `auto_build_map` off); otherwise the mask is computed from the mode,
    /// and for a complex clip it is also stored.
    pub fn get_pixel_map(&mut self) -> (r: Vec<bool>)
        requires
            clip_wf(*old(self)),
        ensures
            clip_wf(*final(self)),
            r@.len() == old(self).width * old(self).height,
            final(self).width == old(self).width,
            final(self).height == old(self).height,
            final(self).mode == old(self).mode,
            final(self).old_mode == old(self).old_mode,
            final(self).old_valid_pixel_map == old(self).old_valid_pixel_map,
            final(self).auto_build_map == old(self).auto_build_map,
            (old(self).mode is Complex && old(self).valid_pixel_map is Some) ==> r@ == old(self).valid_pixel_map->Some_0@,
            (old(self).mode is Complex && old(self).valid_pixel_map is Some) ==> *final(self) == *old(self),
            !(old(self).mode is Complex && old(self).valid_pixel_map is Some) ==> (forall|x: int, y: int|
                0 <= x < old(self).width && 0 <= y < old(self).height ==> r@[#[trigger] pix_idx(old(self).width as int, x, y)]
                    == region_valid(old(self).mode, old(self).width as int, x, y)),
            (old(self).mode is Complex && old(self).valid_pixel_map is None) ==> (final(self).valid_pixel_map is Some
                && final(self).valid_pixel_map->Some_0@ == r@),
            !(old(self).mode is Complex && old(self).valid_pixel_map is None) ==> final(self).valid_pixel_map
                == old(self).valid_pixel_map,
    {
        match &self.mode {
            ClipMode::Simple(_) | ClipMode::Nothing => self.build_pixel_map(),
            ClipMode::Complex(_) => {
                if let Some(map) = &self.valid_pixel_map {
                    copy_bools(map)
                } else {
                    self.update_pixel_map();
                    if let Some(map) = &self.valid_pixel_map {
                        copy_bools(map)
                    } else {
                        proof {
                            assert(false);
                        }
                        Vec::new()
                    }
                }
            },
            ClipMode::Custom(map) => copy_bools(map),
        }
    }

    /// Switch to complex mode with an empty edit list, unless already
    /// complex.
    fn swap_to_complex(&mut self)
        ensures
            final(self).width == old(self).width,
            final(self).height == old(self).height,
            final(self).auto_build_map == old(self).auto_build_map,
            final(self).mode is Complex,
            old(self).mode is Complex ==> *final(self) == *old(self),
            !(old(self).mode is Complex) ==> {
                &&& final(self).mode->Complex_0@ =~= Seq::<ClipElement>::empty()
                &&& final(self).old_mode == old(self).mode
                &&& final(self).old_valid_pixel_map == old(self).valid_pixel_map
                &&& final(self).valid_pixel_map is None
            },
    {
        if !self.is_complex() {
            self.store_current_mode();
            self.mode = ClipMode::Complex(Vec::new());
        }
    }

    /// Append one edit, switching to complex mode first if needed, and
    /// rebuild the mask when auto-building is on.
    fn add(&mut self, element: ClipElement)
        requires
            clip_wf(*old(self)),
        ensures
            clip_wf(*final(self)),
            final(self).width == old(self).width,
            final(self).height == old(self).height,
            final(self).auto_build_map == old(self).auto_build_map,
            final(self).mode is Complex,
            final(self).mode->Complex_0@ =~= (if old(self).mode is Complex {
                old(self).mode->Complex_0@
            } else {
                Seq::<ClipElement>::empty()
            }).push(element),
            old(self).auto_build_map ==> {
                &&& final(self).valid_pixel_map is Some
                &&& final(self).valid_pixel_map->Some_0@.len() == old(self).width * old(self).height
                &&& forall|x: int, y: int|
                    0 <= x < old(self).width && 0 <= y < old(self).height ==> final(self).valid_pixel_map->Some_0@[#[trigger] pix_idx(old(self).width as int, x, y)] == complex_valid(
                        final(self).mode->Complex_0@,
                        x,
                        y,
                    )
            },
            !old(self).auto_build_map ==> final(self).valid_pixel_map == (if old(self).mode is Complex {
                old(self).valid_pixel_map
            } else {
                Option::<Vec<bool>>::None
            }),
    {
        self.swap_to_complex();
        let mode = &mut self.mode;
        match mode {
            ClipMode::Complex(list) => {
                list.push(element);
            },
            _ => {
                proof {
                    assert(false);
                }
            },
        }
        if self.auto_build_map {
            self.update_pixel_map();
        }
    }

    /// Complex edit: make the pixels in `rect` valid.
    pub fn add_rect(&mut self, rect: Rect)
        requires
            clip_wf(*old(self)),
        ensures
            clip_wf(*final(self)),
            complex_edit_contract(*old(self), *final(self), ClipElement::Add(ClipShape::Box(rect))),
    {
        self.add(ClipElement::Add(ClipShape::Box(rect)));
    }

    /// Complex edit: make the pixels in `rect` invalid.
    pub fn remove_rect(&mut self, rect: Rect)
        requires
            clip_wf(*old(self)),
        ensures
            clip_wf(*final(self)),
            complex_edit_contract(
                *old(self),
                *final(self),
                ClipElement::Remove(ClipShape::Box(rect)),
            ),
    {
        self.add(ClipElement::Remove(ClipShape::Box(rect)));
    }

    /// Complex edit: make the pixels in `circle` valid.
    pub fn add_circle(&mut self, circle: Circle)
        requires
            clip_wf(*old(self)),
        ensures
            clip_wf(*final(self)),
            complex_edit_contract(
                *old(self),
                *final(self),
                ClipElement::Add(ClipShape::Round(circle)),
            ),
    {
        self.add(ClipElement::Add(ClipShape::Round(circle)));
    }

    /// Complex edit: make the pixels in `circle` invalid.
    pub fn remove_circle(&mut self, circle: Circle)
        requires
            clip_wf(*old(self)),
        ensures
            clip_wf(*final(self)),
            complex_edit_contract(
                *old(self),
                *final(self),
                ClipElement::Remove(ClipShape::Round(circle)),
            ),
    {
        self.add(ClipElement::Remove(ClipShape::Round(circle)));
    }

    /// Rebuild the cached mask from the complex edit list, or drop it when
    /// the mode is not complex.
    pub fn update_pixel_map(&mut self)
        requires
            clip_wf(*old(self)),
        ensures
            clip_wf(*final(self)),
            final(self).width == old(self).width,
            final(self).height == old(self).height,
            final(self).mode == old(self).mode,
            final(self).old_mode == old(self).old_mode,
            final(self).old_valid_pixel_map == old(self).old_valid_pixel_map,
            final(self).auto_build_map == old(self).auto_build_map,
            old(self).mode is Complex ==> {
                &&& final(self).valid_pixel_map is Some
                &&& final(self).valid_pixel_map->Some_0@.len() == old(self).width * old(self).height
                &&& forall|x: int, y: int|
                    0 <= x < old(self).width && 0 <= y < old(self).height ==> final(self).valid_pixel_map->Some_0@[#[trigger] pix_idx(old(self).width as int, x, y)] == complex_valid(
                        old(self).mode->Complex_0@,
                        x,
                        y,
                    )
            },
            !(old(self).mode is Complex) ==> final(self).valid_pixel_map is None,
    {
        if self.is_complex() {
            let map = self.build_pixel_map();
            self.valid_pixel_map = Some(map);
        } else {
            self.valid_pixel_map = None;
        }
    }

    /// Compute the mask the current mode denotes, without touching the
    /// cache.
    fn build_pixel_map(&self) -> (r: Vec<bool>)
        requires
            clip_wf(*self),
        ensures
            r@.len() == self.width * self.height,
            forall|x: int, y: int|
                0 <= x < self.width && 0 <= y < self.height ==> r@[#[trigger] pix_idx(
                    self.width as int,
                    x,
                    y,
                )] == region_valid(self.mode, self.width as int, x, y),
    {
        match &self.mode {
            ClipMode::Nothing => {
                let r = filled_bools(self.width * self.height, true);
                proof {
                    assert forall|x: int, y: int|
                        0 <= x < self.width && 0 <= y < self.height implies r@[#[trigger] pix_idx(
                        self.width as int,
                        x,
                        y,
                    )] == region_valid(self.mode, self.width as int, x, y) by {
                        lemma_grid_index_bound(self.width as int, self.height as int, x, y);
                    }
                }
                r
            },
            ClipMode::Simple(shape) => self.build_simple_map(shape),
            ClipMode::Complex(elements) => self.build_complex_map(elements),
            ClipMode::Custom(map) => copy_bools(map),
        }
    }

    /// The mask of a single shape: exactly the pixels the shape contains.
    fn build_simple_map(&self, shape: &ClipShape) -> (r: Vec<bool>)
        requires
            clip_wf(*self),
        ensures
            r@.len() == self.width * self.height,
            forall|x: int, y: int|
                0 <= x < self.width && 0 <= y < self.height ==> r@[#[trigger] pix_idx(
                    self.width as int,
                    x,
                    y,
                )] == shape_contains(*shape, x, y),
    {
        let w = self.width;
        let h = self.height;
        let mut output = filled_bools(w * h, false);
        proof {
            assert forall|xx: int, yy: int|
                0 <= xx < w && 0 <= yy < h implies output@[#[trigger] pix_idx(w as int, xx, yy)]
                == (xx < 0 && shape_contains(*shape, xx, yy)) by {
                lemma_grid_index_bound(w as int, h as int, xx, yy);
            }
        }
        let mut x: usize = 0;
        while x < w
            invariant
                x <= w,
                w == self.width,
                h == self.height,
                clip_wf(*self),
                output@.len() == w * h,
                forall|xx: int, yy: int|
                    0 <= xx < w && 0 <= yy < h ==> output@[#[trigger] pix_idx(w as int, xx, yy)]
                        == (xx < x && shape_contains(*shape, xx, yy)),
            decreases w - x,
        {
            let mut y: usize = 0;
            while y < h
                invariant
                    x < w,
                    y <= h,
                    w == self.width,
                    h == self.height,
                    clip_wf(*self),
                    output@.len() == w * h,
                    forall|xx: int, yy: int|
                        0 <= xx < w && 0 <= yy < h ==> output@[#[trigger] pix_idx(
                            w as int,
                            xx,
                            yy,
                        )] == ((xx < x || (xx == x && yy < y)) && shape_contains(*shape, xx, yy)),
                decreases h - y,
            {
                proof {
                    lemma_grid_index_bound(w as int, h as int, x as int, y as int);
                }
                let i = x + y * w;
                let contains = shape.contains((x as isize, y as isize));
                let ghost pre = output@;
                if contains {
                    output.set(i, true);
                }
                proof {
                    assert forall|xx: int, yy: int|
                        0 <= xx < w && 0 <= yy < h implies output@[#[trigger] pix_idx(
                        w as int,
                        xx,
                        yy,
                    )] == ((xx < x || (xx == x && yy < y + 1)) && shape_contains(
                        *shape,
                        xx,
                        yy,
                    )) by {
                        lemma_grid_index_bound(w as int, h as int, xx, yy);
                        if xx == x && yy == y {
                            assert(pix_idx(w as int, xx, yy) == i);
                        } else {
                            if pix_idx(w as int, xx, yy) == i {
                                lemma_grid_index_injective(w as int, x as int, y as int, xx, yy);
                            }
                            assert(pix_idx(w as int, xx, yy) != i);
                            assert(output@[pix_idx(w as int, xx, yy)] == pre[pix_idx(
                                w as int,
                                xx,
                                yy,
                            )]);
                        }
                    }
                }
                y += 1;
            }
            x += 1;
        }
        output
    }

    /// The mask of an ordered edit list: all pixels start valid, every edit
    /// is applied in insertion order, and the last shape touching a pixel
    /// wins.
    fn build_complex_map(&self, elements: &Vec<ClipElement>) -> (r: Vec<bool>)
        requires
            clip_wf(*self),
        ensures
            r@.len() == self.width * self.height,
            forall|x: int, y: int|
                0 <= x < self.width && 0 <= y < self.height ==> r@[#[trigger] pix_idx(
                    self.width as int,
                    x,
                    y,
                )] == complex_valid(elements@, x, y),
    {
        let w = self.width;
        let h = self.height;
        let mut output = filled_bools(w * h, true);
        proof {
            assert forall|xx: int, yy: int|
                0 <= xx < w && 0 <= yy < h implies output@[#[trigger] pix_idx(w as int, xx, yy)]
                == true by {
                lemma_grid_index_bound(w as int, h as int, xx, yy);
            }
        }
        let mut x: usize = 0;
        while x < w
            invariant
                x <= w,
                w == self.width,
                h == self.height,
                clip_wf(*self),
                output@.len() == w * h,
                forall|xx: int, yy: int|
                    0 <= xx < w && 0 <= yy < h ==> output@[#[trigger] pix_idx(w as int, xx, yy)]
                        == if xx < x {
                        complex_valid(elements@, xx, yy)
                    } else {
                        true
                    },
            decreases w - x,
        {
            let mut y: usize = 0;
            while y < h
                invariant
                    x < w,
                    y <= h,
                    w == self.width,
                    h == self.height,
                    clip_wf(*self),
                    output@.len() == w * h,
                    forall|xx: int, yy: int|
                        0 <= xx < w && 0 <= yy < h ==> output@[#[trigger] pix_idx(
                            w as int,
                            xx,
                            yy,
                        )] == if xx < x || (xx == x && yy < y) {
                            complex_valid(elements@, xx, yy)
                        } else {
                            true
                        },
                decreases h - y,
            {
                let mut valid = true;
                let mut k: usize = 0;
                while k < elements.len()
                    invariant
                        k <= elements@.len(),
                        x < w,
                        y < h,
                        w == self.width,
                        h == self.height,
                        clip_wf(*self),
                        valid == complex_valid(elements@.subrange(0, k as int), x as int, y as int),
                    decreases elements@.len() - k,
                {
                    let touches = match &elements[k] {
                        ClipElement::Add(shape) => {
                            let t = shape.contains((x as isize, y as isize));
                            if t {
                                valid = true;
                            }
                            t
                        },
                        ClipElement::Remove(shape) => {
                            let t = shape.contains((x as isize, y as isize));
                            if t {
                                valid = false;
                            }
                            t
                        },
                    };
                    proof {
                        let pre = elements@.subrange(0, k as int);
                        let cur = elements@.subrange(0, k as int + 1);
                        assert(cur.drop_last() =~= pre);
                        assert(cur.last() == elements@[k as int]);
                    }
                    k += 1;
                }
                proof {
                    assert(elements@.subrange(0, elements@.len() as int) =~= elements@);
                    lemma_grid_index_bound(w as int, h as int, x as int, y as int);
                }
                let i = x + y * w;
                let ghost pre = output@;
                output.set(i, valid);
                proof {
                    assert forall|xx: int, yy: int|
                        0 <= xx < w && 0 <= yy < h implies output@[#[trigger] pix_idx(
                        w as int,
                        xx,
                        yy,
                    )] == if xx < x || (xx == x && yy < y + 1) {
                        complex_valid(elements@, xx, yy)
                    } else {
                        true
                    } by {
                        lemma_grid_index_bound(w as int, h as int, xx, yy);
                        if xx == x && yy == y {
                            assert(pix_idx(w as int, xx, yy) == i);
                        } else {
                            if pix_idx(w as int, xx, yy) == i {
                                lemma_grid_index_injective(w as int, x as int, y as int, xx, yy);
                            }
                            assert(pix_idx(w as int, xx, yy) != i);
                            assert(output@[pix_idx(w as int, xx, yy)] == pre[pix_idx(
                                w as int,
                                xx,
                                yy,
                            )]);
                        }
                    }
                }
                y += 1;
            }
            x += 1;
        }
        output
    }
}

/// Shared shape of the four complex-edit contracts: the edit list gains
/// `element` at the end (starting from an empty list when the mode was not
/// complex), and the mask is rebuilt exactly when auto-building is on.
pub open spec fn complex_edit_contract(pre: Clip, post: Clip, element: ClipElement) -> bool {
    &&& post.width == pre.width
    &&& post.height == pre.height
    &&& post.auto_build_map == pre.auto_build_map
    &&& post.mode is Complex
    &&& post.mode->Complex_0@ == (if pre.mode is Complex {
        pre.mode->Complex_0@
    } else {
        Seq::<ClipElement>::empty()
    }).push(element)
    &&& (pre.auto_build_map ==> {
        &&& post.valid_pixel_map is Some
        &&& post.valid_pixel_map->Some_0@.len() == pre.width * pre.height
        &&& forall|x: int, y: int|
            0 <= x < pre.width && 0 <= y < pre.height ==> post.valid_pixel_map->Some_0@[#[trigger] pix_idx(
                pre.width as int,
                x,
                y,
            )] == complex_valid(post.mode->Complex_0@, x, y)
    })
    &&& (!pre.auto_build_map ==> post.valid_pixel_map == (if pre.mode is Complex {
        pre.valid_pixel_map
    } else {
        Option::<Vec<bool>>::None
    }))
}

/// Law: a clip in `Nothing` mode accepts every pixel of the surface.
pub proof fn lemma_nothing_accepts_all(c: Clip, x: int, y: int)
    requires
        c.mode is Nothing,
        0 <= x < c.width,
        0 <= y < c.height,
    ensures
        clip_valid(c, x, y),
{
}

/// Law: a simple rectangle clip accepts exactly the pixels the rectangle
/// contains, edges included.
pub proof fn lemma_simple_rect_exact(c: Clip, rect: Rect, x: int, y: int)
    requires
        c.mode == ClipMode::Simple(ClipShape::Box(rect)),
        0 <= x < c.width,
        0 <= y < c.height,
    ensures
        clip_valid(c, x, y) == rect_contains_inclusive(rect.start, rect.end, x, y),
{
}

} // verus!

//! Export to and drawing of palette-indexed images in the interchange
//! format of the `ici_files` crate.
//!
//! The outside crate owns the indexed container; this module converts
//! between it and the library's plain colors, and keeps all palette and
//! index logic verified on this side of the boundary.

use crate::color::Color;
use crate::coord::Coord;
use crate::drawing::Graphics;
use crate::drawing::GraphicsError;
use crate::drawing::gfx_wf;
use crate::drawing::pixel_flat;
use crate::drawing::upd_buf;
use crate::drawing::lemma_upd_buf_config;
use crate::indexed::dedup_colors;
use vstd::prelude::*;
use vstd::seq_lib::*;

verus! {

/// A palette-indexed image in the interchange crate's own container,
/// opaque to the verifier; its contents are reachable only through the
/// named projections below.
#[verifier::external_body]
pub struct InterchangeImage {
    inner: ici_files::image::IndexedImage,
}

impl InterchangeImage {
    /// The stored palette, as library colors.
    pub fn palette(&self) -> (r: Vec<Color>)
        ensures
            r@ == ici_palette(*self),
    {
        ii_get_palette(self)
    }

    /// The stored per-pixel palette indices.
    pub fn pixel_indices(&self) -> (r: Vec<u8>)
        ensures
            r@ == ici_pixels(*self),
    {
        ii_get_pixels(self)
    }

    /// The stored width and height.
    pub fn size(&self) -> (r: (u8, u8))
        ensures
            (r.0 as int, r.1 as int) == ici_size(*self),
    {
        ii_size(self)
    }
}

/// The palette an interchange image stores, as library colors.
pub uninterp spec fn ici_palette(img: InterchangeImage) -> Seq<Color>;

/// The per-pixel palette indices an interchange image stores.
pub uninterp spec fn ici_pixels(img: InterchangeImage) -> Seq<u8>;

/// The width and height an interchange image stores.
pub uninterp spec fn ici_size(img: InterchangeImage) -> (int, int);

/// What palette simplification returns for given colors and limit.
pub uninterp spec fn simplified_palette(colors: Seq<Color>, max: int) -> Seq<Color>;

/// Relies on `ici_files::image::IndexedImage::new`: it rejects a zero
/// dimension, an empty palette and a mismatched pixel count, and
/// otherwise stores the palette, pixels and dimensions as given.
#[verifier::external_body]
fn ii_new(width: u8, height: u8, palette: &Vec<Color>, pixels: Vec<u8>) -> (r: Option<
    InterchangeImage,
>)
    ensures
        r is Some <==> (width > 0 && height > 0 && palette@.len() > 0 && pixels@.len() == width
            * height),
        r is Some ==> ici_palette(r->0) == palette@ && ici_pixels(r->0) == pixels@ && ici_size(
            r->0,
        ) == (width as int, height as int),
{
    let pal: Vec<ici_files::color::Color> = palette.iter().map(
        |c: &Color| ici_files::color::Color::new(c.r, c.g, c.b, c.a),
    ).collect();
    match ici_files::image::IndexedImage::new(width, height, pal, pixels) {
        Ok(inner) => Some(InterchangeImage { inner }),
        Err(_) => None,
    }
}

/// Relies on `ici_files::image::IndexedImage::get_palette`: it returns the
/// stored palette unchanged.
#[verifier::external_body]
pub(crate) fn ii_get_palette(img: &InterchangeImage) -> (r: Vec<Color>)
    ensures
        r@ == ici_palette(*img),
{
    img.inner.get_palette().iter().map(|c: &ici_files::color::Color| Color { r: c.r, g: c.g, b: c.b, a: c.a }).collect()
}

/// Relies on `ici_files::image::IndexedImage::get_pixels`: it returns the
/// stored per-pixel indices unchanged.
#[verifier::external_body]
pub(crate) fn ii_get_pixels(img: &InterchangeImage) -> (r: Vec<u8>)
    ensures
        r@ == ici_pixels(*img),
{
    img.inner.get_pixels().to_vec()
}

/// Relies on `ici_files::image::IndexedImage::size`: it returns the stored
/// width and height.
#[verifier::external_body]
pub(crate) fn ii_size(img: &InterchangeImage) -> (r: (u8, u8))
    ensures
        (r.0 as int, r.1 as int) == ici_size(*img),
{
    img.inner.size()
}

/// Relies on `ici_files::palette::simplify_palette_to_fit`: it merges
/// similar colors with a growing threshold until fewer than `max` distinct
/// colors remain, and keeps the list length (merged entries repeat), so
/// indices into the input stay meaningful.  The result depends on the
/// arguments alone.  A `max` below two never terminates there, so it is
/// excluded here.
#[verifier::external_body]
fn simplify_to_fit(colors: &Vec<Color>, max: usize) -> (r: Vec<Color>)
    requires
        max >= 2,
    ensures
        r@ == simplified_palette(colors@, max as int),
        r@.len() == colors@.len(),
        r@.to_set().len() < max,
{
    let pal: Vec<ici_files::color::Color> = colors.iter().map(
        |c: &Color| ici_files::color::Color::new(c.r, c.g, c.b, c.a),
    ).collect();
    let out = ici_files::palette::simplify_palette_to_fit(&pal, max);
    out.iter().map(|c: &ici_files::color::Color| Color { r: c.r, g: c.g, b: c.b, a: c.a }).collect()
}

/// An animated palette-indexed image in the interchange crate's own
/// container, opaque to the verifier.  It carries several frames and a
/// current-frame marker that `ai_update` advances; its contents are
/// reachable only through the named projections below.
#[verifier::external_body]
pub struct AnimatedInterchangeImage {
    inner: ici_files::animated::AnimatedIndexedImage,
}

/// The palette an animated interchange image stores, as library colors.
pub uninterp spec fn anim_palette(img: AnimatedInterchangeImage) -> Seq<Color>;

/// The width and height an animated interchange image stores.
pub uninterp spec fn anim_size(img: AnimatedInterchangeImage) -> (int, int);

/// The palette indices of the frame an animated interchange image
/// currently shows.
pub uninterp spec fn anim_frame(img: AnimatedInterchangeImage) -> Seq<u8>;

/// Relies on `ici_files::animated::AnimatedIndexedImage::new`: it rejects
/// a zero dimension, an empty palette and a pixel count that is not
/// width x height x frames, and otherwise stores everything as given and
/// starts on the first frame.  A zero frame count is excluded because the
/// outside constructor panics on it.
#[verifier::external_body]
fn ai_new(
    width: u8,
    height: u8,
    per_frame_secs: u32,
    frame_count: u8,
    palette: &Vec<Color>,
    pixels: Vec<u8>,
    loops: bool,
) -> (r: Option<AnimatedInterchangeImage>)
    requires
        frame_count >= 1,
    ensures
        r is Some <==> (width > 0 && height > 0 && palette@.len() > 0 && pixels@.len() == width
            * height * frame_count),
        r is Some ==> anim_palette(r->0) == palette@ && anim_size(r->0) == (
            width as int,
            height as int,
        ) && anim_frame(r->0) == pixels@.take(width * height),
{
    let pal: Vec<ici_files::color::Color> = palette.iter().map(
        |c: &Color| ici_files::color::Color::new(c.r, c.g, c.b, c.a),
    ).collect();
    let play_type = if loops {
        ici_files::animated::PlayType::Loops
    } else {
        ici_files::animated::PlayType::Once
    };
    ici_files::animated::AnimatedIndexedImage::new(
        width, height, per_frame_secs.into(), frame_count, pal, pixels, play_type,
    ).ok().map(|inner| AnimatedInterchangeImage { inner })
}

/// Relies on `AnimatedIndexedImage::get_palette`: it returns the stored
/// palette unchanged.
#[verifier::external_body]
fn ai_get_palette(img: &AnimatedInterchangeImage) -> (r: Vec<Color>)
    ensures
        r@ == anim_palette(*img),
{
    img.inner.get_palette().iter().map(|c: &ici_files::color::Color| Color { r: c.r, g: c.g, b: c.b, a: c.a }).collect()
}

/// Relies on `AnimatedIndexedImage::size`: it returns the stored width and
/// height.
#[verifier::external_body]
fn ai_size(img: &AnimatedInterchangeImage) -> (r: (u8, u8))
    ensures
        (r.0 as int, r.1 as int) == anim_size(*img),
{
    img.inner.size()
}

/// Relies on `AnimatedIndexedImage::get_current_frame_pixels`: it returns
/// the current frame's indices, one slice of width x height entries.
#[verifier::external_body]
fn ai_current_frame(img: &AnimatedInterchangeImage) -> (r: Vec<u8>)
    ensures
        r@ == anim_frame(*img),
        r@.len() == anim_size(*img).0 * anim_size(*img).1,
{
    img.inner.get_current_frame_pixels().to_vec()
}

impl AnimatedInterchangeImage {
    /// Build an animated image from plain values; see `ai_new` for when
    /// this succeeds.
    pub fn new(
        width: u8,
        height: u8,
        per_frame_secs: u32,
        frame_count: u8,
        palette: &Vec<Color>,
        pixels: Vec<u8>,
        loops: bool,
    ) -> (r: Option<AnimatedInterchangeImage>)
        requires
            frame_count >= 1,
        ensures
            r is Some <==> (width > 0 && height > 0 && palette@.len() > 0 && pixels@.len()
                == width * height * frame_count),
            r is Some ==> anim_palette(r->0) == palette@ && anim_size(r->0) == (
                width as int,
                height as int,
            ) && anim_frame(r->0) == pixels@.take(width * height),
    {
        ai_new(width, height, per_frame_secs, frame_count, palette, pixels, loops)
    }

    /// The stored palette, as library colors.
    pub fn palette(&self) -> (r: Vec<Color>)
        ensures
            r@ == anim_palette(*self),
    {
        ai_get_palette(self)
    }

    /// The stored width and height.
    pub fn size(&self) -> (r: (u8, u8))
        ensures
            (r.0 as int, r.1 as int) == anim_size(*self),
    {
        ai_size(self)
    }

    /// The current frame's palette indices.
    pub fn current_frame(&self) -> (r: Vec<u8>)
        ensures
            r@ == anim_frame(*self),
            r@.len() == anim_size(*self).0 * anim_size(*self).1,
    {
        ai_current_frame(self)
    }

    /// Relies on `AnimatedIndexedImage::set_animate`: it only toggles the
    /// play flag; the palette, size and current frame stay as they are.
    #[verifier::external_body]
    pub fn set_animate(&mut self, animate: bool)
        ensures
            anim_palette(*final(self)) == anim_palette(*old(self)),
            anim_size(*final(self)) == anim_size(*old(self)),
            anim_frame(*final(self)) == anim_frame(*old(self)),
    {
        self.inner.set_animate(animate)
    }

    /// Relies on `AnimatedIndexedImage::update`: the elapsed time may move
    /// the current-frame marker by its play type, and never touches the
    /// palette, the size or any frame's length.
    #[verifier::external_body]
    pub fn update(&mut self, elapsed_secs: u32)
        ensures
            anim_palette(*final(self)) == anim_palette(*old(self)),
            anim_size(*final(self)) == anim_size(*old(self)),
            anim_frame(*final(self)).len() == anim_frame(*old(self)).len(),
    {
        self.inner.update(elapsed_secs.into())
    }
}

/// The first position of `c` in `s`, or -1 when absent.
pub open spec fn first_index(s: Seq<Color>, c: Color) -> int
    decreases s.len(),
{
    if s.len() == 0 {
        -1
    } else if s[0] == c {
        0
    } else {
        let r = first_index(s.drop_first(), c);
        if r < 0 {
            -1
        } else {
            r + 1
        }
    }
}

/// When `c` occurs in `s`, `first_index` really is its first position.
pub proof fn lemma_first_index_props(s: Seq<Color>, c: Color)
    requires
        s.contains(c),
    ensures
        0 <= first_index(s, c) < s.len(),
        s[first_index(s, c)] == c,
        forall|k: int| 0 <= k < first_index(s, c) ==> s[k] != c,
    decreases s.len(),
{
    if s[0] == c {
    } else {
        assert(s.drop_first().contains(c)) by {
            let w = choose|w: int| 0 <= w < s.len() && s[w] == c;
            assert(s.drop_first()[w - 1] == c);
        }
        lemma_first_index_props(s.drop_first(), c);
        assert forall|k: int| 0 <= k < first_index(s, c) implies s[k] != c by {
            if k > 0 {
                assert(s.drop_first()[k - 1] == s[k]);
            }
        }
    }
}

/// Any position whose prefix is free of `c` is the first position.
pub proof fn lemma_first_index_unique(s: Seq<Color>, c: Color, idx: int)
    requires
        0 <= idx < s.len(),
        s[idx] == c,
        forall|k: int| 0 <= k < idx ==> s[k] != c,
    ensures
        first_index(s, c) == idx,
    decreases s.len(),
{
    if idx == 0 {
    } else {
        assert(s.drop_first()[idx - 1] == c);
        assert forall|k: int| 0 <= k < idx - 1 implies s.drop_first()[k] != c by {
            assert(s.drop_first()[k] == s[k + 1]);
        }
        lemma_first_index_unique(s.drop_first(), c, idx - 1);
    }
}

/// Deduplication keeps exactly the set of colors and introduces no
/// duplicates.
pub proof fn lemma_dedup_props(s: Seq<Color>)
    ensures
        dedup_colors(s).no_duplicates(),
        dedup_colors(s).to_set() == s.to_set(),
        forall|c: Color| s.contains(c) <==> dedup_colors(s).contains(c),
    decreases s.len(),
{
    if s.len() == 0 {
        assert(dedup_colors(s).to_set() =~= s.to_set());
    } else {
        lemma_dedup_props(s.drop_last());
        let d0 = dedup_colors(s.drop_last());
        let d = dedup_colors(s);
        assert(s.to_set() =~= s.drop_last().to_set().insert(s.last())) by {
            assert forall|c: Color| s.to_set().contains(c) implies s.drop_last().to_set().insert(
                s.last(),
            ).contains(c) by {
                let w = choose|w: int| 0 <= w < s.len() && s[w] == c;
                if w < s.len() - 1 {
                    assert(s.drop_last()[w] == c);
                }
            }
            assert forall|c: Color|
                s.drop_last().to_set().insert(s.last()).contains(c) implies s.to_set().contains(
                c,
            ) by {
                if s.drop_last().to_set().contains(c) {
                    let w = choose|w: int| 0 <= w < s.drop_last().len() && s.drop_last()[w] == c;
                    assert(s[w] == c);
                } else {
                    assert(s[s.len() - 1] == c);
                }
            }
        }
        if d0.contains(s.last()) {
            assert(d.to_set() =~= s.to_set());
        } else {
            assert(d == d0.push(s.last()));
            assert(d.to_set() =~= d0.to_set().insert(s.last())) by {
                assert forall|c: Color| d.to_set().contains(c) implies d0.to_set().insert(
                    s.last(),
                ).contains(c) by {
                    let w = choose|w: int| 0 <= w < d.len() && d[w] == c;
                    if w < d.len() - 1 {
                        assert(d0[w] == c);
                    }
                }
                assert forall|c: Color|
                    d0.to_set().insert(s.last()).contains(c) implies d.to_set().contains(c) by {
                    if d0.to_set().contains(c) {
                        let w = choose|w: int| 0 <= w < d0.len() && d0[w] == c;
                        assert(d[w] == c);
                    } else {
                        assert(d[d.len() - 1] == c);
                    }
                }
            }
            assert(d.to_set() =~= s.to_set());
            assert(d.no_duplicates()) by {
                assert forall|i: int, j: int| 0 <= i < j < d.len() implies d[i] != d[j] by {
                    if j < d.len() - 1 {
                        assert(d0[i] == d[i] && d0[j] == d[j]);
                    } else {
                        assert(d0[i] == d[i]);
                        if d[i] == s.last() {
                            assert(d0.contains(s.last()));
                        }
                    }
                }
            }
        }
        assert forall|c: Color| s.contains(c) implies d.contains(c) by {
            assert(s.to_set().contains(c));
            assert(d.to_set().contains(c));
        }
        assert forall|c: Color| d.contains(c) implies s.contains(c) by {
            assert(d.to_set().contains(c));
            assert(s.to_set().contains(c));
        }
    }
}

/// A sequence without duplicates is its own deduplication.
pub proof fn lemma_dedup_of_unique(s: Seq<Color>)
    requires
        s.no_duplicates(),
    ensures
        dedup_colors(s) == s,
    decreases s.len(),
{
    if s.len() > 0 {
        lemma_dedup_of_unique(s.drop_last());
        lemma_dedup_props(s.drop_last());
        if dedup_colors(s.drop_last()).contains(s.last()) {
            assert(s.drop_last().contains(s.last()));
            let w = choose|w: int| 0 <= w < s.drop_last().len() && s.drop_last()[w] == s.last();
            assert(s[w] == s[s.len() - 1]);
            assert(false);
        }
        assert(dedup_colors(s) =~= s);
    }
}

/// The first position of `c` in the vector, scanning front to back.
fn position_of(s: &Vec<Color>, c: Color) -> (r: Option<usize>)
    ensures
        match r {
            Some(i) => i < s@.len() && s@[i as int] == c && (forall|k: int|
                0 <= k < i ==> s@[k] != c) && first_index(s@, c) == i,
            None => !s@.contains(c),
        },
{
    let mut i: usize = 0;
    while i < s.len()
        invariant
            i <= s@.len(),
            forall|k: int| 0 <= k < i ==> s@[k] != c,
        decreases s@.len() - i,
    {
        if s[i] == c {
            proof {
                lemma_first_index_unique(s@, c, i as int);
            }
            return Some(i);
        }
        i += 1;
    }
    proof {
        if s@.contains(c) {
            let w = choose|w: int| 0 <= w < s@.len() && s@[w] == c;
        }
    }
    None
}

/// The dedup of the pixel colors, computed as a vector.
fn dedup_vec(pix: &Vec<Color>) -> (r: Vec<Color>)
    ensures
        r@ == dedup_colors(pix@),
{
    let mut out: Vec<Color> = Vec::new();
    let mut k: usize = 0;
    proof {
        assert(pix@.take(0) =~= Seq::<Color>::empty());
    }
    while k < pix.len()
        invariant
            k <= pix@.len(),
            out@ == dedup_colors(pix@.take(k as int)),
        decreases pix@.len() - k,
    {
        let c = pix[k];
        proof {
            assert(pix@.take(k as int + 1).drop_last() =~= pix@.take(k as int));
            assert(pix@.take(k as int + 1).last() == c);
        }
        match position_of(&out, c) {
            Some(_) => {
                proof {
                    assert(dedup_colors(pix@.take(k as int)).contains(c));
                }
            },
            None => {
                out.push(c);
            },
        }
        k += 1;
    }
    proof {
        assert(pix@.take(pix@.len() as int) =~= pix@);
    }
    out
}

/// The colors of the surface, one per pixel, in buffer order.
pub open spec fn surface_colors(buf: Seq<u8>, n: int) -> Seq<Color> {
    Seq::new(n as nat, |k: int| pixel_flat(buf, k))
}

/// The palette the indexed export uses: the distinct pixel colors in
/// first-appearance order, simplified first when they exceed the limit
/// and simplification was requested.
pub open spec fn export_source(buf: Seq<u8>, n: int, simplify: bool) -> Seq<Color> {
    let distinct = dedup_colors(surface_colors(buf, n));
    if distinct.len() > 255 && simplify {
        simplified_palette(distinct, 255)
    } else {
        distinct
    }
}

impl Graphics {
    /// Export the surface as a palette-indexed interchange image.
    ///
    /// Fails when the surface exceeds 255 by 255 pixels, when more than
    /// 255 distinct colors are present and simplification is off, or when
    /// a dimension is zero (the interchange format cannot hold it).  With
    /// `simplify_palette`, an oversized palette is first merged down by
    /// the interchange crate, keeping indices aligned; each pixel then
    /// stores the first palette position of its (possibly merged) color.
    pub fn copy_to_indexed_image(&self, simplify_palette: bool) -> (r: Result<
        InterchangeImage,
        GraphicsError,
    >)
        requires
            gfx_wf(*self),
        ensures
            ({
                let n = self.width * self.height;
                let colors = surface_colors(self.buffer@, n as int);
                let distinct = dedup_colors(colors);
                let source = export_source(self.buffer@, n as int, simplify_palette);
                let palette = dedup_colors(source);
                &&& (self.width > 255 || self.height > 255) ==> r == Err::<
                    InterchangeImage,
                    GraphicsError,
                >(GraphicsError::TooBig(self.width, self.height))
                &&& (self.width <= 255 && self.height <= 255 && distinct.len() > 255
                    && !simplify_palette) ==> r == Err::<
                    InterchangeImage,
                    GraphicsError,
                >(GraphicsError::TooManyColors)
                &&& (self.width <= 255 && self.height <= 255 && (distinct.len() <= 255
                    || simplify_palette) && (self.width == 0 || self.height == 0)) ==> r == Err::<
                    InterchangeImage,
                    GraphicsError,
                >(GraphicsError::ImageError)
                &&& (0 < self.width <= 255 && 0 < self.height <= 255 && (distinct.len() <= 255
                    || simplify_palette)) ==> {
                    &&& r is Ok
                    &&& ici_palette(r->Ok_0) == palette
                    &&& ici_palette(r->Ok_0).len() <= 255
                    &&& ici_size(r->Ok_0) == (self.width as int, self.height as int)
                    &&& ici_pixels(r->Ok_0).len() == n
                    &&& forall|k: int|
                        0 <= k < n ==> ici_pixels(r->Ok_0)[k] == first_index(
                            palette,
                            source[first_index(distinct, colors[k])],
                        )
                }
            }),
    {
        if self.width > 255 || self.height > 255 {
            return Err(GraphicsError::TooBig(self.width, self.height));
        }
        let img = self.copy_to_image();
        let pix = img.pixels;
        let ghost n = (self.width * self.height) as int;
        let ghost colors = surface_colors(self.buffer@, n);
        proof {
            assert(pix@ =~= colors);
        }
        let distinct = dedup_vec(&pix);
        let ghost source_spec = export_source(self.buffer@, n, simplify_palette);
        let source: Vec<Color>;
        if distinct.len() > 255 {
            if !simplify_palette {
                return Err(GraphicsError::TooManyColors);
            }
            source = simplify_to_fit(&distinct, 255);
        } else {
            source = copy_colors(&distinct);
        }
        proof {
            assert(source@ == source_spec);
        }
        let palette = dedup_vec(&source);
        proof {
            lemma_dedup_props(source@);
            if source@.len() == distinct@.len() && distinct@.len() > 255 {
                palette@.unique_seq_to_set();
                assert(palette@.to_set() == source@.to_set());
            } else {
                lemma_dedup_props(pix@);
                palette@.unique_seq_to_set();
                assert(palette@.to_set() == source@.to_set());
                source@.lemma_cardinality_of_set();
            }
            assert(palette@.len() <= 255);
        }
        let mut out: Vec<u8> = Vec::new();
        let mut k: usize = 0;
        while k < pix.len()
            invariant
                k <= pix@.len(),
                pix@ == colors,
                distinct@ == dedup_colors(colors),
                source@ == source_spec,
                source@.len() == distinct@.len(),
                palette@ == dedup_colors(source@),
                palette@.len() <= 255,
                out@.len() == k,
                forall|j: int|
                    0 <= j < k ==> out@[j] == first_index(
                        palette@,
                        source@[first_index(distinct@, colors[j])],
                    ),
            decreases pix@.len() - k,
        {
            let c = pix[k];
            proof {
                lemma_dedup_props(colors);
                assert(colors.contains(colors[k as int])) by {
                    assert(colors[k as int] == colors[k as int]);
                }
                assert(distinct@.contains(c));
                lemma_first_index_props(distinct@, c);
            }
            let i0 = match position_of(&distinct, c) {
                Some(i) => i,
                None => {
                    proof {
                        assert(false);
                    }
                    0
                },
            };
            let mc = source[i0];
            proof {
                lemma_dedup_props(source@);
                assert(source@.contains(mc)) by {
                    assert(source@[i0 as int] == mc);
                }
                assert(palette@.contains(mc));
                lemma_first_index_props(palette@, mc);
            }
            let idx = match position_of(&palette, mc) {
                Some(i) => i,
                None => {
                    proof {
                        assert(false);
                    }
                    0
                },
            };
            out.push(idx as u8);
            k += 1;
        }
        if self.width == 0 || self.height == 0 {
            return Err(GraphicsError::ImageError);
        }
        proof {
            assert((self.width as int) * (self.height as int) >= 1) by (nonlinear_arith)
                requires
                    self.width >= 1 && self.height >= 1,
            ;
            lemma_dedup_props(colors);
            assert(colors.contains(colors[0]));
            assert(distinct@.contains(colors[0]));
            assert(distinct@.len() > 0);
            assert(source@.len() > 0);
            lemma_dedup_props(source@);
            assert(source@.contains(source@[0]));
            assert(palette@.contains(source@[0]));
            assert(palette@.len() > 0);
        }
        match ii_new(self.width as u8, self.height as u8, &palette, out) {
            Some(img2) => Ok(img2),
            None => {
                proof {
                    assert(false);
                }
                Err(GraphicsError::ImageError)
            },
        }
    }
}

fn copy_colors(src: &Vec<Color>) -> (r: Vec<Color>)
    ensures
        r@ == src@,
{
    let mut out: Vec<Color> = Vec::new();
    let mut i: usize = 0;
    while i < src.len()
        invariant
            i <= src@.len(),
            out@.len() == i,
            forall|j: int| 0 <= j < i ==> out@[j] == src@[j],
        decreases src@.len() - i,
    {
        out.push(src[i]);
        i += 1;
    }
    proof {
        assert(out@ =~= src@);
    }
    out
}

/// One column of an indexed blit: rows `y` down, reading the palette
/// index for each cell; out-of-range indices draw nothing.
pub open spec fn idx_col_buf(
    g: Graphics,
    buf: Seq<u8>,
    pal: Seq<Color>,
    pix: Seq<u8>,
    iw: int,
    ih: int,
    ox: int,
    oy: int,
    x: int,
    y: int,
) -> Seq<u8>
    decreases ih - y,
    when y <= ih
{
    if y >= ih {
        buf
    } else {
        let i = x + y * iw;
        let b2 = if 0 <= i < pix.len() && pix[i] < pal.len() {
            upd_buf(g, buf, ox + x, oy + y, pal[pix[i] as int])
        } else {
            buf
        };
        idx_col_buf(g, b2, pal, pix, iw, ih, ox, oy, x, y + 1)
    }
}

/// An indexed blit, column-major from column `x` on.
pub open spec fn idx_blit_buf(
    g: Graphics,
    buf: Seq<u8>,
    pal: Seq<Color>,
    pix: Seq<u8>,
    iw: int,
    ih: int,
    ox: int,
    oy: int,
    x: int,
) -> Seq<u8>
    decreases iw - x,
    when x <= iw
{
    if x >= iw {
        buf
    } else {
        idx_blit_buf(
            g,
            idx_col_buf(g, buf, pal, pix, iw, ih, ox, oy, x, 0),
            pal,
            pix,
            iw,
            ih,
            ox,
            oy,
            x + 1,
        )
    }
}

/// Blit a palette-indexed pixel grid at `(ox, oy)`: each cell's palette
/// color goes through the pixel pipeline, column by column.  A cell whose
/// index lies outside the palette draws nothing.
fn blit_indexed(
    graphics: &mut Graphics,
    palette: &Vec<Color>,
    pixels: &Vec<u8>,
    w: usize,
    h: usize,
    ox: i128,
    oy: i128,
)
    requires
        gfx_wf(*old(graphics)),
        w <= 255,
        h <= 255,
        -0x1_0000_0000_0000_0000 <= ox <= 0x1_0000_0000_0000_0000,
        -0x1_0000_0000_0000_0000 <= oy <= 0x1_0000_0000_0000_0000,
    ensures
        gfx_wf(*final(graphics)),
        *final(graphics) == (Graphics { buffer: final(graphics).buffer, ..*old(graphics) }),
        final(graphics).buffer@ == idx_blit_buf(
            *old(graphics),
            old(graphics).buffer@,
            palette@,
            pixels@,
            w as int,
            h as int,
            ox as int,
            oy as int,
            0,
        ),
{
    let ghost pal = palette@;
    let ghost pixs = pixels@;
    let mut x: usize = 0;
    while x < w
        invariant
            x <= w,
            palette@ == pal,
            pixels@ == pixs,
            w <= 255,
            h <= 255,
            -0x1_0000_0000_0000_0000 <= ox <= 0x1_0000_0000_0000_0000,
            -0x1_0000_0000_0000_0000 <= oy <= 0x1_0000_0000_0000_0000,
            gfx_wf(*graphics),
            *graphics == (Graphics { buffer: graphics.buffer, ..*old(graphics) }),
            idx_blit_buf(
                *old(graphics),
                old(graphics).buffer@,
                pal,
                pixs,
                w as int,
                h as int,
                ox as int,
                oy as int,
                0,
            ) == idx_blit_buf(
                *old(graphics),
                graphics.buffer@,
                pal,
                pixs,
                w as int,
                h as int,
                ox as int,
                oy as int,
                x as int,
            ),
        decreases w - x,
    {
        let mut y: usize = 0;
        while y < h
            invariant
                x < w,
                y <= h,
                w <= 255,
                h <= 255,
                palette@ == pal,
                pixels@ == pixs,
                -0x1_0000_0000_0000_0000 <= ox <= 0x1_0000_0000_0000_0000,
                -0x1_0000_0000_0000_0000 <= oy <= 0x1_0000_0000_0000_0000,
                gfx_wf(*graphics),
                *graphics == (Graphics { buffer: graphics.buffer, ..*old(graphics) }),
                idx_blit_buf(
                    *old(graphics),
                    old(graphics).buffer@,
                    pal,
                    pixs,
                    w as int,
                    h as int,
                    ox as int,
                    oy as int,
                    0,
                ) == idx_blit_buf(
                    *old(graphics),
                    idx_col_buf(
                        *old(graphics),
                        graphics.buffer@,
                        pal,
                        pixs,
                        w as int,
                        h as int,
                        ox as int,
                        oy as int,
                        x as int,
                        y as int,
                    ),
                    pal,
                    pixs,
                    w as int,
                    h as int,
                    ox as int,
                    oy as int,
                    x as int + 1,
                ),
            decreases h - y,
        {
            proof {
                assert((y as int) * (w as int) <= 65025) by (nonlinear_arith)
                    requires
                        0 <= y <= 255 && 0 <= w <= 255,
                ;
            }
            let i = x + y * w;
            if i < pixels.len() && (pixels[i] as usize) < palette.len() {
                let color = palette[pixels[i] as usize];
                let ghost pre = *graphics;
                graphics.update_pixel_wide(ox + x as i128, oy + y as i128, color);
                proof {
                    lemma_upd_buf_config(
                        *old(graphics),
                        pre,
                        pre.buffer@,
                        ox + x as int,
                        oy + y as int,
                        color,
                    );
                }
            }
            y += 1;
        }
        x += 1;
    }
}

impl Graphics {
    /// Blit an interchange indexed image at `xy`: each cell's palette
    /// color goes through the pixel pipeline, column by column.  A cell
    /// whose index lies outside the palette draws nothing.
    pub fn draw_indexed_image(&mut self, xy: Coord, image: &InterchangeImage)
        requires
            gfx_wf(*old(self)),
        ensures
            gfx_wf(*final(self)),
            *final(self) == (Graphics { buffer: final(self).buffer, ..*old(self) }),
            final(self).buffer@ == idx_blit_buf(
                *old(self),
                old(self).buffer@,
                ici_palette(*image),
                ici_pixels(*image),
                ici_size(*image).0,
                ici_size(*image).1,
                xy.x as int,
                xy.y as int,
                0,
            ),
    {
        let palette = ii_get_palette(image);
        let pixels = ii_get_pixels(image);
        let (w8, h8) = ii_size(image);
        blit_indexed(
            self,
            &palette,
            &pixels,
            w8 as usize,
            h8 as usize,
            xy.x as i128,
            xy.y as i128,
        );
    }

    /// Blit an animated interchange image's current frame at `xy`, the
    /// same way a static indexed image is blitted.
    pub fn draw_animated_image(&mut self, xy: Coord, image: &AnimatedInterchangeImage)
        requires
            gfx_wf(*old(self)),
        ensures
            gfx_wf(*final(self)),
            *final(self) == (Graphics { buffer: final(self).buffer, ..*old(self) }),
            final(self).buffer@ == idx_blit_buf(
                *old(self),
                old(self).buffer@,
                anim_palette(*image),
                anim_frame(*image),
                anim_size(*image).0,
                anim_size(*image).1,
                xy.x as int,
                xy.y as int,
                0,
            ),
    {
        let palette = ai_get_palette(image);
        let frame = ai_current_frame(image);
        let (w8, h8) = ai_size(image);
        blit_indexed(
            self,
            &palette,
            &frame,
            w8 as usize,
            h8 as usize,
            xy.x as i128,
            xy.y as i128,
        );
    }

    /// Blit a wrapped indexed image: a static one draws its pixels, an
    /// animated one its current frame.
    pub fn draw_wrapped_image(&mut self, xy: Coord, image: &IndexedWrapper)
        requires
            gfx_wf(*old(self)),
        ensures
            gfx_wf(*final(self)),
            *final(self) == (Graphics { buffer: final(self).buffer, ..*old(self) }),
            final(self).buffer@ == (match image {
                IndexedWrapper::Static(img) => idx_blit_buf(
                    *old(self),
                    old(self).buffer@,
                    ici_palette(*img),
                    ici_pixels(*img),
                    ici_size(*img).0,
                    ici_size(*img).1,
                    xy.x as int,
                    xy.y as int,
                    0,
                ),
                IndexedWrapper::Animated(img) => idx_blit_buf(
                    *old(self),
                    old(self).buffer@,
                    anim_palette(*img),
                    anim_frame(*img),
                    anim_size(*img).0,
                    anim_size(*img).1,
                    xy.x as int,
                    xy.y as int,
                    0,
                ),
            }),
    {
        match image {
            IndexedWrapper::Static(img) => self.draw_indexed_image(xy, img),
            IndexedWrapper::Animated(img) => self.draw_animated_image(xy, img),
        }
    }
}

/// A static or animated indexed image, drawn through one entry point.
pub enum IndexedWrapper {
    Static(InterchangeImage),
    Animated(AnimatedInterchangeImage),
}

} // verus!

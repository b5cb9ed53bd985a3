//! Palette-indexed images: a small color table plus one index byte per
//! pixel.

use crate::color::Color;
use crate::image::Image;
use crate::image::image_wf;
use vstd::prelude::*;

verus! {

/// The reserved index meaning "no color": such pixels are transparent.
pub const TRANSPARENT: u8 = 255;

/// The most colors an indexed palette can hold.
pub const MAX_COLOR_COUNT: usize = 255;

/// Errors of indexed-image construction.
#[derive(Debug, PartialEq, Eq)]
pub enum IndexedImageError {
    /// A character of the input grid is not in the palette.
    UnknownChar(char),
    /// The input grid's lines have different lengths.
    InvalidLineLengths,
    /// The input grid uses more than the maximum number of colors.
    TooManyColors,
}

/// A palette plus one palette index per pixel.
#[derive(Debug, Clone, PartialEq, Eq)]
pub struct IndexedImage {
    pub colors: Vec<Color>,
    pub width: usize,
    pub height: usize,
    pub pixels: Vec<u8>,
}

impl IndexedImage {
    /// Assemble an indexed image from its parts.
    pub fn new(colors: Vec<Color>, width: usize, height: usize, pixels: Vec<u8>) -> (r:
        IndexedImage)
        ensures
            r.colors == colors,
            r.width == width,
            r.height == height,
            r.pixels == pixels,
    {
        IndexedImage { colors, width, height, pixels }
    }

    /// An image of the given size with every pixel set to the transparent
    /// index.
    pub fn new_empty(colors: Vec<Color>, width: usize, height: usize) -> (r: IndexedImage)
        requires
            width * height <= usize::MAX,
        ensures
            r.colors == colors,
            r.width == width,
            r.height == height,
            r.pixels@.len() == width * height,
            forall|i: int| 0 <= i < r.pixels@.len() ==> r.pixels@[i] == 255u8,
    {
        let n: usize = width * height;
        let mut pixels: Vec<u8> = Vec::new();
        let mut i: usize = 0;
        while i < n
            invariant
                i <= n,
                pixels@.len() == i,
                forall|j: int| 0 <= j < i ==> pixels@[j] == 255u8,
            decreases n - i,
        {
            pixels.push(255);
            i += 1;
        }
        IndexedImage { colors, width, height, pixels }
    }

    /// The color an index denotes: the palette entry, or transparent black
    /// for the reserved index.
    pub fn color(&self, idx: u8) -> (r: Color)
        requires
            idx != 255 ==> idx < self.colors@.len(),
        ensures
            r == (if idx == 255 {
                Color { r: 0u8, g: 0u8, b: 0u8, a: 0u8 }
            } else {
                self.colors@[idx as int]
            }),
    {
        if idx != 255 {
            self.colors[idx as usize]
        } else {
            Color { r: 0, g: 0, b: 0, a: 0 }
        }
    }

    /// The palette.
    pub fn colors(&self) -> (r: &Vec<Color>)
        ensures
            r == &self.colors,
    {
        &self.colors
    }

    #[inline]
    pub fn width(&self) -> (r: usize)
        ensures
            r == self.width,
    {
        self.width
    }

    #[inline]
    pub fn height(&self) -> (r: usize)
        ensures
            r == self.height,
    {
        self.height
    }

    /// The per-pixel palette indices.
    pub fn pixels(&self) -> (r: &Vec<u8>)
        ensures
            r == &self.pixels,
    {
        &self.pixels
    }

    /// Install a new palette.  When it is shorter than the old one, pixel
    /// indices at or past its second-to-last entry are reset to zero
    /// (except the reserved transparent index).
    pub fn apply_new_colors(&mut self, colors: Vec<Color>)
        requires
            1 <= colors@.len() <= 255,
            old(self).colors@.len() <= 255,
        ensures
            final(self).colors == colors,
            final(self).width == old(self).width,
            final(self).height == old(self).height,
            final(self).pixels@.len() == old(self).pixels@.len(),
            forall|i: int|
                0 <= i < old(self).pixels@.len() ==> final(self).pixels@[i] == (if colors@.len()
                    < old(self).colors@.len() && old(self).pixels@[i] + 1 >= colors@.len() && old(
                    self,
                ).pixels@[i] != 255 {
                    0u8
                } else {
                    old(self).pixels@[i]
                }),
    {
        let new_max: u8 = colors.len() as u8;
        if (new_max as usize) < self.colors.len() {
            let n = self.pixels.len();
            let mut i: usize = 0;
            while i < n
                invariant
                    i <= n,
                    n == old(self).pixels@.len(),
                    self.pixels@.len() == n,
                    new_max == colors@.len(),
                    new_max >= 1,
                    self.colors == old(self).colors,
                    self.width == old(self).width,
                    self.height == old(self).height,
                    forall|j: int| i <= j < n ==> self.pixels@[j] == old(self).pixels@[j],
                    forall|j: int|
                        0 <= j < i ==> self.pixels@[j] == (if old(self).pixels@[j] + 1
                            >= new_max && old(self).pixels@[j] != 255 {
                            0u8
                        } else {
                            old(self).pixels@[j]
                        }),
                decreases n - i,
            {
                let v = self.pixels[i];
                if v >= new_max - 1 && v != 255 {
                    self.pixels.set(i, 0);
                }
                i += 1;
            }
        }
        self.colors = colors;
    }

    /// Expand the indexed pixels into a flat image.  Palette colors with
    /// zero alpha come out as transparent black, exactly as the pixel
    /// pipeline would leave them.
    pub fn to_image(&self) -> (r: Result<Image, IndexedImageError>)
        requires
            self.width * self.height <= usize::MAX,
            self.pixels@.len() == self.width * self.height,
            forall|i: int| 0 <= i < self.pixels@.len() ==> self.pixels@[i] < self.colors@.len(),
        ensures
            r is Ok,
            image_wf(r->Ok_0),
            r->Ok_0.width == self.width,
            r->Ok_0.height == self.height,
            r->Ok_0.pixels@.len() == self.pixels@.len(),
            forall|i: int|
                0 <= i < self.pixels@.len() ==> r->Ok_0.pixels@[i] == (if self.colors@[self.pixels@[i] as int].a == 0 {
                    Color { r: 0u8, g: 0u8, b: 0u8, a: 0u8 }
                } else {
                    self.colors@[self.pixels@[i] as int]
                }),
    {
        let n = self.pixels.len();
        let mut out: Vec<Color> = Vec::new();
        let mut i: usize = 0;
        while i < n
            invariant
                i <= n,
                n == self.pixels@.len(),
                out@.len() == i,
                forall|j: int| 0 <= j < n ==> self.pixels@[j] < self.colors@.len(),
                forall|j: int|
                    0 <= j < i ==> out@[j] == (if self.colors@[self.pixels@[j] as int].a == 0 {
                        Color { r: 0u8, g: 0u8, b: 0u8, a: 0u8 }
                    } else {
                        self.colors@[self.pixels@[j] as int]
                    }),
            decreases n - i,
        {
            let c = self.colors[self.pixels[i] as usize];
            if c.a == 0 {
                out.push(Color { r: 0, g: 0, b: 0, a: 0 });
            } else {
                out.push(c);
            }
            i += 1;
        }
        match Image::new(out, self.width, self.height) {
            Ok(img) => Ok(img),
            Err(_) => {
                proof {
                    assert(false);
                }
                Err(IndexedImageError::TooManyColors)
            },
        }
    }
}

/// The palette color of a character, scanning pairs front to back.
pub open spec fn palette_color(palette: Seq<(char, Color)>, c: char) -> Option<Color>
    decreases palette.len(),
{
    if palette.len() == 0 {
        Option::None
    } else if palette[0].0 == c {
        Option::Some(palette[0].1)
    } else {
        palette_color(palette.drop_first(), c)
    }
}

/// The colors of a sequence, deduplicated in first-appearance order.
pub open spec fn dedup_colors(s: Seq<Color>) -> Seq<Color>
    decreases s.len(),
{
    if s.len() == 0 {
        Seq::empty()
    } else {
        let d = dedup_colors(s.drop_last());
        if d.contains(s.last()) {
            d
        } else {
            d.push(s.last())
        }
    }
}

/// The palette colors of a character grid, row by row.
pub open spec fn grid_colors(palette: Seq<(char, Color)>, lines: Seq<Seq<char>>) -> Seq<Color>
    decreases lines.len(),
{
    if lines.len() == 0 {
        Seq::empty()
    } else {
        line_colors(palette, lines[0]) + grid_colors(palette, lines.drop_first())
    }
}

/// The palette colors of one grid line.
pub open spec fn line_colors(palette: Seq<(char, Color)>, l: Seq<char>) -> Seq<Color>
    decreases l.len(),
{
    if l.len() == 0 {
        Seq::empty()
    } else {
        (match palette_color(palette, l[0]) {
            Option::Some(c) => seq![c],
            Option::None => Seq::empty(),
        }) + line_colors(palette, l.drop_first())
    }
}

/// Every character of the grid is in the palette.
pub open spec fn grid_known(palette: Seq<(char, Color)>, lines: Seq<Seq<char>>) -> bool {
    forall|i: int, j: int|
        0 <= i < lines.len() && 0 <= j < lines[i].len() ==> palette_color(
            palette,
            #[trigger] lines[i][j],
        ) is Some
}

/// All grid lines have the same length.
pub open spec fn grid_rectangular(lines: Seq<Seq<char>>) -> bool {
    forall|i: int| 0 <= i < lines.len() ==> (#[trigger] lines[i]).len() == lines[0].len()
}

/// Appending one color to a sequence extends its deduplication by at most
/// that color.
proof fn lemma_dedup_snoc(s: Seq<Color>, c: Color)
    ensures
        dedup_colors(s.push(c)) == (if dedup_colors(s).contains(c) {
            dedup_colors(s)
        } else {
            dedup_colors(s).push(c)
        }),
{
    assert(s.push(c).drop_last() =~= s);
    assert(s.push(c).last() == c);
}

/// Deduplicated length never shrinks as the input grows.
proof fn lemma_dedup_len_monotone(s: Seq<Color>, a: int, b: int)
    requires
        0 <= a <= b <= s.len(),
    ensures
        dedup_colors(s.take(a)).len() <= dedup_colors(s.take(b)).len(),
    decreases b - a,
{
    if a < b {
        lemma_dedup_len_monotone(s, a, b - 1);
        assert(s.take(b).drop_last() =~= s.take(b - 1));
    }
}

/// The whole sequence is its own full take.
proof fn lemma_dedup_full(s: Seq<Color>)
    ensures
        dedup_colors(s.take(s.len() as int)) == dedup_colors(s),
{
    assert(s.take(s.len() as int) =~= s);
}

/// One more known character extends a line's color list by one.
proof fn lemma_line_colors_snoc(palette: Seq<(char, Color)>, l: Seq<char>, j: int)
    requires
        0 <= j < l.len(),
        palette_color(palette, l[j]) is Some,
    ensures
        line_colors(palette, l.take(j + 1)) == line_colors(palette, l.take(j)) + seq![
            palette_color(palette, l[j])->Some_0,
        ],
    decreases j + 1,
{
    if j == 0 {
        assert(l.take(1)[0] == l[0]);
        assert(l.take(1).drop_first() =~= Seq::<char>::empty());
        assert(l.take(0) =~= Seq::<char>::empty());
        assert(line_colors(palette, l.take(1)) =~= line_colors(palette, l.take(0)) + seq![
            palette_color(palette, l[0])->Some_0,
        ]);
    } else {
        lemma_line_colors_snoc(palette, l.drop_first(), j - 1);
        assert(l.take(j + 1)[0] == l[0]);
        assert(l.take(j)[0] == l[0]);
        assert(l.take(j + 1).drop_first() =~= l.drop_first().take(j));
        assert(l.take(j).drop_first() =~= l.drop_first().take(j - 1));
        assert(l.drop_first()[j - 1] == l[j]);
        assert(line_colors(palette, l.take(j + 1)) =~= line_colors(palette, l.take(j)) + seq![
            palette_color(palette, l[j])->Some_0,
        ]);
    }
}

/// One more row extends the grid's color list by that row's colors.
proof fn lemma_grid_colors_snoc(palette: Seq<(char, Color)>, lines: Seq<Seq<char>>, i: int)
    requires
        0 <= i < lines.len(),
    ensures
        grid_colors(palette, lines.take(i + 1)) == grid_colors(palette, lines.take(i))
            + line_colors(palette, lines[i]),
    decreases i + 1,
{
    if i == 0 {
        assert(lines.take(1)[0] == lines[0]);
        assert(lines.take(1).drop_first() =~= Seq::<Seq<char>>::empty());
        assert(lines.take(0) =~= Seq::<Seq<char>>::empty());
        assert(grid_colors(palette, lines.take(1)) =~= grid_colors(palette, lines.take(0))
            + line_colors(palette, lines[0]));
    } else {
        lemma_grid_colors_snoc(palette, lines.drop_first(), i - 1);
        assert(lines.take(i + 1)[0] == lines[0]);
        assert(lines.take(i)[0] == lines[0]);
        assert(lines.take(i + 1).drop_first() =~= lines.drop_first().take(i));
        assert(lines.take(i).drop_first() =~= lines.drop_first().take(i - 1));
        assert(lines.drop_first()[i - 1] == lines[i]);
        assert(grid_colors(palette, lines.take(i + 1)) =~= grid_colors(palette, lines.take(i))
            + line_colors(palette, lines[i]));
    }
}

/// Look a character up in the palette, front to back.
fn find_palette_color(palette: &Vec<(char, Color)>, c: char) -> (r: Option<Color>)
    ensures
        r == palette_color(palette@, c),
{
    let mut i: usize = 0;
    proof {
        assert(palette@.skip(0) =~= palette@);
    }
    while i < palette.len()
        invariant
            i <= palette@.len(),
            palette_color(palette@, c) == palette_color(palette@.skip(i as int), c),
        decreases palette@.len() - i,
    {
        proof {
            assert(palette@.skip(i as int)[0] == palette@[i as int]);
            assert(palette@.skip(i as int).drop_first() =~= palette@.skip(i as int + 1));
        }
        if palette[i].0 == c {
            return Some(palette[i].1);
        }
        i += 1;
    }
    None
}

/// Build an indexed image from a character grid and a palette.
///
/// The input splits at newlines into equally long rows; every character
/// maps through the palette, colors are deduplicated in first-appearance
/// order, and each pixel stores its color's palette index.  Fails when the
/// rows differ in length, a character is unknown, or more than the maximum
/// number of colors appears.
pub fn create_image_from_string(palette: &Vec<(char, Color)>, input: &str) -> (r: Result<
    IndexedImage,
    IndexedImageError,
>)
    ensures
        ({
            let lines = crate::wrapping::split_lines(input@);
            let ok = grid_rectangular(lines) && grid_known(palette@, lines) && dedup_colors(
                grid_colors(palette@, lines),
            ).len() <= 255;
            &&& (r is Ok <==> ok)
            &&& (r == Err::<IndexedImage, IndexedImageError>(IndexedImageError::InvalidLineLengths)
                <==> !grid_rectangular(lines))
            &&& (r matches Err(IndexedImageError::UnknownChar(c)) ==> grid_rectangular(lines)
                && palette_color(palette@, c) is None && (exists|i: int, j: int|
                {
                    &&& 0 <= i < lines.len() && 0 <= j < lines[0].len()
                    &&& #[trigger] lines[i][j] == c
                    &&& grid_known(palette@, lines.take(i))
                    &&& forall|jj: int|
                        0 <= jj < j ==> palette_color(palette@, #[trigger] lines[i][jj]) is Some
                    &&& dedup_colors(
                        grid_colors(palette@, lines.take(i)) + line_colors(
                            palette@,
                            lines[i].take(j),
                        ),
                    ).len() <= 255
                }))
            &&& (r == Err::<IndexedImage, IndexedImageError>(IndexedImageError::TooManyColors)
                ==> grid_rectangular(lines) && dedup_colors(grid_colors(palette@, lines)).len()
                > 255 && (exists|i: int, j: int|
                {
                    &&& 0 <= i < lines.len() && 0 <= j < lines[0].len()
                    &&& palette_color(palette@, #[trigger] lines[i][j]) is Some
                    &&& grid_known(palette@, lines.take(i))
                    &&& forall|jj: int|
                        0 <= jj < j ==> palette_color(palette@, #[trigger] lines[i][jj]) is Some
                    &&& dedup_colors(
                        grid_colors(palette@, lines.take(i)) + line_colors(
                            palette@,
                            lines[i].take(j),
                        ),
                    ).len() == 255
                    &&& dedup_colors(
                        grid_colors(palette@, lines.take(i)) + line_colors(
                            palette@,
                            lines[i].take(j + 1),
                        ),
                    ).len() == 256
                }))
            &&& (r matches Ok(img) ==> {
                &&& img.width == lines[0].len()
                &&& img.height == lines.len()
                &&& img.colors@ == dedup_colors(grid_colors(palette@, lines))
                &&& img.pixels@.len() == lines.len() * lines[0].len()
                &&& forall|i: int, j: int|
                    0 <= i < lines.len() && 0 <= j < lines[0].len()
                        ==> img.pixels@[#[trigger] crate::clipping::pix_idx(
                        lines[0].len() as int,
                        j,
                        i,
                    )] < img.colors@.len() && img.colors@[img.pixels@[crate::clipping::pix_idx(
                        lines[0].len() as int,
                        j,
                        i,
                    )] as int] == palette_color(palette@, lines[i][j])->Some_0
            })
        }),
{
    let cs = crate::wrapping::chars_of(input);
    let rows = crate::wrapping::split_input(&cs);
    let ghost lines = crate::wrapping::split_lines(input@);
    proof {
        crate::wrapping::lemma_split_lines_nonempty(input@);
        assert(rows@.len() == lines.len());
    }
    let width = rows[0].len();
    proof {
        assert(rows.deep_view()[0] == rows@[0].deep_view());
        assert(rows@[0].deep_view() =~= rows@[0]@);
    }
    let mut i: usize = 0;
    while i < rows.len()
        invariant
            i <= rows@.len(),
            rows.deep_view() == lines,
            lines == crate::wrapping::split_lines(input@),
            width == lines[0].len(),
            forall|k: int| 0 <= k < i ==> (#[trigger] lines[k]).len() == lines[0].len(),
        decreases rows@.len() - i,
    {
        proof {
            assert(rows.deep_view()[i as int] == rows@[i as int].deep_view());
            assert(rows@[i as int].deep_view() =~= rows@[i as int]@);
        }
        if rows[i].len() != width {
            proof {
                assert(!grid_rectangular(lines));
            }
            return Err(IndexedImageError::InvalidLineLengths);
        }
        i += 1;
    }
    proof {
        assert(grid_rectangular(lines));
    }
    let height = rows.len();
    proof {
        assert(lines.take(0) =~= Seq::<Seq<char>>::empty());
        crate::clipping::lemma_grid_index_bound(1, 1, 0, 0);
    }
    let mut colors: Vec<Color> = Vec::new();
    let mut pixels: Vec<u8> = Vec::new();
    let ghost pal = palette@;
    let mut r: usize = 0;
    while r < height
        invariant
            r <= height,
            height == rows@.len(),
            rows.deep_view() == lines,
            lines == crate::wrapping::split_lines(input@),
            width == lines[0].len(),
            grid_rectangular(lines),
            pal == palette@,
            pixels@.len() == r * width,
            colors@.len() <= 255,
            colors@ == dedup_colors(grid_colors(pal, lines.take(r as int))),
            forall|ii: int, jj: int|
                0 <= ii < r && 0 <= jj < width ==> palette_color(pal, lines[ii][jj]) is Some,
            forall|ii: int, jj: int|
                0 <= ii < r && 0 <= jj < width ==> pixels@[#[trigger] crate::clipping::pix_idx(
                    width as int,
                    jj,
                    ii,
                )] < colors@.len() && colors@[pixels@[crate::clipping::pix_idx(
                    width as int,
                    jj,
                    ii,
                )] as int] == palette_color(pal, lines[ii][jj])->Some_0,
        decreases height - r,
    {
        let mut c: usize = 0;
        proof {
            assert(lines[r as int].take(0) =~= Seq::<char>::empty());
            lemma_grid_colors_snoc(pal, lines, r as int);
        }
        while c < width
            invariant
                c <= width,
                r < height,
                height == rows@.len(),
                rows.deep_view() == lines,
                lines == crate::wrapping::split_lines(input@),
                width == lines[0].len(),
                grid_rectangular(lines),
                pal == palette@,
                pixels@.len() == r * width + c,
                colors@.len() <= 255,
                colors@ == dedup_colors(
                    grid_colors(pal, lines.take(r as int)) + line_colors(
                        pal,
                        lines[r as int].take(c as int),
                    ),
                ),
                forall|jj: int|
                    0 <= jj < c ==> palette_color(pal, lines[r as int][jj]) is Some,
                forall|ii: int, jj: int|
                    0 <= ii < r && 0 <= jj < width ==> palette_color(pal, lines[ii][jj]) is Some,
                forall|ii: int, jj: int|
                    (0 <= ii < r && 0 <= jj < width) || (ii == r && 0 <= jj < c)
                        ==> pixels@[#[trigger] crate::clipping::pix_idx(width as int, jj, ii)]
                        < colors@.len() && colors@[pixels@[crate::clipping::pix_idx(
                        width as int,
                        jj,
                        ii,
                    )] as int] == palette_color(pal, lines[ii][jj])->Some_0,
            decreases width - c,
        {
            proof {
                assert(rows.deep_view()[r as int] == rows@[r as int].deep_view());
                assert(rows@[r as int].deep_view() =~= rows@[r as int]@);
                assert(lines[r as int].len() == width);
            }
            let chr = rows[r][c];
            proof {
                assert(lines[r as int][c as int] == chr);
            }
            let color = match find_palette_color(palette, chr) {
                Some(col) => col,
                None => {
                    proof {
                        assert(!grid_known(pal, lines));
                        assert(grid_known(pal, lines.take(r as int))) by {
                            assert forall|ii: int, jj: int|
                                0 <= ii < lines.take(r as int).len() && 0 <= jj < lines.take(
                                    r as int,
                                )[ii].len() implies palette_color(
                                pal,
                                #[trigger] lines.take(r as int)[ii][jj],
                            ) is Some by {
                                assert(lines.take(r as int)[ii] == lines[ii]);
                                assert(lines[ii].len() == lines[0].len());
                            }
                        }
                        assert(0 <= r < lines.len() && 0 <= c < lines[0].len()
                            && lines[r as int][c as int] == chr);
                    }
                    return Err(IndexedImageError::UnknownChar(chr));
                },
            };
            let ghost pre_colors = colors@;
            let ghost processed = grid_colors(pal, lines.take(r as int)) + line_colors(
                pal,
                lines[r as int].take(c as int),
            );
            let mut idx: usize = 0;
            let mut found = false;
            while idx < colors.len() && !found
                invariant
                    idx <= colors@.len(),
                    colors@ == pre_colors,
                    found ==> idx < colors@.len() && colors@[idx as int] == color && (forall|
                        k: int,
                    | 0 <= k < idx ==> colors@[k] != color),
                    !found ==> forall|k: int| 0 <= k < idx ==> colors@[k] != color,
                decreases colors@.len() - idx + (if found {
                    0int
                } else {
                    1int
                }),
            {
                if colors[idx] == color {
                    found = true;
                } else {
                    idx += 1;
                }
            }
            proof {
                lemma_line_colors_snoc(pal, lines[r as int], c as int);
                lemma_dedup_snoc(processed, color);
                assert(processed.push(color) =~= grid_colors(pal, lines.take(r as int))
                    + line_colors(pal, lines[r as int].take(c as int + 1)));
                if found {
                    assert(dedup_colors(processed).contains(color));
                } else {
                    assert(forall|k: int| 0 <= k < colors@.len() ==> colors@[k] != color);
                    assert(!dedup_colors(processed).contains(color));
                }
            }
            if !found {
                if colors.len() >= 255 {
                    proof {
                        let all = grid_colors(pal, lines);
                        assert(dedup_colors(processed.push(color)).len() > 255);
                        assert(lines[r as int].take(lines[r as int].len() as int)
                            =~= lines[r as int]);
                        lemma_line_colors_prefix_of_grid(pal, lines, r as int, c as int + 1);
                        assert(dedup_colors(all).len() > 255);
                        assert(grid_known(pal, lines.take(r as int))) by {
                            assert forall|ii: int, jj: int|
                                0 <= ii < lines.take(r as int).len() && 0 <= jj < lines.take(
                                    r as int,
                                )[ii].len() implies palette_color(
                                pal,
                                #[trigger] lines.take(r as int)[ii][jj],
                            ) is Some by {
                                assert(lines.take(r as int)[ii] == lines[ii]);
                                assert(lines[ii].len() == lines[0].len());
                            }
                        }
                        assert(palette_color(pal, lines[r as int][c as int]) is Some);
                        assert(dedup_colors(processed).len() == 255);
                        assert(dedup_colors(
                            grid_colors(pal, lines.take(r as int)) + line_colors(
                                pal,
                                lines[r as int].take(c as int + 1),
                            ),
                        ).len() == 256);
                        assert(0 <= r < lines.len() && 0 <= c < lines[0].len());
                    }
                    return Err(IndexedImageError::TooManyColors);
                }
                colors.push(color);
                idx = colors.len() - 1;
            }
            pixels.push(idx as u8);
            proof {
                crate::clipping::lemma_grid_index_bound(width as int, height as int, c as int, r as int);
                assert(pixels@.len() == r * width + c + 1);
                assert forall|ii: int, jj: int|
                    (0 <= ii < r && 0 <= jj < width) || (ii == r && 0 <= jj < c + 1)
                        implies pixels@[#[trigger] crate::clipping::pix_idx(width as int, jj, ii)]
                        < colors@.len() && colors@[pixels@[crate::clipping::pix_idx(
                    width as int,
                    jj,
                    ii,
                )] as int] == palette_color(pal, lines[ii][jj])->Some_0 by {
                    crate::clipping::lemma_grid_index_bound(width as int, height as int, jj, ii);
                    let p = crate::clipping::pix_idx(width as int, jj, ii);
                    if ii == r && jj == c {
                        assert(p == pixels@.len() - 1);
                    } else {
                        assert(p < r * width + c) by (nonlinear_arith)
                            requires
                                p == jj + ii * width && 0 <= jj < width && 0 <= ii && (ii < r || (
                                ii == r && jj < c)) && width >= 1,
                        ;
                    }
                }
            }
            c += 1;
        }
        proof {
            assert(lines[r as int].take(width as int) =~= lines[r as int]);
            assert(colors@ == dedup_colors(grid_colors(pal, lines.take(r as int + 1))));
            assert((r + 1) * width == r * width + width) by (nonlinear_arith);
        }
        r += 1;
    }
    proof {
        assert(lines.take(height as int) =~= lines);
        assert forall|i: int, j: int|
            0 <= i < lines.len() && 0 <= j < lines[i].len() implies palette_color(
            pal,
            #[trigger] lines[i][j],
        ) is Some by {
            assert(lines[i].len() == width);
        }
        assert(grid_known(pal, lines));
    }
    Ok(IndexedImage { colors, width, height, pixels })
}

/// A partially consumed grid never holds more distinct colors than the
/// whole grid.
proof fn lemma_line_colors_prefix_of_grid(
    palette: Seq<(char, Color)>,
    lines: Seq<Seq<char>>,
    r: int,
    c: int,
)
    requires
        0 <= r < lines.len(),
        0 <= c <= lines[r].len(),
    ensures
        dedup_colors(
            grid_colors(palette, lines.take(r)) + line_colors(palette, lines[r].take(c)),
        ).len() <= dedup_colors(grid_colors(palette, lines)).len(),
{
    let part = grid_colors(palette, lines.take(r)) + line_colors(palette, lines[r].take(c));
    let all = grid_colors(palette, lines);
    lemma_part_is_prefix(palette, lines, r, c);
    let k = part.len();
    assert(all.take(k as int) == part);
    lemma_dedup_len_monotone(all, k as int, all.len() as int);
    lemma_dedup_full(all);
}

/// The colors consumed so far form a prefix of the whole grid's colors.
proof fn lemma_part_is_prefix(palette: Seq<(char, Color)>, lines: Seq<Seq<char>>, r: int, c: int)
    requires
        0 <= r < lines.len(),
        0 <= c <= lines[r].len(),
    ensures
        ({
            let part = grid_colors(palette, lines.take(r)) + line_colors(
                palette,
                lines[r].take(c),
            );
            part.len() <= grid_colors(palette, lines).len() && grid_colors(palette, lines).take(
                part.len() as int,
            ) == part
        }),
    decreases lines.len(),
{
    lemma_grid_line_decompose(palette, lines, r, c);
}

/// Decomposition of the grid's colors at a row/column point.
proof fn lemma_grid_line_decompose(
    palette: Seq<(char, Color)>,
    lines: Seq<Seq<char>>,
    r: int,
    c: int,
)
    requires
        0 <= r < lines.len(),
        0 <= c <= lines[r].len(),
    ensures
        ({
            let part = grid_colors(palette, lines.take(r)) + line_colors(
                palette,
                lines[r].take(c),
            );
            exists|rest: Seq<Color>| grid_colors(palette, lines) == part + rest
        }),
    decreases lines.len() - r, lines[r].len() - c,
{
    if c < lines[r].len() {
        lemma_grid_line_decompose(palette, lines, r, c + 1);
        lemma_line_colors_snoc_or_same(palette, lines[r], c);
        let part1 = grid_colors(palette, lines.take(r)) + line_colors(
            palette,
            lines[r].take(c + 1),
        );
        let part0 = grid_colors(palette, lines.take(r)) + line_colors(palette, lines[r].take(c));
        let rest1 = choose|rest: Seq<Color>| grid_colors(palette, lines) == part1 + rest;
        if palette_color(palette, lines[r][c]) is Some {
            let cc = palette_color(palette, lines[r][c])->Some_0;
            assert(part1 =~= part0 + seq![cc]);
            assert(grid_colors(palette, lines) =~= part0 + (seq![cc] + rest1));
        } else {
            assert(part1 =~= part0);
            assert(grid_colors(palette, lines) =~= part0 + rest1);
        }
    } else {
        if r + 1 < lines.len() {
            lemma_grid_line_decompose(palette, lines, r + 1, 0);
            let part1 = grid_colors(palette, lines.take(r + 1)) + line_colors(
                palette,
                lines[r + 1].take(0),
            );
            let part0 = grid_colors(palette, lines.take(r)) + line_colors(
                palette,
                lines[r].take(c),
            );
            let rest1 = choose|rest: Seq<Color>| grid_colors(palette, lines) == part1 + rest;
            lemma_grid_colors_snoc(palette, lines, r);
            assert(lines[r].take(c) =~= lines[r]);
            assert(lines[r + 1].take(0) =~= Seq::<char>::empty());
            assert(part1 =~= part0);
            assert(grid_colors(palette, lines) =~= part0 + rest1);
        } else {
            lemma_grid_colors_snoc(palette, lines, r);
            assert(lines.take(r + 1) =~= lines);
            assert(lines[r].take(c) =~= lines[r]);
            let part0 = grid_colors(palette, lines.take(r)) + line_colors(
                palette,
                lines[r].take(c),
            );
            assert(grid_colors(palette, lines) =~= part0 + Seq::<Color>::empty());
        }
    }
}

/// Consuming one more character either appends its color or (when
/// unknown) changes nothing.
proof fn lemma_line_colors_snoc_or_same(palette: Seq<(char, Color)>, l: Seq<char>, j: int)
    requires
        0 <= j < l.len(),
    ensures
        line_colors(palette, l.take(j + 1)) == line_colors(palette, l.take(j)) + (match
            palette_color(palette, l[j]) {
            Option::Some(cc) => seq![cc],
            Option::None => Seq::<Color>::empty(),
        }),
    decreases j + 1,
{
    if j == 0 {
        assert(l.take(1)[0] == l[0]);
        assert(l.take(1).drop_first() =~= Seq::<char>::empty());
        assert(l.take(0) =~= Seq::<char>::empty());
        assert(line_colors(palette, l.take(1)) =~= line_colors(palette, l.take(0)) + (match
            palette_color(palette, l[0]) {
            Option::Some(cc) => seq![cc],
            Option::None => Seq::<Color>::empty(),
        }));
    } else {
        lemma_line_colors_snoc_or_same(palette, l.drop_first(), j - 1);
        assert(l.take(j + 1)[0] == l[0]);
        assert(l.take(j)[0] == l[0]);
        assert(l.take(j + 1).drop_first() =~= l.drop_first().take(j));
        assert(l.take(j).drop_first() =~= l.drop_first().take(j - 1));
        assert(l.drop_first()[j - 1] == l[j]);
        assert(line_colors(palette, l.take(j + 1)) =~= line_colors(palette, l.take(j)) + (match
            palette_color(palette, l[j]) {
            Option::Some(cc) => seq![cc],
            Option::None => Seq::<Color>::empty(),
        }));
    }
}

} // verus!

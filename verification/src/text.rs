//! Bitmap text: fonts, character-to-glyph mapping, layout and rendering.

use crate::color::Color;
use crate::drawing::CustomLetter;
use crate::drawing::Graphics;
use crate::drawing::gfx_wf;
use crate::drawing::paint;
use crate::drawing::upd_buf;
use crate::drawing::lemma_upd_buf_config;
use crate::font::limited_3x5;
use crate::font::standard_6x7;
use crate::format::TextFormat;
use crate::format::anchor_shift;
use crate::format::x_kind;
use crate::format::y_kind;
use crate::pos::TextPos;
use crate::pos::spec_to_coord;
use crate::wrapping::WrappingStrategy;
use crate::wrapping::chars_of;
use crate::wrapping::strategy_wf;
use crate::wrapping::wrap_spec;
use vstd::prelude::*;

verus! {

/// Reserved glyph code for the degree sign.
pub const ASCII_DEGREE: u8 = 176;

/// Reserved glyph code for the generic currency sign.
pub const ASCII_CURRENCY: u8 = 164;

/// Reserved glyph code for the euro sign.
pub const ASCII_EURO: u8 = 127;

/// Reserved glyph code for the pound sign.
pub const ASCII_POUND: u8 = 163;

/// Reserved glyph code for the yen sign.
pub const ASCII_YEN: u8 = 165;

/// Reserved glyph code for the cent sign.
pub const ASCII_CENT: u8 = 162;

/// Reserved glyph code for the horizontal ellipsis.
pub const ASCII_ELLIPSIS: u8 = 31;

/// Reserved glyph code for the check mark.
pub const ASCII_CHECK: u8 = 25;

/// The glyph code of a character: ASCII characters use their own code, a
/// few supported symbols use reserved codes, anything else maps to 0 and
/// renders as the unknown glyph.
pub open spec fn spec_chr_to_code(chr: char) -> u8 {
    if (chr as u32) < 128 {
        chr as u8
    } else if chr == '\u{b0}' {
        176u8
    } else if chr == '\u{2026}' {
        31u8
    } else if chr == '\u{a4}' {
        164u8
    } else if chr == '\u{a3}' {
        163u8
    } else if chr == '\u{a5}' {
        165u8
    } else if chr == '\u{a2}' {
        162u8
    } else if chr == '\u{2713}' {
        25u8
    } else if chr == '\u{20ac}' {
        127u8
    } else {
        0u8
    }
}

/// The glyph code a character is drawn with.
pub fn chr_to_code(chr: char) -> (r: u8)
    ensures
        r == spec_chr_to_code(chr),
{
    let v = chr as u32;
    if v < 128 {
        v as u8
    } else {
        match chr {
            '\u{b0}' => 176,
            '\u{2026}' => 31,
            '\u{a4}' => 164,
            '\u{a3}' => 163,
            '\u{a5}' => 165,
            '\u{a2}' => 162,
            '\u{2713}' => 25,
            '\u{20ac}' => 127,
            _ => 0,
        }
    }
}

/// A built-in fixed-size bitmap font.
#[derive(Copy, Clone, Debug, Hash, Eq, PartialEq, Structural)]
pub enum PixelFont {
    Standard6x7,
    Limited3x5,
}

impl Default for PixelFont {
    /// The standard 6x7 font.
    fn default() -> (r: PixelFont)
        ensures
            r is Standard6x7,
    {
        PixelFont::Standard6x7
    }
}

impl PixelFont {
    /// Glyph cell width in pixels.
    pub open spec fn spec_width(&self) -> int {
        match self {
            PixelFont::Standard6x7 => 6,
            PixelFont::Limited3x5 => 3,
        }
    }

    /// Glyph cell height in pixels.
    pub open spec fn spec_height(&self) -> int {
        match self {
            PixelFont::Standard6x7 => 7,
            PixelFont::Limited3x5 => 5,
        }
    }

    /// Blank pixels between letters.
    pub open spec fn spec_spacing(&self) -> int {
        match self {
            PixelFont::Standard6x7 => 1,
            PixelFont::Limited3x5 => 1,
        }
    }

    pub open spec fn spec_char_width(&self) -> int {
        self.spec_width() + self.spec_spacing()
    }

    pub open spec fn spec_line_height(&self) -> int {
        self.spec_height() + self.spec_spacing()
    }

    /// The built-in glyph bitmap for a code.
    pub open spec fn spec_pixels(&self, code: u8) -> Seq<bool> {
        match self {
            PixelFont::Standard6x7 => standard_6x7::spec_glyph(code),
            PixelFont::Limited3x5 => limited_3x5::spec_glyph(code),
        }
    }

    /// Cell width and height in pixels.
    pub fn size(&self) -> (r: (usize, usize))
        ensures
            r.0 == self.spec_width(),
            r.1 == self.spec_height(),
    {
        match self {
            PixelFont::Standard6x7 => (6, 7),
            PixelFont::Limited3x5 => (3, 5),
        }
    }

    /// Blank pixels between letters.
    pub fn spacing(&self) -> (r: usize)
        ensures
            r == self.spec_spacing(),
    {
        1
    }

    /// Horizontal advance per character.
    pub fn char_width(&self) -> (r: usize)
        ensures
            r == self.spec_char_width(),
    {
        match self {
            PixelFont::Standard6x7 => 7,
            PixelFont::Limited3x5 => 4,
        }
    }

    /// Vertical advance per line.
    pub fn line_height(&self) -> (r: usize)
        ensures
            r == self.spec_line_height(),
    {
        match self {
            PixelFont::Standard6x7 => 8,
            PixelFont::Limited3x5 => 6,
        }
    }

    /// The glyph bitmap for a code, row-major over the cell.
    pub fn pixels(&self, code: u8) -> (r: Vec<bool>)
        ensures
            r@ == self.spec_pixels(code),
            r@.len() == self.spec_width() * self.spec_height(),
    {
        match self {
            PixelFont::Standard6x7 => standard_6x7::get_px_ascii(code),
            PixelFont::Limited3x5 => limited_3x5::get_px_ascii(code),
        }
    }

    /// How many whole columns fit in `px` pixels.
    pub fn px_to_cols(&self, px: usize) -> (r: usize)
        ensures
            r == px as int / self.spec_char_width(),
    {
        px / self.char_width()
    }

    /// The largest column and row drawable on a `screen_width` by
    /// `screen_height` surface, or zeros when not even one glyph fits.
    pub fn get_max_characters(&self, screen_width: usize, screen_height: usize) -> (r: (
        usize,
        usize,
    ))
        ensures
            ({
                let small = screen_width < self.spec_width() || screen_height < self.spec_height()
                    || screen_width as int / self.spec_char_width() == 0
                    || screen_height as int / self.spec_line_height() == 0;
                if small {
                    r == (0usize, 0usize)
                } else {
                    r.0 as int == screen_width as int / self.spec_char_width() - 1 && r.1 as int
                        == screen_height as int / self.spec_line_height() - 1
                }
            }),
    {
        let (w, h) = self.size();
        if screen_width < w || screen_height < h {
            return (0, 0);
        }
        let columns = screen_width / self.char_width();
        let rows = screen_height / self.line_height();
        if columns == 0 || rows == 0 {
            (0, 0)
        } else {
            (columns - 1, rows - 1)
        }
    }
}

/// The longest line length of a grid of lines.
pub open spec fn max_line_len<T>(lines: Seq<Seq<T>>) -> int
    decreases lines.len(),
{
    if lines.len() == 0 {
        0
    } else {
        let rest = max_line_len(lines.drop_first());
        if lines[0].len() > rest {
            lines[0].len() as int
        } else {
            rest
        }
    }
}

/// The first glyph override for `code`, if any.
pub open spec fn find_custom(list: Seq<(u8, CustomLetter)>, code: u8) -> Option<CustomLetter>
    decreases list.len(),
{
    if list.len() == 0 {
        Option::None
    } else if list[0].0 == code {
        Option::Some(list[0].1)
    } else {
        find_custom(list.drop_first(), code)
    }
}

/// The bitmap a surface draws for a glyph code: its override of the right
/// size when one is registered, else the built-in font glyph.
pub open spec fn glyph_for(g: Graphics, code: u8, font: PixelFont) -> Seq<bool> {
    match find_custom(g.custom_font@, code) {
        Option::Some(cl) => match font {
            PixelFont::Standard6x7 => cl.px_6x7@,
            PixelFont::Limited3x5 => cl.px_3x5@,
        },
        Option::None => font.spec_pixels(code),
    }
}

/// The lit pixels of one glyph column from row `y` down, offset to the
/// letter position.
pub open spec fn glyph_col_pts(
    px: Seq<bool>,
    w: int,
    h: int,
    ox: int,
    oy: int,
    x: int,
    y: int,
) -> Seq<(int, int)>
    decreases h - y,
    when y <= h
{
    if y >= h {
        Seq::empty()
    } else {
        (if px[x + y * w] {
            seq![(ox + x, oy + y)]
        } else {
            Seq::<(int, int)>::empty()
        }) + glyph_col_pts(px, w, h, ox, oy, x, y + 1)
    }
}

/// The lit pixels of a glyph from column `x` on, column-major.
pub open spec fn glyph_pts(px: Seq<bool>, w: int, h: int, ox: int, oy: int, x: int) -> Seq<
    (int, int),
>
    decreases w - x,
    when x <= w
{
    if x >= w {
        Seq::empty()
    } else {
        glyph_col_pts(px, w, h, ox, oy, x, 0) + glyph_pts(px, w, h, ox, oy, x + 1)
    }
}

/// The buffer after drawing one glyph code at `(ox, oy)`: whitespace codes
/// draw nothing, any other code paints its bitmap's lit pixels.
pub open spec fn letter_buf(
    g: Graphics,
    buf: Seq<u8>,
    ox: int,
    oy: int,
    code: u8,
    font: PixelFont,
    color: Color,
) -> Seq<u8> {
    if code == 32 || code == 9 {
        buf
    } else {
        paint(
            g,
            buf,
            glyph_pts(
                glyph_for(g, code, font),
                font.spec_width(),
                font.spec_height(),
                ox,
                oy,
                0,
            ),
            color,
        )
    }
}

/// The buffer after drawing the characters of one line from index `k` on.
pub open spec fn row_buf(
    g: Graphics,
    buf: Seq<u8>,
    line: Seq<u8>,
    sx: int,
    y: int,
    per_x: int,
    font: PixelFont,
    color: Color,
    k: int,
) -> Seq<u8>
    decreases line.len() - k,
    when k <= line.len()
{
    if k >= line.len() {
        buf
    } else {
        row_buf(
            g,
            letter_buf(g, buf, sx + k * per_x, y, line[k], font, color),
            line,
            sx,
            y,
            per_x,
            font,
            color,
            k + 1,
        )
    }
}

/// The buffer after drawing the lines of a code grid from row `r` on.
pub open spec fn rows_buf(
    g: Graphics,
    buf: Seq<u8>,
    lines: Seq<Seq<u8>>,
    sx: int,
    sy: int,
    per_x: int,
    per_y: int,
    font: PixelFont,
    color: Color,
    r: int,
) -> Seq<u8>
    decreases lines.len() - r,
    when r <= lines.len()
{
    if r >= lines.len() {
        buf
    } else {
        rows_buf(
            g,
            row_buf(g, buf, lines[r], sx, sy + r * per_y, per_x, font, color, 0),
            lines,
            sx,
            sy,
            per_x,
            per_y,
            font,
            color,
            r + 1,
        )
    }
}

impl Graphics {
    /// Look up a registered glyph override.
    fn find_custom_letter(&self, code: u8) -> (r: Option<&CustomLetter>)
        ensures
            match r {
                Option::Some(cl) => find_custom(self.custom_font@, code) == Option::Some(*cl),
                Option::None => find_custom(self.custom_font@, code) is None,
            },
    {
        let mut i: usize = 0;
        proof {
            assert(self.custom_font@.skip(0) =~= self.custom_font@);
        }
        while i < self.custom_font.len()
            invariant
                i <= self.custom_font@.len(),
                find_custom(self.custom_font@, code) == find_custom(
                    self.custom_font@.skip(i as int),
                    code,
                ),
            decreases self.custom_font@.len() - i,
        {
            proof {
                assert(self.custom_font@.skip(i as int)[0] == self.custom_font@[i as int]);
                assert(self.custom_font@.skip(i as int).drop_first() =~= self.custom_font@.skip(
                    i as int + 1,
                ));
            }
            if self.custom_font[i].0 == code {
                return Some(&self.custom_font[i].1);
            }
            i += 1;
        }
        proof {
            assert(self.custom_font@.skip(self.custom_font@.len() as int).len() == 0);
        }
        None
    }

    /// Draw one glyph with its top-left cell corner at `pos`.
    ///
    /// Space and tab draw nothing; a registered override replaces the
    /// built-in bitmap; every lit cell pixel goes through the pixel
    /// pipeline.
    pub fn draw_ascii_letter(&mut self, pos: (isize, isize), code: u8, font: PixelFont, color: Color)
        requires
            gfx_wf(*old(self)),
        ensures
            gfx_wf(*final(self)),
            *final(self) == (Graphics { buffer: final(self).buffer, ..*old(self) }),
            final(self).buffer@ == letter_buf(
                *old(self),
                old(self).buffer@,
                pos.0 as int,
                pos.1 as int,
                code,
                font,
                color,
            ),
    {
        self.draw_letter_wide(pos.0 as i128, pos.1 as i128, code, font, color)
    }

    /// Draw a glyph at wide coordinates (used by text layout, whose letter
    /// positions may not fit a machine word).
    pub(crate) fn draw_letter_wide(&mut self, ox: i128, oy: i128, code: u8, font: PixelFont, color: Color)
        requires
            gfx_wf(*old(self)),
            -0x8000_0000_0000_0000_0000_0000_0000_0000 + 0x2_0000_0000_0000_0000 <= ox
                <= 0x7fff_ffff_ffff_ffff_ffff_ffff_ffff_ffff - 0x2_0000_0000_0000_0000,
            -0x8000_0000_0000_0000_0000_0000_0000_0000 + 0x2_0000_0000_0000_0000 <= oy
                <= 0x7fff_ffff_ffff_ffff_ffff_ffff_ffff_ffff - 0x2_0000_0000_0000_0000,
        ensures
            gfx_wf(*final(self)),
            *final(self) == (Graphics { buffer: final(self).buffer, ..*old(self) }),
            final(self).buffer@ == letter_buf(
                *old(self),
                old(self).buffer@,
                ox as int,
                oy as int,
                code,
                font,
                color,
            ),
    {
        if code == 32 || code == 9 {
            return ;
        }
        let (w, h) = font.size();
        let px: Vec<bool> = match self.find_custom_letter(code) {
            Some(cl) => {
                match font {
                    PixelFont::Standard6x7 => {
                        let mut out: Vec<bool> = Vec::new();
                        let mut i: usize = 0;
                        while i < 42
                            invariant
                                i <= 42,
                                out@.len() == i,
                                forall|j: int| 0 <= j < i ==> out@[j] == cl.px_6x7@[j],
                            decreases 42 - i,
                        {
                            out.push(cl.px_6x7[i]);
                            i += 1;
                        }
                        proof {
                            assert(out@ =~= cl.px_6x7@);
                        }
                        out
                    },
                    PixelFont::Limited3x5 => {
                        let mut out: Vec<bool> = Vec::new();
                        let mut i: usize = 0;
                        while i < 15
                            invariant
                                i <= 15,
                                out@.len() == i,
                                forall|j: int| 0 <= j < i ==> out@[j] == cl.px_3x5@[j],
                            decreases 15 - i,
                        {
                            out.push(cl.px_3x5[i]);
                            i += 1;
                        }
                        proof {
                            assert(out@ =~= cl.px_3x5@);
                        }
                        out
                    },
                }
            },
            None => font.pixels(code),
        };
        let ghost gpx = glyph_for(*old(self), code, font);
        proof {
            assert(px@ == gpx);
            assert(px@.len() == w * h);
        }
        let ghost full = glyph_pts(gpx, w as int, h as int, ox as int, oy as int, 0);
        let mut x: usize = 0;
        while x < w
            invariant
                x <= w,
                w == font.spec_width(),
                h == font.spec_height(),
                w <= 6,
                h <= 7,
                px@ == gpx,
                px@.len() == w * h,
                gfx_wf(*self),
                *self == (Graphics { buffer: self.buffer, ..*old(self) }),
                -0x8000_0000_0000_0000_0000_0000_0000_0000 + 0x2_0000_0000_0000_0000 <= ox
                    <= 0x7fff_ffff_ffff_ffff_ffff_ffff_ffff_ffff - 0x2_0000_0000_0000_0000,
                -0x8000_0000_0000_0000_0000_0000_0000_0000 + 0x2_0000_0000_0000_0000 <= oy
                    <= 0x7fff_ffff_ffff_ffff_ffff_ffff_ffff_ffff - 0x2_0000_0000_0000_0000,
                paint(*old(self), old(self).buffer@, full, color) == paint(
                    *old(self),
                    self.buffer@,
                    glyph_pts(gpx, w as int, h as int, ox as int, oy as int, x as int),
                    color,
                ),
            decreases w - x,
        {
            let mut y: usize = 0;
            proof {
                assert(glyph_pts(gpx, w as int, h as int, ox as int, oy as int, x as int)
                    == glyph_col_pts(gpx, w as int, h as int, ox as int, oy as int, x as int, 0)
                    + glyph_pts(gpx, w as int, h as int, ox as int, oy as int, x as int + 1));
            }
            while y < h
                invariant
                    x < w,
                    y <= h,
                    w == font.spec_width(),
                    h == font.spec_height(),
                    w <= 6,
                    h <= 7,
                    px@ == gpx,
                    px@.len() == w * h,
                    gfx_wf(*self),
                    *self == (Graphics { buffer: self.buffer, ..*old(self) }),
                    -0x8000_0000_0000_0000_0000_0000_0000_0000 + 0x2_0000_0000_0000_0000 <= ox
                        <= 0x7fff_ffff_ffff_ffff_ffff_ffff_ffff_ffff - 0x2_0000_0000_0000_0000,
                    -0x8000_0000_0000_0000_0000_0000_0000_0000 + 0x2_0000_0000_0000_0000 <= oy
                        <= 0x7fff_ffff_ffff_ffff_ffff_ffff_ffff_ffff - 0x2_0000_0000_0000_0000,
                    paint(*old(self), old(self).buffer@, full, color) == paint(
                        *old(self),
                        self.buffer@,
                        glyph_col_pts(
                            gpx,
                            w as int,
                            h as int,
                            ox as int,
                            oy as int,
                            x as int,
                            y as int,
                        ) + glyph_pts(gpx, w as int, h as int, ox as int, oy as int, x as int + 1),
                        color,
                    ),
                decreases h - y,
            {
                let i = x + y * w;
                proof {
                    crate::clipping::lemma_grid_index_bound(w as int, h as int, x as int, y as int);
                    assert(x + y * w < w * h);
                }
                let lit = px[i];
                let ghost colrest = glyph_col_pts(
                    gpx,
                    w as int,
                    h as int,
                    ox as int,
                    oy as int,
                    x as int,
                    y as int,
                );
                let ghost tail = glyph_col_pts(
                    gpx,
                    w as int,
                    h as int,
                    ox as int,
                    oy as int,
                    x as int,
                    y as int + 1,
                ) + glyph_pts(gpx, w as int, h as int, ox as int, oy as int, x as int + 1);
                if lit {
                    let ghost pre = *self;
                    self.update_pixel_wide(ox + x as i128, oy + y as i128, color);
                    proof {
                        let all = colrest + glyph_pts(
                            gpx,
                            w as int,
                            h as int,
                            ox as int,
                            oy as int,
                            x as int + 1,
                        );
                        assert(colrest == seq![(ox + x as int, oy + y as int)] + glyph_col_pts(
                            gpx,
                            w as int,
                            h as int,
                            ox as int,
                            oy as int,
                            x as int,
                            y as int + 1,
                        ));
                        assert(all[0] == (ox + x as int, oy + y as int));
                        assert(all.len() > 0);
                        assert(all.drop_first() =~= tail);
                        lemma_upd_buf_config(
                            *old(self),
                            pre,
                            pre.buffer@,
                            ox + x as int,
                            oy + y as int,
                            color,
                        );
                        assert(paint(*old(self), pre.buffer@, all, color) == paint(
                            *old(self),
                            self.buffer@,
                            tail,
                            color,
                        ));
                    }
                } else {
                    proof {
                        assert(colrest == Seq::<(int, int)>::empty() + glyph_col_pts(
                            gpx,
                            w as int,
                            h as int,
                            ox as int,
                            oy as int,
                            x as int,
                            y as int + 1,
                        ));
                        assert(colrest + glyph_pts(
                            gpx,
                            w as int,
                            h as int,
                            ox as int,
                            oy as int,
                            x as int + 1,
                        ) =~= tail);
                    }
                }
                y += 1;
            }
            proof {
                assert(glyph_col_pts(
                    gpx,
                    w as int,
                    h as int,
                    ox as int,
                    oy as int,
                    x as int,
                    y as int,
                ) =~= Seq::<(int, int)>::empty());
                assert(glyph_col_pts(
                    gpx,
                    w as int,
                    h as int,
                    ox as int,
                    oy as int,
                    x as int,
                    y as int,
                ) + glyph_pts(gpx, w as int, h as int, ox as int, oy as int, x as int + 1)
                    =~= glyph_pts(gpx, w as int, h as int, ox as int, oy as int, x as int + 1));
            }
            x += 1;
        }
        proof {
            assert(glyph_pts(gpx, w as int, h as int, ox as int, oy as int, x as int) =~= Seq::<
                (int, int),
            >::empty());
            assert(self.buffer@ == paint(*old(self), old(self).buffer@, full, color));
        }
    }
}

/// `letter_buf` depends only on the surface configuration, not its buffer.
pub proof fn lemma_letter_buf_config(
    g1: Graphics,
    g2: Graphics,
    buf: Seq<u8>,
    ox: int,
    oy: int,
    code: u8,
    font: PixelFont,
    color: Color,
)
    requires
        g1.width == g2.width,
        g1.height == g2.height,
        g1.translate == g2.translate,
        g1.clip == g2.clip,
        g1.custom_font == g2.custom_font,
    ensures
        letter_buf(g1, buf, ox, oy, code, font, color) == letter_buf(
            g2,
            buf,
            ox,
            oy,
            code,
            font,
            color,
        ),
{
    if !(code == 32 || code == 9) {
        crate::drawing::lemma_paint_config(
            g1,
            g2,
            buf,
            glyph_pts(
                glyph_for(g1, code, font),
                font.spec_width(),
                font.spec_height(),
                ox,
                oy,
                0,
            ),
            color,
        );
    }
}

/// The starting pixel column of a laid-out text block.
pub open spec fn ascii_start_x(pos: TextPos, format: TextFormat, lines: Seq<Seq<u8>>) -> int {
    spec_to_coord(pos, format.font).0 + anchor_shift(
        x_kind(format.positioning),
        max_line_len(lines) * format.font.spec_char_width(),
    )
}

/// The starting pixel row of a laid-out text block.
pub open spec fn ascii_start_y(pos: TextPos, format: TextFormat, lines: Seq<Seq<u8>>) -> int {
    spec_to_coord(pos, format.font).1 + anchor_shift(
        y_kind(format.positioning),
        lines.len() * format.font.spec_line_height(),
    )
}

impl Graphics {
    /// Draw pre-wrapped glyph code lines.
    ///
    /// The block is measured (widest line by character advance, line count
    /// by line advance), anchored by the format's positioning, and every
    /// glyph is drawn cell by cell through the pixel pipeline.
    pub fn draw_ascii(&mut self, text: &Vec<Vec<u8>>, pos: TextPos, format: TextFormat)
        requires
            gfx_wf(*old(self)),
            text@.len() <= 0x1000_0000,
            forall|i: int| 0 <= i < text@.len() ==> (#[trigger] text@[i])@.len() <= 0x1000_0000,
            pos matches TextPos::ColRow(col, row) ==> col * format.font.spec_char_width()
                <= isize::MAX as int && row * format.font.spec_line_height() <= isize::MAX as int,
        ensures
            gfx_wf(*final(self)),
            *final(self) == (Graphics { buffer: final(self).buffer, ..*old(self) }),
            final(self).buffer@ == rows_buf(
                *old(self),
                old(self).buffer@,
                text.deep_view(),
                ascii_start_x(pos, format, text.deep_view()),
                ascii_start_y(pos, format, text.deep_view()),
                format.font.spec_char_width(),
                format.font.spec_line_height(),
                format.font,
                format.color,
                0,
            ),
    {
        let ghost lines = text.deep_view();
        let font = format.font();
        let color = format.color();
        let per_x = font.char_width();
        let per_y = font.line_height();
        proof {
            assert(per_x <= 8 && per_y <= 8);
        }
        let base = pos.to_coord(font);
        let mut maxlen: usize = 0;
        let mut i: usize = 0;
        while i < text.len()
            invariant
                i <= text@.len(),
                lines == text.deep_view(),
                text@.len() <= 0x1000_0000,
                forall|j: int| 0 <= j < text@.len() ==> (#[trigger] text@[j])@.len()
                    <= 0x1000_0000,
                maxlen <= 0x1000_0000,
                maxlen == max_line_len(lines.take(i as int)),
            decreases text@.len() - i,
        {
            proof {
                lemma_max_line_len_snoc(lines, i as int);
                assert(lines[i as int] == text@[i as int]@);
            }
            if text[i].len() > maxlen {
                maxlen = text[i].len();
            }
            i += 1;
        }
        proof {
            assert(lines.take(lines.len() as int) =~= lines);
        }
        proof {
            assert((maxlen as int) * (per_x as int) <= 0x8000_0000 && (text@.len() as int) * (
            per_y as int) <= 0x8000_0000) by (nonlinear_arith)
                requires
                    0 <= maxlen <= 0x1000_0000 && 0 <= per_x <= 8 && 0 <= text@.len()
                        <= 0x1000_0000 && 0 <= per_y <= 8,
            ;
        }
        let width: i128 = maxlen as i128 * per_x as i128;
        let height: i128 = text.len() as i128 * per_y as i128;
        let xk: u8 = match format.positioning() {
            crate::format::Positioning::LeftTop
            | crate::format::Positioning::LeftCenter
            | crate::format::Positioning::LeftBottom => 0,
            crate::format::Positioning::CenterTop
            | crate::format::Positioning::Center
            | crate::format::Positioning::CenterBottom => 1,
            crate::format::Positioning::RightTop
            | crate::format::Positioning::RightCenter
            | crate::format::Positioning::RightBottom => 2,
        };
        let yk: u8 = match format.positioning() {
            crate::format::Positioning::LeftTop
            | crate::format::Positioning::CenterTop
            | crate::format::Positioning::RightTop => 0,
            crate::format::Positioning::LeftCenter
            | crate::format::Positioning::Center
            | crate::format::Positioning::RightCenter => 1,
            crate::format::Positioning::LeftBottom
            | crate::format::Positioning::CenterBottom
            | crate::format::Positioning::RightBottom => 2,
        };
        let start_x: i128 = base.0 as i128 + (if xk == 0 {
            0
        } else if xk == 1 {
            -(width / 2)
        } else {
            -width
        });
        let start_y: i128 = base.1 as i128 + (if yk == 0 {
            0
        } else if yk == 1 {
            -(height / 2)
        } else {
            -height
        });
        proof {
            assert(start_x as int == ascii_start_x(pos, format, lines));
            assert(start_y as int == ascii_start_y(pos, format, lines));
        }
        let ghost sx = start_x as int;
        let ghost sy = start_y as int;
        let mut r: usize = 0;
        while r < text.len()
            invariant
                r <= text@.len(),
                lines == text.deep_view(),
                text@.len() <= 0x1000_0000,
                forall|j: int| 0 <= j < text@.len() ==> (#[trigger] text@[j])@.len()
                    <= 0x1000_0000,
                per_x == format.font.spec_char_width(),
                per_y == format.font.spec_line_height(),
                per_x <= 8,
                per_y <= 8,
                font == format.font,
                color == format.color,
                -0x2_0000_0000_0000_0000 <= start_x <= 0x2_0000_0000_0000_0000,
                -0x2_0000_0000_0000_0000 <= start_y <= 0x2_0000_0000_0000_0000,
                sx == start_x as int,
                sy == start_y as int,
                gfx_wf(*self),
                *self == (Graphics { buffer: self.buffer, ..*old(self) }),
                rows_buf(
                    *old(self),
                    old(self).buffer@,
                    lines,
                    sx,
                    sy,
                    per_x as int,
                    per_y as int,
                    font,
                    color,
                    0,
                ) == rows_buf(
                    *old(self),
                    self.buffer@,
                    lines,
                    sx,
                    sy,
                    per_x as int,
                    per_y as int,
                    font,
                    color,
                    r as int,
                ),
            decreases text@.len() - r,
        {
            proof {
                assert((r as int) * (per_y as int) <= 0x8000_0000) by (nonlinear_arith)
                    requires
                        0 <= r <= 0x1000_0000 && 0 <= per_y <= 8,
                ;
            }
            let line_y: i128 = start_y + r as i128 * per_y as i128;
            let ghost pre_row = self.buffer@;
            let mut k: usize = 0;
            while k < text[r].len()
                invariant
                    r < text@.len(),
                    k <= text@[r as int]@.len(),
                    lines == text.deep_view(),
                    text@.len() <= 0x1000_0000,
                    forall|j: int| 0 <= j < text@.len() ==> (#[trigger] text@[j])@.len()
                        <= 0x1000_0000,
                    per_x == format.font.spec_char_width(),
                    per_y == format.font.spec_line_height(),
                    per_x <= 8,
                    per_y <= 8,
                    font == format.font,
                    color == format.color,
                    -0x2_0000_0000_0000_0000 <= start_x <= 0x2_0000_0000_0000_0000,
                    -0x2_0000_0000_0000_0000 <= start_y <= 0x2_0000_0000_0000_0000,
                    sx == start_x as int,
                    sy == start_y as int,
                    line_y as int == sy + r * per_y,
                    -0x3_0000_0000_0000_0000 <= line_y <= 0x3_0000_0000_0000_0000,
                    gfx_wf(*self),
                    *self == (Graphics { buffer: self.buffer, ..*old(self) }),
                    row_buf(
                        *old(self),
                        pre_row,
                        lines[r as int],
                        sx,
                        sy + (r as int) * (per_x as int) * 0 + (r as int) * (per_y as int),
                        per_x as int,
                        font,
                        color,
                        0,
                    ) == row_buf(
                        *old(self),
                        self.buffer@,
                        lines[r as int],
                        sx,
                        sy + (r as int) * (per_y as int),
                        per_x as int,
                        font,
                        color,
                        k as int,
                    ),
                decreases text@[r as int]@.len() - k,
            {
                proof {
                    assert(lines[r as int] == text@[r as int]@);
                }
                let code = text[r][k];
                let ghost pre = *self;
                proof {
                    assert((k as int) * (per_x as int) <= 0x8000_0000) by (nonlinear_arith)
                        requires
                            0 <= k <= 0x1000_0000 && 0 <= per_x <= 8,
                    ;
                }
                self.draw_letter_wide(start_x + k as i128 * per_x as i128, line_y, code, font, color);
                proof {
                    lemma_letter_buf_config(
                        *old(self),
                        pre,
                        pre.buffer@,
                        sx + (k as int) * (per_x as int),
                        sy + (r as int) * (per_y as int),
                        code,
                        font,
                        color,
                    );
                    assert(lines[r as int][k as int] == code);
                }
                k += 1;
            }
            proof {
                assert(row_buf(
                    *old(self),
                    self.buffer@,
                    lines[r as int],
                    sx,
                    sy + (r as int) * (per_y as int),
                    per_x as int,
                    font,
                    color,
                    k as int,
                ) == self.buffer@);
            }
            r += 1;
        }
        proof {
            assert(rows_buf(
                *old(self),
                self.buffer@,
                lines,
                sx,
                sy,
                per_x as int,
                per_y as int,
                font,
                color,
                r as int,
            ) == self.buffer@);
        }
    }
}

/// Taking one more line into the running maximum.
proof fn lemma_max_line_len_snoc<T>(lines: Seq<Seq<T>>, i: int)
    requires
        0 <= i < lines.len(),
    ensures
        max_line_len(lines.take(i + 1)) == if lines[i].len() > max_line_len(lines.take(i)) {
            lines[i].len() as int
        } else {
            max_line_len(lines.take(i))
        },
    decreases i,
{
    if i == 0 {
        assert(lines.take(1).drop_first() =~= Seq::<Seq<T>>::empty());
        assert(lines.take(0) =~= Seq::<Seq<T>>::empty());
        assert(lines.take(1)[0] == lines[0]);
    } else {
        lemma_max_line_len_snoc(lines.drop_first(), i - 1);
        assert(lines.take(i + 1).drop_first() =~= lines.drop_first().take(i));
        assert(lines.take(i).drop_first() =~= lines.drop_first().take(i - 1));
        assert(lines.take(i + 1)[0] == lines[0]);
        assert(lines.take(i)[0] == lines[0]);
    }
}

/// The pixel footprint of pre-split text: widest line by `char_width`,
/// line count by `line_height`.
pub fn measure_text(text: &str, char_width: usize, line_height: usize) -> (r: (usize, usize))
    requires
        max_line_len(crate::wrapping::split_lines(text@)) * char_width <= usize::MAX,
        crate::wrapping::split_lines(text@).len() * line_height <= usize::MAX,
    ensures
        r.0 == max_line_len(crate::wrapping::split_lines(text@)) * char_width,
        r.1 == crate::wrapping::split_lines(text@).len() * line_height,
{
    let cs = chars_of(text);
    let lines = crate::wrapping::split_input(&cs);
    let ghost sp = crate::wrapping::split_lines(text@);
    let mut maxlen: usize = 0;
    let mut i: usize = 0;
    proof {
        assert(sp.take(0) =~= Seq::<Seq<char>>::empty());
    }
    while i < lines.len()
        invariant
            i <= lines@.len(),
            lines.deep_view() == sp,
            maxlen == max_line_len(sp.take(i as int)),
            max_line_len(sp) * char_width <= usize::MAX,
            maxlen <= usize::MAX,
        decreases lines@.len() - i,
    {
        proof {
            lemma_max_line_len_snoc(sp, i as int);
            assert(sp[i as int] == lines.deep_view()[i as int]);
            assert(lines.deep_view()[i as int] == lines@[i as int].deep_view());
            assert(lines@[i as int].deep_view() =~= lines@[i as int]@);
            lemma_max_line_len_le(sp, lines@.len() as int);
        }
        if lines[i].len() > maxlen {
            maxlen = lines[i].len();
        }
        i += 1;
    }
    proof {
        assert(sp.take(sp.len() as int) =~= sp);
        assert(maxlen * char_width <= usize::MAX) by (nonlinear_arith)
            requires
                maxlen == max_line_len(sp) && max_line_len(sp) * char_width <= usize::MAX
                    && char_width >= 0 && maxlen >= 0,
        ;
    }
    (maxlen * char_width, lines.len() * line_height)
}

/// A prefix maximum never exceeds the whole maximum.
proof fn lemma_max_line_len_le<T>(lines: Seq<Seq<T>>, n: int)
    requires
        0 <= n <= lines.len(),
    ensures
        max_line_len(lines.take(n)) <= max_line_len(lines),
        max_line_len(lines) >= 0,
    decreases lines.len(),
{
    if lines.len() == 0 {
        assert(lines.take(n) =~= lines);
    } else if n == 0 {
        assert(lines.take(0) =~= Seq::<Seq<T>>::empty());
        lemma_max_line_len_le(lines.drop_first(), 0);
    } else {
        assert(lines.take(n)[0] == lines[0]);
        assert(lines.take(n).drop_first() =~= lines.drop_first().take(n - 1));
        lemma_max_line_len_le(lines.drop_first(), n - 1);
    }
}

/// The glyph codes of wrapped text lines.
pub open spec fn codes_grid(lines: Seq<Seq<char>>) -> Seq<Seq<u8>> {
    lines.map(|i: int, l: Seq<char>| l.map(|j: int, c: char| spec_chr_to_code(c)))
}

/// A piece of text ready to draw: wrapped glyph code lines, a position
/// and a format.
pub struct Text {
    pub content: Vec<Vec<u8>>,
    pub pos: TextPos,
    pub formatting: TextFormat,
}

impl Text {
    /// Wrap `content` under the format's strategy and map every character
    /// to its glyph code.
    pub fn new(content: &str, pos: TextPos, formatting: TextFormat) -> (r: Text)
        requires
            strategy_wf(formatting.wrap_at),
        ensures
            r.pos == pos,
            r.formatting == formatting,
            r.content.deep_view() == codes_grid(wrap_spec(formatting.wrap_at, content@)),
    {
        let wrapped = formatting.wrapping().wrap(content);
        let ghost target = codes_grid(wrap_spec(formatting.wrap_at, content@));
        let mut out: Vec<Vec<u8>> = Vec::new();
        let mut k: usize = 0;
        while k < wrapped.len()
            invariant
                k <= wrapped@.len(),
                wrapped.deep_view() == wrap_spec(formatting.wrap_at, content@),
                target == codes_grid(wrap_spec(formatting.wrap_at, content@)),
                out@.len() == k,
                forall|i: int| 0 <= i < k ==> out.deep_view()[i] == target[i],
            decreases wrapped@.len() - k,
        {
            let cs = chars_of(wrapped[k].as_str());
            proof {
                assert(wrapped@[k as int]@ == wrapped@[k as int].deep_view());
                assert(wrapped.deep_view()[k as int] == wrapped@[k as int].deep_view());
            }
            let mut codes: Vec<u8> = Vec::new();
            let mut i: usize = 0;
            while i < cs.len()
                invariant
                    i <= cs@.len(),
                    codes@.len() == i,
                    forall|j: int| 0 <= j < i ==> codes@[j] == spec_chr_to_code(cs@[j]),
                decreases cs@.len() - i,
            {
                codes.push(chr_to_code(cs[i]));
                i += 1;
            }
            let ghost prev = out.deep_view();
            let ghost cv = codes@;
            out.push(codes);
            proof {
                assert(out.deep_view() =~~= prev.push(cv));
                assert(cv =~= wrap_spec(formatting.wrap_at, content@)[k as int].map(
                    |j: int, c: char| spec_chr_to_code(c),
                ));
                assert(target[k as int] == wrap_spec(formatting.wrap_at, content@)[k as int].map(
                    |j: int, c: char| spec_chr_to_code(c),
                ));
            }
            k += 1;
        }
        proof {
            assert(out.deep_view() =~= target);
        }
        Text { content: out, pos, formatting }
    }

    #[inline]
    pub fn pos(&self) -> (r: TextPos)
        ensures
            r == self.pos,
    {
        self.pos
    }

    #[inline]
    pub fn formatting(&self) -> (r: &TextFormat)
        ensures
            r == &self.formatting,
    {
        &self.formatting
    }

    #[inline]
    pub fn contents(&self) -> (r: &Vec<Vec<u8>>)
        ensures
            r == &self.content,
    {
        &self.content
    }

    /// Draw this text: lay the lines out from the anchored origin and
    /// paint every glyph through the pixel pipeline.
    pub fn render(&self, graphics: &mut Graphics)
        requires
            gfx_wf(*old(graphics)),
            self.content@.len() <= 0x1000_0000,
            forall|i: int| 0 <= i < self.content@.len() ==> (#[trigger] self.content@[i])@.len()
                <= 0x1000_0000,
            self.pos matches TextPos::ColRow(col, row) ==> col
                * self.formatting.font.spec_char_width() <= isize::MAX as int && row
                * self.formatting.font.spec_line_height() <= isize::MAX as int,
        ensures
            gfx_wf(*final(graphics)),
            *final(graphics) == (Graphics { buffer: final(graphics).buffer, ..*old(graphics) }),
            final(graphics).buffer@ == rows_buf(
                *old(graphics),
                old(graphics).buffer@,
                self.content.deep_view(),
                ascii_start_x(self.pos, self.formatting, self.content.deep_view()),
                ascii_start_y(self.pos, self.formatting, self.content.deep_view()),
                self.formatting.font.spec_char_width(),
                self.formatting.font.spec_line_height(),
                self.formatting.font,
                self.formatting.color,
                0,
            ),
    {
        graphics.draw_ascii(&self.content, self.pos, self.formatting)
    }
}

impl Graphics {
    /// Wrap `text` under the format's strategy and draw it at `pos`.
    pub fn draw_text(&mut self, text: &str, pos: TextPos, format: TextFormat)
        requires
            gfx_wf(*old(self)),
            strategy_wf(format.wrap_at),
            codes_grid(wrap_spec(format.wrap_at, text@)).len() <= 0x1000_0000,
            forall|i: int|
                0 <= i < codes_grid(wrap_spec(format.wrap_at, text@)).len() ==> (
                #[trigger] codes_grid(wrap_spec(format.wrap_at, text@))[i]).len() <= 0x1000_0000,
            pos matches TextPos::ColRow(col, row) ==> col * format.font.spec_char_width()
                <= isize::MAX as int && row * format.font.spec_line_height() <= isize::MAX as int,
        ensures
            gfx_wf(*final(self)),
            *final(self) == (Graphics { buffer: final(self).buffer, ..*old(self) }),
            final(self).buffer@ == rows_buf(
                *old(self),
                old(self).buffer@,
                codes_grid(wrap_spec(format.wrap_at, text@)),
                ascii_start_x(pos, format, codes_grid(wrap_spec(format.wrap_at, text@))),
                ascii_start_y(pos, format, codes_grid(wrap_spec(format.wrap_at, text@))),
                format.font.spec_char_width(),
                format.font.spec_line_height(),
                format.font,
                format.color,
                0,
            ),
    {
        let t = Text::new(text, pos, format);
        proof {
            let grid = codes_grid(wrap_spec(format.wrap_at, text@));
            assert(t.content@.len() == grid.len());
            assert forall|i: int| 0 <= i < t.content@.len() implies (
            #[trigger] t.content@[i])@.len() <= 0x1000_0000 by {
                assert(t.content.deep_view()[i] == t.content@[i].deep_view());
                assert(t.content@[i].deep_view() =~= t.content@[i]@);
                assert(grid[i].len() <= 0x1000_0000);
            }
        }
        t.render(self)
    }
}

} // verus!

//! Text formatting: color, font, wrapping and the nine-way anchor.

use crate::color::Color;
use crate::text::PixelFont;
use crate::wrapping::WrappingStrategy;
use vstd::prelude::*;

verus! {

/// Where the measured text box hangs from its position: each axis is
/// anchored at its start, middle or end.
#[derive(Debug, Clone, Copy, PartialEq, Eq, Structural)]
pub enum Positioning {
    LeftTop,
    CenterTop,
    RightTop,
    LeftCenter,
    Center,
    RightCenter,
    LeftBottom,
    CenterBottom,
    RightBottom,
}

impl Default for Positioning {
    /// Anchor at the top-left corner.
    fn default() -> (r: Positioning)
        ensures
            r is LeftTop,
    {
        Positioning::LeftTop
    }
}

/// The anchor offset along one axis: none, minus half the extent (rounded
/// towards zero), or minus the whole extent.
pub open spec fn anchor_shift(kind: int, extent: int) -> int {
    if kind == 0 {
        0
    } else if kind == 1 {
        -(extent / 2)
    } else {
        -extent
    }
}

/// The horizontal anchor kind: 0 start, 1 center, 2 end.
pub open spec fn x_kind(p: Positioning) -> int {
    match p {
        Positioning::LeftTop => 0,
        Positioning::CenterTop => 1,
        Positioning::RightTop => 2,
        Positioning::LeftCenter => 0,
        Positioning::Center => 1,
        Positioning::RightCenter => 2,
        Positioning::LeftBottom => 0,
        Positioning::CenterBottom => 1,
        Positioning::RightBottom => 2,
    }
}

/// The vertical anchor kind: 0 start, 1 center, 2 end.
pub open spec fn y_kind(p: Positioning) -> int {
    match p {
        Positioning::LeftTop => 0,
        Positioning::CenterTop => 0,
        Positioning::RightTop => 0,
        Positioning::LeftCenter => 1,
        Positioning::Center => 1,
        Positioning::RightCenter => 1,
        Positioning::LeftBottom => 2,
        Positioning::CenterBottom => 2,
        Positioning::RightBottom => 2,
    }
}

impl Positioning {
    /// Offset `xy` so that a `width` by `height` box hangs from it as the
    /// anchor directs.
    pub fn calc(&self, xy: (isize, isize), width: usize, height: usize) -> (r: (isize, isize))
        requires
            isize::MIN <= xy.0 - width <= isize::MAX as int,
            isize::MIN <= xy.1 - height <= isize::MAX as int,
        ensures
            r.0 as int == xy.0 + anchor_shift(x_kind(*self), width as int),
            r.1 as int == xy.1 + anchor_shift(y_kind(*self), height as int),
    {
        let xk: u8 = match self {
            Positioning::LeftTop | Positioning::LeftCenter | Positioning::LeftBottom => 0,
            Positioning::CenterTop | Positioning::Center | Positioning::CenterBottom => 1,
            Positioning::RightTop | Positioning::RightCenter | Positioning::RightBottom => 2,
        };
        let yk: u8 = match self {
            Positioning::LeftTop | Positioning::CenterTop | Positioning::RightTop => 0,
            Positioning::LeftCenter | Positioning::Center | Positioning::RightCenter => 1,
            Positioning::LeftBottom | Positioning::CenterBottom | Positioning::RightBottom => 2,
        };
        proof {
            assert(width as int / 2 <= width as int);
            assert(height as int / 2 <= height as int);
        }
        let x: isize = if xk == 0 {
            xy.0
        } else if xk == 1 {
            (xy.0 as i128 - (width / 2) as i128) as isize
        } else {
            (xy.0 as i128 - width as i128) as isize
        };
        let y: isize = if yk == 0 {
            xy.1
        } else if yk == 1 {
            (xy.1 as i128 - (height / 2) as i128) as isize
        } else {
            (xy.1 as i128 - height as i128) as isize
        };
        (x, y)
    }
}

/// How a piece of text is drawn: color, font, wrapping and anchor.
#[derive(Clone, Copy, Debug, PartialEq, Eq, Structural)]
pub struct TextFormat {
    pub color: Color,
    pub font: PixelFont,
    pub wrap_at: WrappingStrategy,
    pub positioning: Positioning,
}

impl Default for TextFormat {
    /// Opaque black text in the default font, unwrapped, anchored top-left.
    fn default() -> (r: TextFormat)
        ensures
            r.color == (Color { r: 0u8, g: 0u8, b: 0u8, a: 255u8 }),
            r.font is Standard6x7,
            r.wrap_at is NoWrap,
            r.positioning is LeftTop,
    {
        TextFormat {
            color: Color { r: 0, g: 0, b: 0, a: 255 },
            font: PixelFont::Standard6x7,
            wrap_at: WrappingStrategy::NoWrap,
            positioning: Positioning::LeftTop,
        }
    }
}

impl TextFormat {
    pub fn new(
        wrap_at: WrappingStrategy,
        font: PixelFont,
        color: Color,
        positioning: Positioning,
    ) -> (r: TextFormat)
        ensures
            r == (TextFormat { color, font, wrap_at, positioning }),
    {
        TextFormat { color, font, wrap_at, positioning }
    }

    #[inline]
    pub fn wrapping(&self) -> (r: WrappingStrategy)
        ensures
            r == self.wrap_at,
    {
        self.wrap_at
    }

    #[inline]
    pub fn font(&self) -> (r: PixelFont)
        ensures
            r == self.font,
    {
        self.font
    }

    #[inline]
    pub fn color(&self) -> (r: Color)
        ensures
            r == self.color,
    {
        self.color
    }

    /// The vertical advance between lines, in pixels.
    pub fn line_height(&self) -> (r: isize)
        ensures
            r == self.font.spec_line_height(),
    {
        self.font.line_height() as isize
    }

    /// The horizontal advance between characters, in pixels.
    pub fn char_width(&self) -> (r: isize)
        ensures
            r == self.font.spec_char_width(),
    {
        self.font.char_width() as isize
    }

    #[inline]
    pub fn positioning(&self) -> (r: Positioning)
        ensures
            r == self.positioning,
    {
        self.positioning
    }

    /// The same format in another color.
    pub fn with_color(&self, color: Color) -> (r: TextFormat)
        ensures
            r == (TextFormat { color, ..*self }),
    {
        TextFormat { color, ..*self }
    }
}

} // verus!

//! Where text is anchored: a pixel position or a column/row cell.

use crate::coord::Coord;
use crate::text::PixelFont;
use vstd::prelude::*;

verus! {

/// A text position: absolute pixels, or a character grid cell scaled by
/// the font's cell size.
#[derive(Copy, Clone, Debug, PartialEq, Eq, Structural)]
pub enum TextPos {
    Px(isize, isize),
    ColRow(usize, usize),
}

/// The pixel coordinates a text position denotes for a font.
pub open spec fn spec_to_coord(pos: TextPos, font: PixelFont) -> (int, int) {
    match pos {
        TextPos::Px(x, y) => (x as int, y as int),
        TextPos::ColRow(col, row) => (
            col * font.spec_char_width(),
            row * font.spec_line_height(),
        ),
    }
}

impl TextPos {
    /// The pixel coordinates of this position under `font`.
    pub fn to_coord(&self, font: PixelFont) -> (r: (isize, isize))
        requires
            self matches TextPos::ColRow(col, row) ==> col * font.spec_char_width()
                <= isize::MAX as int && row * font.spec_line_height() <= isize::MAX as int,
        ensures
            (r.0 as int, r.1 as int) == spec_to_coord(*self, font),
    {
        match self {
            TextPos::Px(x, y) => (*x, *y),
            TextPos::ColRow(col, row) => {
                let cw = font.char_width();
                let lh = font.line_height();
                proof {
                    assert((col * cw) as int == (*col as int) * (cw as int)) by (nonlinear_arith)
                        requires
                            col * (cw as int) <= isize::MAX as int && cw >= 0,
                    ;
                }
                ((col * cw) as isize, (row * lh) as isize)
            },
        }
    }

}

/// Conversion of a coordinate into an absolute text position.
pub trait CoordIntoTextPos {
    /// This value as a pixel-anchored text position.
    fn textpos(self) -> (r: TextPos) where Self: core::marker::Sized;
}

impl CoordIntoTextPos for Coord {
    fn textpos(self) -> (r: TextPos)
        ensures
            r == TextPos::Px(self.x, self.y),
    {
        TextPos::Px(self.x, self.y)
    }
}

/// Constructors for both kinds of text position from plain pairs.
pub trait NewTextPos {
    /// A column/row grid position.
    fn cr(xy: (usize, usize)) -> (r: TextPos);

    /// An absolute pixel position.
    fn px(xy: (isize, isize)) -> (r: TextPos);
}

impl NewTextPos for TextPos {
    fn cr(xy: (usize, usize)) -> (r: TextPos)
        ensures
            r == TextPos::ColRow(xy.0, xy.1),
    {
        TextPos::ColRow(xy.0, xy.1)
    }

    fn px(xy: (isize, isize)) -> (r: TextPos)
        ensures
            r == TextPos::Px(xy.0, xy.1),
    {
        TextPos::Px(xy.0, xy.1)
    }
}

} // verus!

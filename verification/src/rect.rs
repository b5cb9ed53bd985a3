//! Axis-aligned rectangles with half-open containment.
//!
//! A rectangle spans `[x1, x2) × [y1, y2)`: the left and top edges are
//! inside, the right and bottom edges are not.

use vstd::prelude::*;

verus! {

/// A half-open axis-aligned rectangle.
#[derive(Copy, Clone, Debug, PartialEq, Eq, Hash, Structural)]
pub struct Rect {
    pub x1: isize,
    pub y1: isize,
    pub x2: isize,
    pub y2: isize,
}

/// Point containment for a coordinate type `T`.
pub trait Contains<T> {
    /// What `contains` decides for this coordinate type.
    spec fn spec_contains(&self, x: T, y: T) -> bool;

    /// True when `(x, y)` lies inside.
    fn contains(&self, x: T, y: T) -> (r: bool)
        ensures
            r == self.spec_contains(x, y),
    ;
}

impl Contains<isize> for Rect {
    open spec fn spec_contains(&self, x: isize, y: isize) -> bool {
        self.x1 <= x < self.x2 && self.y1 <= y < self.y2
    }

    fn contains(&self, x: isize, y: isize) -> (r: bool)
        ensures
            r == self.spec_contains(x, y),
    {
        x >= self.x1 && x < self.x2 && y >= self.y1 && y < self.y2
    }
}

impl Contains<usize> for Rect {
    open spec fn spec_contains(&self, x: usize, y: usize) -> bool {
        self.x1 <= (x as int) < self.x2 as int && self.y1 <= (y as int) < self.y2 as int
    }

    fn contains(&self, x: usize, y: usize) -> (r: bool)
        ensures
            r == self.spec_contains(x, y),
    {
        let xi = x as i128;
        let yi = y as i128;
        xi >= self.x1 as i128 && xi < self.x2 as i128 && yi >= self.y1 as i128 && yi
            < self.y2 as i128
    }
}

impl Rect {
    #[inline]
    pub fn new(x1: isize, y1: isize, x2: isize, y2: isize) -> (r: Rect)
        ensures
            r == (Rect { x1, y1, x2, y2 }),
    {
        Rect { x1, y1, x2, y2 }
    }

    pub fn width(&self) -> (r: isize)
        requires
            -(isize::MAX as int) <= self.x2 - self.x1 <= isize::MAX as int,
        ensures
            r == self.x2 - self.x1,
    {
        self.x2 - self.x1
    }

    pub fn height(&self) -> (r: isize)
        requires
            -(isize::MAX as int) <= self.y2 - self.y1 <= isize::MAX as int,
        ensures
            r == self.y2 - self.y1,
    {
        self.y2 - self.y1
    }

    /// Every corner clamped up to zero.
    pub fn clip_to_positive(&self) -> (r: Rect)
        ensures
            r.x1 == max_zero(self.x1 as int),
            r.y1 == max_zero(self.y1 as int),
            r.x2 == max_zero(self.x2 as int),
            r.y2 == max_zero(self.y2 as int),
    {
        Rect {
            x1: max_zero_exec(self.x1),
            y1: max_zero_exec(self.y1),
            x2: max_zero_exec(self.x2),
            y2: max_zero_exec(self.y2),
        }
    }

    /// The same size rectangle with its top-left corner at `(x, y)`.
    pub fn move_to(&self, x: isize, y: isize) -> (r: Rect)
        requires
            -(isize::MAX as int) <= self.x2 - self.x1 <= isize::MAX as int,
            -(isize::MAX as int) <= self.y2 - self.y1 <= isize::MAX as int,
            isize::MIN <= x + self.x2 - self.x1 <= isize::MAX as int,
            isize::MIN <= y + self.y2 - self.y1 <= isize::MAX as int,
        ensures
            r.x1 == x,
            r.y1 == y,
            r.x2 == x + self.x2 - self.x1,
            r.y2 == y + self.y2 - self.y1,
    {
        let w = self.x2 - self.x1;
        let h = self.y2 - self.y1;
        Rect { x1: x, y1: y, x2: x + w, y2: y + h }
    }

    /// The rectangle shifted by `(x, y)`.
    pub fn translate(&self, x: isize, y: isize) -> (r: Rect)
        requires
            isize::MIN <= self.x1 + x <= isize::MAX as int,
            isize::MIN <= self.y1 + y <= isize::MAX as int,
            isize::MIN <= self.x2 + x <= isize::MAX as int,
            isize::MIN <= self.y2 + y <= isize::MAX as int,
        ensures
            r == (Rect {
                x1: (self.x1 + x) as isize,
                y1: (self.y1 + y) as isize,
                x2: (self.x2 + x) as isize,
                y2: (self.y2 + y) as isize,
            }),
    {
        Rect { x1: self.x1 + x, y1: self.y1 + y, x2: self.x2 + x, y2: self.y2 + y }
    }

    /// The smallest rectangle containing both `self` and `other`.
    pub fn union(&self, other: &Rect) -> (r: Rect)
        ensures
            r.x1 == min_of(self.x1 as int, other.x1 as int),
            r.y1 == min_of(self.y1 as int, other.y1 as int),
            r.x2 == max_of(self.x2 as int, other.x2 as int),
            r.y2 == max_of(self.y2 as int, other.y2 as int),
    {
        Rect {
            x1: if self.x1 < other.x1 {
                self.x1
            } else {
                other.x1
            },
            y1: if self.y1 < other.y1 {
                self.y1
            } else {
                other.y1
            },
            x2: if self.x2 > other.x2 {
                self.x2
            } else {
                other.x2
            },
            y2: if self.y2 > other.y2 {
                self.y2
            } else {
                other.y2
            },
        }
    }

    /// The overlap of `self` and `other`, or `self` unchanged when they do
    /// not overlap.
    pub fn intersect(&self, other: &Rect) -> (r: Rect)
        ensures
            r == spec_intersect(*self, *other),
    {
        let x1 = if self.x1 > other.x1 {
            self.x1
        } else {
            other.x1
        };
        let y1 = if self.y1 > other.y1 {
            self.y1
        } else {
            other.y1
        };
        let x2 = if self.x2 < other.x2 {
            self.x2
        } else {
            other.x2
        };
        let y2 = if self.y2 < other.y2 {
            self.y2
        } else {
            other.y2
        };
        if x1 < x2 && y1 < y2 {
            Rect { x1, y1, x2, y2 }
        } else {
            *self
        }
    }

    /// True when the two rectangles overlap in a region of positive area.
    pub fn intersects(&self, other: &Rect) -> (r: bool)
        ensures
            r == spec_intersects(*self, *other),
    {
        let x1 = if self.x1 > other.x1 {
            self.x1
        } else {
            other.x1
        };
        let y1 = if self.y1 > other.y1 {
            self.y1
        } else {
            other.y1
        };
        let x2 = if self.x2 < other.x2 {
            self.x2
        } else {
            other.x2
        };
        let y2 = if self.y2 < other.y2 {
            self.y2
        } else {
            other.y2
        };
        x1 < x2 && y1 < y2
    }
}

pub open spec fn min_of(a: int, b: int) -> int {
    if a < b {
        a
    } else {
        b
    }
}

pub open spec fn max_of(a: int, b: int) -> int {
    if a > b {
        a
    } else {
        b
    }
}

pub open spec fn max_zero(v: int) -> int {
    if v < 0 {
        0
    } else {
        v
    }
}

/// True when the rectangles overlap in a region of positive area.
pub open spec fn spec_intersects(a: Rect, b: Rect) -> bool {
    max_of(a.x1 as int, b.x1 as int) < min_of(a.x2 as int, b.x2 as int) && max_of(
        a.y1 as int,
        b.y1 as int,
    ) < min_of(a.y2 as int, b.y2 as int)
}

/// The overlap of the two rectangles when they overlap, else `a`.
pub open spec fn spec_intersect(a: Rect, b: Rect) -> Rect {
    if spec_intersects(a, b) {
        Rect {
            x1: max_of(a.x1 as int, b.x1 as int) as isize,
            y1: max_of(a.y1 as int, b.y1 as int) as isize,
            x2: min_of(a.x2 as int, b.x2 as int) as isize,
            y2: min_of(a.y2 as int, b.y2 as int) as isize,
        }
    } else {
        a
    }
}

fn max_zero_exec(v: isize) -> (r: isize)
    ensures
        r == max_zero(v as int),
{
    if v < 0 {
        0
    } else {
        v
    }
}

} // verus!

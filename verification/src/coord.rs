//! Signed integer screen coordinates.
//!
//! Coordinates may be negative or past the surface edge: bounds are only
//! applied by the pixel pipeline, never here.

use vstd::math::abs;
use vstd::prelude::*;

verus! {

/// A point on (or off) the surface.
#[derive(Copy, Clone, Debug, PartialEq, Eq, Hash, Structural)]
pub struct Coord {
    pub x: isize,
    pub y: isize,
}

impl Default for Coord {
    /// The origin.
    fn default() -> (r: Coord)
        ensures
            r == (Coord { x: 0, y: 0 }),
    {
        Coord { x: 0, y: 0 }
    }
}

/// `r` is the integer square root of `n`: the largest integer whose square
/// does not exceed `n`.
pub open spec fn is_floor_sqrt(n: int, r: int) -> bool {
    0 <= r && r * r <= n < (r + 1) * (r + 1)
}

/// The integer square root as a value; `lemma_floor_sqrt_exists` shows the
/// chosen value really satisfies `is_floor_sqrt`.
pub open spec fn floor_sqrt(n: int) -> int {
    choose|r: int| is_floor_sqrt(n, r)
}

pub proof fn lemma_floor_sqrt_exists(n: int)
    requires
        n >= 0,
    ensures
        is_floor_sqrt(n, floor_sqrt(n)),
    decreases n,
{
    if n == 0 {
        assert(is_floor_sqrt(0, 0));
    } else {
        lemma_floor_sqrt_exists(n - 1);
        let p = floor_sqrt(n - 1);
        if (p + 1) * (p + 1) <= n {
            assert((p + 2) * (p + 2) > n) by (nonlinear_arith)
                requires
                    0 <= p && p * p <= n - 1 && n - 1 < (p + 1) * (p + 1),
            ;
            assert(is_floor_sqrt(n, p + 1));
        } else {
            assert(is_floor_sqrt(n, p));
        }
    }
    assert(is_floor_sqrt(n, floor_sqrt(n)));
}

/// Binary-search integer square root.
pub(crate) fn isqrt_u128(n: u128) -> (r: u128)
    ensures
        is_floor_sqrt(n as int, r as int),
{
    if n == 0 {
        return 0;
    }
    let mut lo: u128 = 0;
    let mut hi: u128 = if n < 0xffff_ffff_ffff_ffff {
        n
    } else {
        0xffff_ffff_ffff_ffff
    };
    // invariant: lo*lo <= n and (hi+1)*(hi+1) > n
    proof {
        if n < 0xffff_ffff_ffff_ffff {
            assert((n as int) < ((n + 1) as int) * ((n + 1) as int)) by (nonlinear_arith)
                requires
                    n >= 1,
            ;
        } else {
            assert((n as int) < ((0xffff_ffff_ffff_ffffu128 + 1) as int) * ((
            0xffff_ffff_ffff_ffffu128 + 1) as int)) by (nonlinear_arith)
                requires
                    n <= u128::MAX,
            ;
        }
    }
    while lo < hi
        invariant
            lo <= hi,
            (lo as int) * (lo as int) <= n as int,
            (n as int) < ((hi + 1) as int) * ((hi + 1) as int),
            hi <= 0xffff_ffff_ffff_ffff,
        decreases hi - lo,
    {
        let mid: u128 = lo + (hi - lo + 1) / 2;
        proof {
            assert((mid as int) * (mid as int) <= (0xffff_ffff_ffff_ffff as int)
                * (0xffff_ffff_ffff_ffff as int)) by (nonlinear_arith)
                requires
                    0 <= mid <= 0xffff_ffff_ffff_ffffu128,
            ;
        }
        if mid * mid <= n {
            lo = mid;
        } else {
            hi = mid - 1;
            proof {
                assert((n as int) < ((hi + 1) as int) * ((hi + 1) as int));
            }
        }
    }
    lo
}

/// `r` is the square root of `n` rounded to the nearest integer.
pub open spec fn is_round_sqrt(n: int, r: int) -> bool {
    0 <= r && 4 * n < (2 * r + 1) * (2 * r + 1) && (r == 0 || (2 * r - 1) * (2 * r - 1) <= 4 * n)
}

/// The rounded square root as a value; `lemma_round_sqrt_exists` shows the
/// chosen value really satisfies `is_round_sqrt`.
pub open spec fn round_sqrt(n: int) -> int {
    choose|r: int| is_round_sqrt(n, r)
}

pub proof fn lemma_round_sqrt_exists(n: int)
    requires
        n >= 0,
    ensures
        is_round_sqrt(n, round_sqrt(n)),
{
    lemma_floor_sqrt_exists(n);
    let s = floor_sqrt(n);
    if n - s * s > s {
        assert(is_round_sqrt(n, s + 1)) by (nonlinear_arith)
            requires
                0 <= s && s * s <= n < (s + 1) * (s + 1) && n - s * s > s,
        ;
    } else {
        assert(is_round_sqrt(n, s)) by (nonlinear_arith)
            requires
                0 <= s && s * s <= n < (s + 1) * (s + 1) && n - s * s <= s,
        ;
    }
    assert(is_round_sqrt(n, round_sqrt(n)));
}

pub proof fn lemma_round_sqrt_unique(n: int, r: int)
    requires
        is_round_sqrt(n, r),
        n >= 0,
    ensures
        r == round_sqrt(n),
{
    lemma_round_sqrt_exists(n);
    let s = round_sqrt(n);
    assert(r == s) by (nonlinear_arith)
        requires
            is_round_sqrt(n, r) && is_round_sqrt(n, s),
    ;
}

/// Rounded integer square root.
pub(crate) fn round_isqrt_u128(n: u128) -> (r: u128)
    requires
        n < 0x4000_0000_0000_0000_0000_0000_0000_0000,
    ensures
        r as int == round_sqrt(n as int),
        is_round_sqrt(n as int, r as int),
{
    let s = isqrt_u128(n);
    proof {
        assert(s < 0x8000_0000_0000_0000_0000_0000_0000_0000u128) by (nonlinear_arith)
            requires
                (s as int) * (s as int) <= n < 0x4000_0000_0000_0000_0000_0000_0000_0000u128,
        ;
    }
    let r: u128 = if n - s * s > s {
        s + 1
    } else {
        s
    };
    proof {
        if n - s * s > s {
            assert(is_round_sqrt(n as int, s as int + 1)) by (nonlinear_arith)
                requires
                    0 <= s && (s as int) * (s as int) <= n < ((s + 1) as int) * ((s + 1) as int)
                        && n - s * s > s,
            ;
        } else {
            assert(is_round_sqrt(n as int, s as int)) by (nonlinear_arith)
                requires
                    0 <= s && (s as int) * (s as int) <= n < ((s + 1) as int) * ((s + 1) as int)
                        && n - s * s <= s,
            ;
        }
        lemma_round_sqrt_unique(n as int, r as int);
    }
    r
}

/// Truncating division: rounds towards zero like hardware signed division.
pub open spec fn trunc_div(a: int, b: int) -> int {
    if a >= 0 {
        a / b
    } else {
        -((-a) / b)
    }
}

/// Truncating halving: rounds towards zero like hardware signed division.
pub open spec fn half_toward_zero(s: int) -> int {
    if s >= 0 {
        s / 2
    } else {
        -((-s) / 2)
    }
}

impl Coord {
    #[inline]
    pub fn new(x: isize, y: isize) -> (r: Coord)
        ensures
            r == (Coord { x, y }),
    {
        Coord { x, y }
    }

    /// The component-wise absolute difference of two points.
    pub fn diff(self, rhs: Coord) -> (r: Coord)
        requires
            -(isize::MAX as int) <= self.x - rhs.x <= isize::MAX as int,
            -(isize::MAX as int) <= self.y - rhs.y <= isize::MAX as int,
        ensures
            r.x == abs(self.x - rhs.x),
            r.y == abs(self.y - rhs.y),
    {
        let dx = self.x - rhs.x;
        let dy = self.y - rhs.y;
        Coord { x: if dx < 0 { -dx } else { dx }, y: if dy < 0 { -dy } else { dy } }
    }

    /// The Euclidean distance between two points, rounded down.
    pub fn distance(self, rhs: Coord) -> (r: usize)
        requires
            (self.x - rhs.x) * (self.x - rhs.x) + (self.y - rhs.y) * (self.y - rhs.y) < (
            usize::MAX as int + 1) * (usize::MAX as int + 1),
        ensures
            is_floor_sqrt(
                (self.x - rhs.x) * (self.x - rhs.x) + (self.y - rhs.y) * (self.y - rhs.y),
                r as int,
            ),
    {
        let dx: i128 = rhs.x as i128 - self.x as i128;
        let dy: i128 = rhs.y as i128 - self.y as i128;
        let adx: u128 = if dx < 0 {
            (-dx) as u128
        } else {
            dx as u128
        };
        let ady: u128 = if dy < 0 {
            (-dy) as u128
        } else {
            dy as u128
        };
        proof {
            assert(adx * adx == (self.x - rhs.x) * (self.x - rhs.x) && ady * ady == (self.y
                - rhs.y) * (self.y - rhs.y)) by (nonlinear_arith)
                requires
                    adx == abs(rhs.x as int - self.x as int) && ady == abs(
                        rhs.y as int - self.y as int,
                    ),
            ;
            assert(adx * adx <= 0xffff_ffff_ffff_ffff_0000_0000_0000_0001int && ady * ady
                <= 0xffff_ffff_ffff_ffff_0000_0000_0000_0001int) by (nonlinear_arith)
                requires
                    adx <= 0xffff_ffff_ffff_ffffu128 && ady <= 0xffff_ffff_ffff_ffffu128,
            ;
            assert(usize::MAX as int <= 0xffff_ffff_ffff_ffffint);
            assert((usize::MAX as int + 1) * (usize::MAX as int + 1) <= u128::MAX as int + 1)
                by (nonlinear_arith)
                requires
                    usize::MAX as int <= 0xffff_ffff_ffff_ffffint,
            ;
        }
        let sq: u128 = adx * adx + ady * ady;
        let r = isqrt_u128(sq);
        proof {
            assert((r as int) * (r as int) < (usize::MAX as int + 1) * (usize::MAX as int + 1)
                ==> r <= usize::MAX as int) by (nonlinear_arith);
        }
        r as usize
    }

    /// The component-wise midpoint, each axis rounded towards zero.
    pub fn mid_point(self, rhs: Coord) -> (r: Coord)
        requires
            -(isize::MAX as int) <= self.x + rhs.x <= isize::MAX as int,
            -(isize::MAX as int) <= self.y + rhs.y <= isize::MAX as int,
        ensures
            r.x == half_toward_zero(self.x + rhs.x),
            r.y == half_toward_zero(self.y + rhs.y),
    {
        Coord { x: half_exec(self.x + rhs.x), y: half_exec(self.y + rhs.y) }
    }

    /// The 2D cross product (signed parallelogram area).
    pub fn cross_product(self, rhs: Coord) -> (r: isize)
        requires
            -(isize::MAX as int) <= self.x * rhs.y <= isize::MAX as int,
            -(isize::MAX as int) <= self.y * rhs.x <= isize::MAX as int,
            -(isize::MAX as int) <= self.x * rhs.y - self.y * rhs.x <= isize::MAX as int,
        ensures
            r == self.x * rhs.y - self.y * rhs.x,
    {
        self.x * rhs.y - self.y * rhs.x
    }

    /// The dot product.
    pub fn dot_product(self, rhs: Coord) -> (r: isize)
        requires
            -(isize::MAX as int) <= self.x * rhs.x <= isize::MAX as int,
            -(isize::MAX as int) <= self.y * rhs.y <= isize::MAX as int,
            -(isize::MAX as int) <= self.x * rhs.x + self.y * rhs.y <= isize::MAX as int,
        ensures
            r == self.x * rhs.x + self.y * rhs.y,
    {
        self.x * rhs.x + self.y * rhs.y
    }

    /// The point rotated a quarter turn: `(x, y)` becomes `(y, -x)`.
    pub fn perpendicular(self) -> (r: Coord)
        requires
            self.x != isize::MIN,
        ensures
            r.x == self.y,
            r.y == -self.x,
    {
        Coord { x: self.y, y: -self.x }
    }
}

fn half_exec(s: isize) -> (r: isize)
    requires
        -(isize::MAX as int) <= s,
    ensures
        r == half_toward_zero(s as int),
{
    if s >= 0 {
        ((s as usize) / 2) as isize
    } else {
        let m = ((-s) as usize) / 2;
        -(m as isize)
    }
}

} // verus!

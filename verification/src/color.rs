//! RGBA color values and straight-alpha "over" compositing.
//!
//! All channel math is done in exact integer arithmetic over the 0..=255
//! channel range; fractional results are rounded half away from zero, and
//! the rounding is part of each function's contract.

use vstd::prelude::*;

verus! {

/// Error returned when a hex color string cannot be parsed.
#[derive(Debug, PartialEq, Eq)]
pub enum ColorError {
    InvalidHexFormat(String),
}

/// An RGBA color with one byte per channel; alpha is straight (not
/// premultiplied).
#[derive(Copy, Clone, Debug, PartialEq, Eq, Hash, Structural)]
pub struct Color {
    pub r: u8,
    pub g: u8,
    pub b: u8,
    pub a: u8,
}

impl Default for Color {
    /// Opaque black.
    fn default() -> (r: Color)
        ensures
            r == (Color { r: 0, g: 0, b: 0, a: 255 }),
    {
        Color { r: 0, g: 0, b: 0, a: 255 }
    }
}

/// `num / den`, rounded half up; both arguments must be non-negative.
pub open spec fn rnd_div(num: int, den: int) -> int {
    (2 * num + den) / (2 * den)
}

/// Normalization constant of the "over" operator: `65025 * outA` where
/// `outA = 1 - (1 - srcA/255) * (1 - dstA/255)`.
pub open spec fn blend_na(base_a: int, added_a: int) -> int {
    65025 - (255 - added_a) * (255 - base_a)
}

/// One channel of the "over" operator, scaled back to 0..=255.
pub open spec fn blend_channel(base_c: int, base_a: int, added_c: int, added_a: int) -> int {
    if blend_na(base_a, added_a) == 0 {
        0
    } else {
        rnd_div(
            255 * added_c * added_a + base_c * base_a * (255 - added_a),
            blend_na(base_a, added_a),
        )
    }
}

/// The full "over" operator on two colors: `added` is composited over `base`.
pub open spec fn spec_blend(base: Color, added: Color) -> Color {
    Color {
        r: blend_channel(base.r as int, base.a as int, added.r as int, added.a as int) as u8,
        g: blend_channel(base.g as int, base.a as int, added.g as int, added.a as int) as u8,
        b: blend_channel(base.b as int, base.a as int, added.b as int, added.a as int) as u8,
        a: rnd_div(blend_na(base.a as int, added.a as int), 255) as u8,
    }
}

/// Weighted luminance comparison: true when the color's brightness
/// (0.2126 R + 0.7152 G + 0.0722 B over normalized channels) is below 1/2.
pub open spec fn spec_is_dark(c: Color) -> bool {
    2126 * (c.r as int) + 7152 * (c.g as int) + 722 * (c.b as int) < 1275000
}

/// A channel scaled by `mul/10`, rounded half up and clamped to 255.
pub open spec fn scale_channel(c: int, mul: int) -> int {
    let v = rnd_div(c * mul, 10);
    if v > 255 {
        255
    } else {
        v
    }
}

/// Luminance numerator used by de/saturation, over denominator 10000.
pub open spec fn lum_num(c: Color) -> int {
    2989 * (c.r as int) + 5870 * (c.g as int) + 1140 * (c.b as int)
}

/// A channel moved one tenth of the way towards the luminance.
pub open spec fn desat_channel(c: int, lum: int) -> int {
    rnd_div(90000 * c + lum, 100000)
}

/// A channel moved one tenth of the way away from the luminance, clamped.
pub open spec fn sat_channel(c: int, lum: int) -> int {
    let num = 110000 * c - lum;
    if num <= 0 {
        0
    } else if rnd_div(num, 100000) > 255 {
        255
    } else {
        rnd_div(num, 100000)
    }
}

impl Color {
    /// Create a color with the given channels and alpha 255.
    #[inline]
    pub fn rgb(r: u8, g: u8, b: u8) -> (c: Color)
        ensures
            c == (Color { r, g, b, a: 255u8 }),
    {
        Color { r, g, b, a: 255 }
    }

    /// Create a color with the given channels.
    #[inline]
    pub fn rgba(r: u8, g: u8, b: u8, a: u8) -> (c: Color)
        ensures
            c == (Color { r, g, b, a }),
    {
        Color { r, g, b, a }
    }

    /// Create a gray color: all three channels set to `value`, alpha 255.
    #[inline]
    pub fn gray(value: u8) -> (c: Color)
        ensures
            c == (Color { r: value, g: value, b: value, a: 255u8 }),
    {
        Color { r: value, g: value, b: value, a: 255 }
    }

    /// Unpack a big-endian `[R,G,B,A]` integer into a color.
    pub fn from_i32(value: i32) -> (c: Color)
        ensures
            c.r == (value as u32) / 0x1000000,
            c.g == ((value as u32) / 0x10000) % 256,
            c.b == ((value as u32) / 0x100) % 256,
            c.a == (value as u32) % 256,
    {
        let v = value as u32;
        let r = (v >> 24) as u8;
        let g = ((v >> 16) & 0xff) as u8;
        let b = ((v >> 8) & 0xff) as u8;
        let a = (v & 0xff) as u8;
        proof {
            assert(((v >> 24) & 0xff) == v / 0x1000000 && ((v >> 16) & 0xff) == (v / 0x10000) % 256
                && ((v >> 8) & 0xff) == (v / 0x100) % 256 && (v & 0xff) == v % 256 && (v >> 24)
                == ((v >> 24) & 0xff)) by (bit_vector);
        }
        Color { r, g, b, a }
    }

    /// The channels as an `[R,G,B,A]` array.
    #[inline]
    pub fn as_array(&self) -> (r: [u8; 4])
        ensures
            r@ == seq![self.r, self.g, self.b, self.a],
    {
        let out = [self.r, self.g, self.b, self.a];
        proof {
            assert(out@ =~= seq![self.r, self.g, self.b, self.a]);
        }
        out
    }

    /// Pack the channels into a big-endian `[R,G,B,A]` integer.
    pub fn as_i32(&self) -> (v: i32)
        ensures
            (v as u32) == (self.r as u32) * 0x1000000 + (self.g as u32) * 0x10000 + (
            self.b as u32) * 0x100 + (self.a as u32),
    {
        let r = self.r as u32;
        let g = self.g as u32;
        let b = self.b as u32;
        let a = self.a as u32;
        let v = (r << 24) | (g << 16) | (b << 8) | a;
        proof {
            assert(r < 256 && g < 256 && b < 256 && a < 256 ==> ((r << 24) | (g << 16) | (b << 8)
                | a) == r * 0x1000000 + g * 0x10000 + b * 0x100 + a) by (bit_vector);
            assert(v as i32 as u32 == v) by (bit_vector);
        }
        v as i32
    }

    /// True when the alpha channel is zero.
    #[inline]
    pub fn is_transparent(&self) -> (r: bool)
        ensures
            r == (self.a == 0),
    {
        self.a == 0
    }

    /// True when the weighted luminance is below one half.
    pub fn is_dark(&self) -> (r: bool)
        ensures
            r == spec_is_dark(*self),
    {
        let v: u32 = 2126 * (self.r as u32) + 7152 * (self.g as u32) + 722 * (self.b as u32);
        v < 1275000
    }

    /// Composite `added` over `self` with the straight-alpha "over" operator.
    ///
    /// Each channel is computed exactly in integer arithmetic and rounded
    /// half up; when both alphas are zero the result is fully transparent
    /// black.
    pub fn blend(&self, added: Color) -> (r: Color)
        ensures
            r == spec_blend(*self, added),
    {
        let ba = self.a as u32;
        let aa = added.a as u32;
        proof {
            assert((255 - aa) * (255 - ba) <= 65025) by (nonlinear_arith)
                requires
                    aa <= 255 && ba <= 255,
            ;
        }
        let na: u32 = 65025 - (255 - aa) * (255 - ba);
        let a_out: u32 = (2 * na + 255) / 510;
        if na == 0 {
            proof {
                assert(rnd_div(0, 255) == 0);
            }
            Color { r: 0, g: 0, b: 0, a: 0 }
        } else {
            let r = blend_one(self.r, ba, added.r, aa, na);
            let g = blend_one(self.g, ba, added.g, aa, na);
            let b = blend_one(self.b, ba, added.b, aa, na);
            proof {
                assert(a_out == rnd_div(na as int, 255) && a_out <= 255) by (nonlinear_arith)
                    requires
                        na <= 65025 && a_out == (2 * na + 255) / 510,
                ;
            }
            Color { r, g, b, a: a_out as u8 }
        }
    }

    /// Copy of the color with every channel multiplied by 0.9.
    pub fn darken(&self) -> (r: Color)
        ensures
            r.r == scale_channel(self.r as int, 9),
            r.g == scale_channel(self.g as int, 9),
            r.b == scale_channel(self.b as int, 9),
            r.a == self.a,
    {
        Color {
            r: scale_one(self.r, 9),
            g: scale_one(self.g, 9),
            b: scale_one(self.b, 9),
            a: self.a,
        }
    }

    /// Copy of the color with every channel multiplied by 1.1 (clamped).
    pub fn lighten(&self) -> (r: Color)
        ensures
            r.r == scale_channel(self.r as int, 11),
            r.g == scale_channel(self.g as int, 11),
            r.b == scale_channel(self.b as int, 11),
            r.a == self.a,
    {
        Color {
            r: scale_one(self.r, 11),
            g: scale_one(self.g, 11),
            b: scale_one(self.b, 11),
            a: self.a,
        }
    }

    /// Move every channel one tenth of the way towards the luminance.
    pub fn desaturate(&self) -> (r: Color)
        ensures
            r.r == desat_channel(self.r as int, lum_num(*self)),
            r.g == desat_channel(self.g as int, lum_num(*self)),
            r.b == desat_channel(self.b as int, lum_num(*self)),
            r.a == self.a,
    {
        let lum: u32 = 2989 * (self.r as u32) + 5870 * (self.g as u32) + 1140 * (self.b as u32);
        Color {
            r: desat_one(self.r, lum),
            g: desat_one(self.g, lum),
            b: desat_one(self.b, lum),
            a: self.a,
        }
    }

    /// Move every channel one tenth of the way away from the luminance.
    pub fn saturate(&self) -> (r: Color)
        ensures
            r.r == sat_channel(self.r as int, lum_num(*self)),
            r.g == sat_channel(self.g as int, lum_num(*self)),
            r.b == sat_channel(self.b as int, lum_num(*self)),
            r.a == self.a,
    {
        let lum: u32 = 2989 * (self.r as u32) + 5870 * (self.g as u32) + 1140 * (self.b as u32);
        Color {
            r: sat_one(self.r, lum),
            g: sat_one(self.g, lum),
            b: sat_one(self.b, lum),
            a: self.a,
        }
    }

    /// Add the given (possibly negative) amounts to the channels, clamping
    /// each result to 0..=255.
    pub fn tint_add(&mut self, r_diff: isize, g_diff: isize, b_diff: isize, a_diff: isize)
        ensures
            final(self).r == clamp_channel(old(self).r as int + r_diff as int),
            final(self).g == clamp_channel(old(self).g as int + g_diff as int),
            final(self).b == clamp_channel(old(self).b as int + b_diff as int),
            final(self).a == clamp_channel(old(self).a as int + a_diff as int),
    {
        self.r = add_clamped(self.r, r_diff);
        self.g = add_clamped(self.g, g_diff);
        self.b = add_clamped(self.b, b_diff);
        self.a = add_clamped(self.a, a_diff);
    }
}

/// An integer clamped to the 0..=255 channel range.
pub open spec fn clamp_channel(v: int) -> int {
    if v < 0 {
        0
    } else if v > 255 {
        255
    } else {
        v
    }
}

fn add_clamped(c: u8, diff: isize) -> (r: u8)
    ensures
        r == clamp_channel(c as int + diff as int),
{
    let v: i128 = c as i128 + diff as i128;
    if v < 0 {
        0
    } else if v > 255 {
        255
    } else {
        v as u8
    }
}

fn blend_one(base_c: u8, ba: u32, added_c: u8, aa: u32, na: u32) -> (r: u8)
    requires
        ba <= 255,
        aa <= 255,
        na == blend_na(ba as int, aa as int),
        na > 0,
    ensures
        r == blend_channel(base_c as int, ba as int, added_c as int, aa as int),
{
    proof {
        assert((base_c as int) * (ba as int) <= 65025 && 255 * (added_c as int) * (aa as int)
            <= 16581375 && (base_c as int) * (ba as int) * (255 - aa as int) <= 16581375 && 255 * (
        added_c as int) * (aa as int) + (base_c as int) * (ba as int) * (255 - aa as int) <= 255
            * na) by (nonlinear_arith)
            requires
                ba <= 255 && aa <= 255 && added_c <= 255 && base_c <= 255 && na == blend_na(
                    ba as int,
                    aa as int,
                ),
        ;
    }
    let num: u32 = 255 * (added_c as u32) * aa + (base_c as u32) * ba * (255 - aa);
    proof {
        assert(na <= 65025);
    }
    let q: u32 = (2 * num + na) / (2 * na);
    proof {
        assert(q == rnd_div(num as int, na as int) && q <= 255) by (nonlinear_arith)
            requires
                0 < na <= 65025 && num <= 255 * na && q == ((2 * num + na) as int) / ((2
                    * na) as int),
        ;
    }
    q as u8
}

fn scale_one(c: u8, mul: u32) -> (r: u8)
    requires
        mul <= 16,
    ensures
        r == scale_channel(c as int, mul as int),
{
    proof {
        assert(2 * (c as int) * (mul as int) <= 8160) by (nonlinear_arith)
            requires
                c <= 255 && mul <= 16,
        ;
    }
    let v: u32 = (2 * (c as u32) * mul + 10) / 20;
    proof {
        assert(v == rnd_div((c as int) * (mul as int), 10)) by (nonlinear_arith)
            requires
                c <= 255 && mul <= 16 && v == ((2 * (c as int) * (mul as int) + 10)) / 20,
        ;
    }
    if v > 255 {
        255
    } else {
        v as u8
    }
}

fn desat_one(c: u8, lum: u32) -> (r: u8)
    requires
        lum <= 2550000,
    ensures
        r == desat_channel(c as int, lum as int),
{
    let num: u64 = 90000 * (c as u64) + lum as u64;
    let v: u64 = (2 * num + 100000) / 200000;
    proof {
        assert(v == rnd_div(num as int, 100000) && v <= 255) by (nonlinear_arith)
            requires
                c <= 255 && lum <= 2550000 && num == 90000 * (c as int) + lum && v == ((2 * num
                    + 100000) as int) / 200000,
        ;
    }
    v as u8
}

fn sat_one(c: u8, lum: u32) -> (r: u8)
    requires
        lum <= 2550000,
    ensures
        r == sat_channel(c as int, lum as int),
{
    let num: i64 = 110000 * (c as i64) - lum as i64;
    if num <= 0 {
        0
    } else {
        let v: i64 = (2 * num + 100000) / 200000;
        proof {
            assert(v == rnd_div(num as int, 100000) && v >= 0 && v <= 281) by (nonlinear_arith)
                requires
                    0 < num <= 110000 * 255 && v == ((2 * num + 100000) as int) / 200000,
            ;
        }
        if v > 255 {
            255
        } else {
            v as u8
        }
    }
}

/// The sixteen upper-case hex digit characters, by value.
pub open spec fn hex_digit_char(d: int) -> char {
    if d == 0 {
        '0'
    } else if d == 1 {
        '1'
    } else if d == 2 {
        '2'
    } else if d == 3 {
        '3'
    } else if d == 4 {
        '4'
    } else if d == 5 {
        '5'
    } else if d == 6 {
        '6'
    } else if d == 7 {
        '7'
    } else if d == 8 {
        '8'
    } else if d == 9 {
        '9'
    } else if d == 10 {
        'A'
    } else if d == 11 {
        'B'
    } else if d == 12 {
        'C'
    } else if d == 13 {
        'D'
    } else if d == 14 {
        'E'
    } else {
        'F'
    }
}

/// The value of a hex digit character, or -1 for any other character.
pub open spec fn hex_char_val(c: char) -> int {
    if c == '0' {
        0
    } else if c == '1' {
        1
    } else if c == '2' {
        2
    } else if c == '3' {
        3
    } else if c == '4' {
        4
    } else if c == '5' {
        5
    } else if c == '6' {
        6
    } else if c == '7' {
        7
    } else if c == '8' {
        8
    } else if c == '9' {
        9
    } else if c == 'a' || c == 'A' {
        10
    } else if c == 'b' || c == 'B' {
        11
    } else if c == 'c' || c == 'C' {
        12
    } else if c == 'd' || c == 'D' {
        13
    } else if c == 'e' || c == 'E' {
        14
    } else if c == 'f' || c == 'F' {
        15
    } else {
        -1
    }
}

pub open spec fn is_hex_digit(c: char) -> bool {
    hex_char_val(c) >= 0
}

/// Two upper-case hex digits for a byte value.
pub open spec fn hex_pair(v: int) -> Seq<char> {
    seq![hex_digit_char(v / 16), hex_digit_char(v % 16)]
}

/// The string `to_hex` produces: `#` then eight upper-case hex digits.
pub open spec fn spec_to_hex(c: Color) -> Seq<char> {
    seq!['#'] + hex_pair(c.r as int) + hex_pair(c.g as int) + hex_pair(c.b as int) + hex_pair(
        c.a as int,
    )
}

/// The input with one leading `#` removed, if present.
pub open spec fn strip_hash(s: Seq<char>) -> Seq<char> {
    if s.len() > 0 && s[0] == '#' {
        s.drop_first()
    } else {
        s
    }
}

pub open spec fn all_hex(s: Seq<char>) -> bool {
    forall|i: int| 0 <= i < s.len() ==> is_hex_digit(s[i])
}

/// The byte encoded by the `i`-th pair of hex digits.
pub open spec fn hex_byte(s: Seq<char>, i: int) -> int {
    16 * hex_char_val(s[2 * i]) + hex_char_val(s[2 * i + 1])
}

/// What `from_hex` accepts and returns: after stripping an optional leading
/// `#` the input must be exactly 6 or 8 hex digits; 6 digits leave alpha at
/// 255.  Anything else is rejected.
pub open spec fn spec_from_hex(s: Seq<char>) -> Option<Color> {
    let h = strip_hash(s);
    if (h.len() == 6 || h.len() == 8) && all_hex(h) {
        Some(
            Color {
                r: hex_byte(h, 0) as u8,
                g: hex_byte(h, 1) as u8,
                b: hex_byte(h, 2) as u8,
                a: if h.len() == 8 {
                    hex_byte(h, 3) as u8
                } else {
                    255u8
                },
            },
        )
    } else {
        None
    }
}

fn hex_digit_str(d: u8) -> (r: &'static str)
    requires
        d < 16,
    ensures
        r@ == seq![hex_digit_char(d as int)],
{
    proof {
        reveal_strlit("0");
        reveal_strlit("1");
        reveal_strlit("2");
        reveal_strlit("3");
        reveal_strlit("4");
        reveal_strlit("5");
        reveal_strlit("6");
        reveal_strlit("7");
        reveal_strlit("8");
        reveal_strlit("9");
        reveal_strlit("A");
        reveal_strlit("B");
        reveal_strlit("C");
        reveal_strlit("D");
        reveal_strlit("E");
        reveal_strlit("F");
    }
    let r = match d {
        0 => "0",
        1 => "1",
        2 => "2",
        3 => "3",
        4 => "4",
        5 => "5",
        6 => "6",
        7 => "7",
        8 => "8",
        9 => "9",
        10 => "A",
        11 => "B",
        12 => "C",
        13 => "D",
        14 => "E",
        _ => "F",
    };
    proof {
        assert(r@ =~= seq![hex_digit_char(d as int)]);
    }
    r
}

fn hex_char_value(c: char) -> (r: i8)
    ensures
        r as int == hex_char_val(c),
{
    match c {
        '0' => 0,
        '1' => 1,
        '2' => 2,
        '3' => 3,
        '4' => 4,
        '5' => 5,
        '6' => 6,
        '7' => 7,
        '8' => 8,
        '9' => 9,
        'a' | 'A' => 10,
        'b' | 'B' => 11,
        'c' | 'C' => 12,
        'd' | 'D' => 13,
        'e' | 'E' => 14,
        'f' | 'F' => 15,
        _ => -1,
    }
}

impl Color {
    /// Format the color as `#RRGGBBAA` with upper-case hex digits.
    pub fn to_hex(&self) -> (r: String)
        ensures
            r@ == spec_to_hex(*self),
    {
        proof {
            reveal_strlit("#");
        }
        let mut s = String::from_str("#");
        s.append(hex_digit_str(self.r / 16));
        s.append(hex_digit_str(self.r % 16));
        s.append(hex_digit_str(self.g / 16));
        s.append(hex_digit_str(self.g % 16));
        s.append(hex_digit_str(self.b / 16));
        s.append(hex_digit_str(self.b % 16));
        s.append(hex_digit_str(self.a / 16));
        s.append(hex_digit_str(self.a % 16));
        proof {
            assert(s@ =~= spec_to_hex(*self));
        }
        s
    }

    /// Parse `#RRGGBB`, `#RRGGBBAA`, `RRGGBB` or `RRGGBBAA`.
    ///
    /// Returns an error when the digit count (after stripping an optional
    /// leading `#`) is not 6 or 8, or when any character is not a hex digit.
    pub fn from_hex(hex: &str) -> (r: Result<Color, ColorError>)
        ensures
            r is Ok <==> spec_from_hex(hex@) is Some,
            r is Ok ==> r->Ok_0 == spec_from_hex(hex@)->Some_0,
    {
        let len = hex.unicode_len();
        let start: usize = if len > 0 && hex.get_char(0) == '#' {
            1
        } else {
            0
        };
        let ghost h = strip_hash(hex@);
        proof {
            assert(h =~= hex@.subrange(start as int, len as int));
        }
        let n = len - start;
        if n != 6 && n != 8 {
            return Err(ColorError::InvalidHexFormat(String::from_str("wrong length")));
        }
        let mut vals: Vec<u8> = Vec::new();
        let mut i: usize = 0;
        while i < n
            invariant
                i <= n,
                start + n == len,
                start == (if hex@.len() > 0 && hex@[0] == '#' {
                    1int
                } else {
                    0int
                }),
                len == hex@.len(),
                h == strip_hash(hex@),
                h.len() == n,
                vals@.len() == i,
                forall|j: int| 0 <= j < i ==> is_hex_digit(#[trigger] h[j]),
                forall|j: int| 0 <= j < i ==> #[trigger] vals@[j] == hex_char_val(h[j]),
            decreases n - i,
        {
            let c = hex.get_char(start + i);
            proof {
                if hex@.len() > 0 && hex@[0] == '#' {
                    assert(h[i as int] == hex@.drop_first()[i as int]);
                }
                assert(c == h[i as int]);
            }
            let v = hex_char_value(c);
            if v < 0 {
                proof {
                    assert(!is_hex_digit(h[i as int]));
                    assert(!all_hex(h));
                }
                return Err(ColorError::InvalidHexFormat(String::from_str("non hex digits")));
            }
            vals.push(v as u8);
            i += 1;
        }
        proof {
            assert(all_hex(h));
            assert(spec_from_hex(hex@) is Some);
        }
        let r = 16 * vals[0] + vals[1];
        let g = 16 * vals[2] + vals[3];
        let b = 16 * vals[4] + vals[5];
        let a = if n == 8 {
            16 * vals[6] + vals[7]
        } else {
            255
        };
        Ok(Color { r, g, b, a })
    }
}

/// Law: formatting a color as hex and parsing the result yields the same
/// color, for every color.
pub proof fn lemma_hex_round_trip(c: Color)
    ensures
        spec_from_hex(spec_to_hex(c)) == Some(c),
{
    let s = spec_to_hex(c);
    let h = strip_hash(s);
    assert(h =~= hex_pair(c.r as int) + hex_pair(c.g as int) + hex_pair(c.b as int) + hex_pair(
        c.a as int,
    ));
    assert forall|d: int| 0 <= d < 16 implies hex_char_val(hex_digit_char(d)) == d by {}
    assert forall|v: int| 0 <= v < 256 implies #[trigger] hex_pair(v).len() == 2 && is_hex_digit(
        hex_pair(v)[0],
    ) && is_hex_digit(hex_pair(v)[1]) && 16 * hex_char_val(hex_pair(v)[0]) + hex_char_val(
        hex_pair(v)[1],
    ) == v by {
        assert(0 <= v / 16 < 16);
        assert(0 <= v % 16 < 16);
        assert(16 * (v / 16) + v % 16 == v);
    }
    assert(h.len() == 8);
    assert(all_hex(h)) by {
        assert forall|i: int| 0 <= i < h.len() implies is_hex_digit(h[i]) by {
            if i < 2 {
                assert(h[i] == hex_pair(c.r as int)[i]);
            } else if i < 4 {
                assert(h[i] == hex_pair(c.g as int)[i - 2]);
            } else if i < 6 {
                assert(h[i] == hex_pair(c.b as int)[i - 4]);
            } else {
                assert(h[i] == hex_pair(c.a as int)[i - 6]);
            }
        }
    }
    assert(hex_byte(h, 0) == c.r as int);
    assert(hex_byte(h, 1) == c.g as int);
    assert(hex_byte(h, 2) == c.b as int);
    assert(hex_byte(h, 3) == c.a as int);
    assert(spec_from_hex(s) == Some(c));
}

/// Law: compositing a fully transparent color over `c` leaves `c` unchanged,
/// for every color with non-zero alpha (a fully transparent base collapses
/// to transparent black, since the result has no coverage at all).
pub proof fn lemma_blend_transparent_identity(c: Color)
    requires
        c.a > 0,
    ensures
        spec_blend(c, Color { r: 0, g: 0, b: 0, a: 0 }) == c,
{
    let ba = c.a as int;
    assert(blend_na(ba, 0) == 255 * ba) by (nonlinear_arith);
    assert forall|ch: int| 0 <= ch <= 255 implies blend_channel(ch, ba, 0, 0) == ch by {
        assert(255 * 0 * 0 + ch * ba * (255 - 0) == ch * ba * 255) by (nonlinear_arith);
        assert((2 * (ch * ba * 255) + 255 * ba) / (2 * (255 * ba)) == ch) by (nonlinear_arith)
            requires
                0 < ba <= 255 && 0 <= ch <= 255,
        ;
    }
    assert(rnd_div(255 * ba, 255) == ba) by (nonlinear_arith)
        requires
            0 < ba <= 255,
    ;
    assert(spec_blend(c, Color { r: 0, g: 0, b: 0, a: 0 }) == c);
}

/// Law: compositing a fully opaque color over anything yields that color.
pub proof fn lemma_blend_opaque_wins(base: Color, added: Color)
    requires
        added.a == 255,
    ensures
        spec_blend(base, added) == added,
{
    let ba = base.a as int;
    assert(blend_na(ba, 255) == 65025);
    assert forall|ac: int, bc: int| 0 <= ac <= 255 && 0 <= bc <= 255 implies blend_channel(
        bc,
        ba,
        ac,
        255,
    ) == ac by {
        assert(255 * ac * 255 + bc * ba * (255 - 255) == ac * 65025) by (nonlinear_arith);
        assert((2 * (ac * 65025) + 65025) / (2 * 65025int) == ac) by (nonlinear_arith)
            requires
                0 <= ac <= 255,
        ;
    }
    assert(rnd_div(65025, 255) == ((2 * 65025 + 255) as int) / ((2 * 255) as int));
    assert(((2 * 65025 + 255) as int) / ((2 * 255) as int) == 255) by (nonlinear_arith);
    assert(spec_blend(base, added) == added);
}

} // verus!

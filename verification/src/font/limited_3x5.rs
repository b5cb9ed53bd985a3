//! Limited 3x5 bitmap font data, one packed 64-bit word per glyph.
//!
//! Codes map through `crate::text::chr_to_code`: ASCII characters use
//! their own code, a few symbols use reserved codes, and whitespace is
//! never drawn.  Any unmapped code yields the filled "unknown" box.

use vstd::prelude::*;

verus! {

pub const CHAR_WIDTH: usize = 3;

pub const CHAR_HEIGHT: usize = 5;

/// One pixel of a packed glyph: bit `i` of the row-major cell.
pub open spec fn glyph_px(bits: u64, i: int) -> bool {
    i < 64 && ((bits >> (i as u64)) & 1) == 1
}

/// The whole glyph as a pixel sequence.
pub open spec fn spec_glyph(code: u8) -> Seq<bool> {
    Seq::new(15, |i: int| glyph_px(spec_glyph_bits(code), i))
}

/// The packed 3x5 glyph bitmap for an ASCII-mapped code: bit `i` is
/// pixel `i` of the row-major cell.  Unknown codes map to a filled box.
pub open spec fn spec_glyph_bits(code: u8) -> u64 {
    if code == 33 {
        0x2092
    } else if code == 34 {
        0x2d
    } else if code == 35 {
        0x5f7d
    } else if code == 36 {
        0x3c72
    } else if code == 37 {
        0x52a5
    } else if code == 38 {
        0x454e
    } else if code == 39 {
        0x12
    } else if code == 40 {
        0x224a
    } else if code == 41 {
        0x2922
    } else if code == 42 {
        0x155
    } else if code == 43 {
        0x5d0
    } else if code == 44 {
        0x1400
    } else if code == 45 {
        0x1c0
    } else if code == 46 {
        0x2000
    } else if code == 47 {
        0x12a4
    } else if code == 48 {
        0x2b6a
    } else if code == 49 {
        0x249a
    } else if code == 50 {
        0x73a3
    } else if code == 51 {
        0x38a7
    } else if code == 52 {
        0x4f49
    } else if code == 53 {
        0x398f
    } else if code == 54 {
        0x7bce
    } else if code == 55 {
        0x1527
    } else if code == 56 {
        0x7bef
    } else if code == 57 {
        0x79ef
    } else if code == 58 {
        0x410
    } else if code == 59 {
        0x2410
    } else if code == 60 {
        0x2280
    } else if code == 61 {
        0xe38
    } else if code == 62 {
        0x2880
    } else if code == 63 {
        0x20a7
    } else if code == 64 {
        0x736f
    } else if code == 65 {
        0x5bee
    } else if code == 66 {
        0x7beb
    } else if code == 67 {
        0x724e
    } else if code == 68 {
        0x3b6b
    } else if code == 69 {
        0x72cf
    } else if code == 70 {
        0x12cf
    } else if code == 71 {
        0x7a4e
    } else if code == 72 {
        0x5bed
    } else if code == 73 {
        0x7497
    } else if code == 74 {
        0x2b24
    } else if code == 75 {
        0x5aed
    } else if code == 76 {
        0x7249
    } else if code == 77 {
        0x5b7d
    } else if code == 78 {
        0x5b6b
    } else if code == 79 {
        0x7b6e
    } else if code == 80 {
        0x13eb
    } else if code == 81 {
        0x7f6e
    } else if code == 82 {
        0x576b
    } else if code == 83 {
        0x39ce
    } else if code == 84 {
        0x2497
    } else if code == 85 {
        0x6b6d
    } else if code == 86 {
        0x2b6d
    } else if code == 87 {
        0x5f6d
    } else if code == 88 {
        0x5aad
    } else if code == 89 {
        0x39ad
    } else if code == 90 {
        0x72a7
    } else if code == 91 {
        0x324b
    } else if code == 92 {
        0x4889
    } else if code == 93 {
        0x6926
    } else if code == 95 {
        0x7000
    } else if code == 94 {
        0x2a
    } else if code == 96 {
        0x11
    } else if code == 97 {
        0x5bee
    } else if code == 98 {
        0x7beb
    } else if code == 99 {
        0x724e
    } else if code == 100 {
        0x3b6b
    } else if code == 101 {
        0x72cf
    } else if code == 102 {
        0x12cf
    } else if code == 103 {
        0x7a4e
    } else if code == 104 {
        0x5bed
    } else if code == 105 {
        0x7497
    } else if code == 106 {
        0x2b24
    } else if code == 107 {
        0x5aed
    } else if code == 108 {
        0x7249
    } else if code == 109 {
        0x5b7d
    } else if code == 110 {
        0x5b6b
    } else if code == 111 {
        0x7b6e
    } else if code == 112 {
        0x13eb
    } else if code == 113 {
        0x7f6e
    } else if code == 114 {
        0x576b
    } else if code == 115 {
        0x39ce
    } else if code == 116 {
        0x2497
    } else if code == 117 {
        0x6b6d
    } else if code == 118 {
        0x2b6d
    } else if code == 119 {
        0x5f6d
    } else if code == 120 {
        0x5aad
    } else if code == 121 {
        0x39ad
    } else if code == 122 {
        0x72a7
    } else if code == 123 {
        0x44d4
    } else if code == 124 {
        0x2492
    } else if code == 125 {
        0x1591
    } else if code == 126 {
        0x15
    } else if code == 127 {
        0x65d6
    } else if code == 31 {
        0x5000
    } else if code == 176 {
        0x36
    } else if code == 163 {
        0x72ce
    } else if code == 164 {
        0x54a8
    } else if code == 165 {
        0x2ead
    } else if code == 162 {
        0x2e7a
    } else if code == 25 {
        0x560
    } else {
        0x7b6f
    }
}

fn glyph_bits(code: u8) -> (r: u64)
    ensures
        r == spec_glyph_bits(code),
{
    match code {
        33 => 0x2092,
        34 => 0x2d,
        35 => 0x5f7d,
        36 => 0x3c72,
        37 => 0x52a5,
        38 => 0x454e,
        39 => 0x12,
        40 => 0x224a,
        41 => 0x2922,
        42 => 0x155,
        43 => 0x5d0,
        44 => 0x1400,
        45 => 0x1c0,
        46 => 0x2000,
        47 => 0x12a4,
        48 => 0x2b6a,
        49 => 0x249a,
        50 => 0x73a3,
        51 => 0x38a7,
        52 => 0x4f49,
        53 => 0x398f,
        54 => 0x7bce,
        55 => 0x1527,
        56 => 0x7bef,
        57 => 0x79ef,
        58 => 0x410,
        59 => 0x2410,
        60 => 0x2280,
        61 => 0xe38,
        62 => 0x2880,
        63 => 0x20a7,
        64 => 0x736f,
        65 => 0x5bee,
        66 => 0x7beb,
        67 => 0x724e,
        68 => 0x3b6b,
        69 => 0x72cf,
        70 => 0x12cf,
        71 => 0x7a4e,
        72 => 0x5bed,
        73 => 0x7497,
        74 => 0x2b24,
        75 => 0x5aed,
        76 => 0x7249,
        77 => 0x5b7d,
        78 => 0x5b6b,
        79 => 0x7b6e,
        80 => 0x13eb,
        81 => 0x7f6e,
        82 => 0x576b,
        83 => 0x39ce,
        84 => 0x2497,
        85 => 0x6b6d,
        86 => 0x2b6d,
        87 => 0x5f6d,
        88 => 0x5aad,
        89 => 0x39ad,
        90 => 0x72a7,
        91 => 0x324b,
        92 => 0x4889,
        93 => 0x6926,
        95 => 0x7000,
        94 => 0x2a,
        96 => 0x11,
        97 => 0x5bee,
        98 => 0x7beb,
        99 => 0x724e,
        100 => 0x3b6b,
        101 => 0x72cf,
        102 => 0x12cf,
        103 => 0x7a4e,
        104 => 0x5bed,
        105 => 0x7497,
        106 => 0x2b24,
        107 => 0x5aed,
        108 => 0x7249,
        109 => 0x5b7d,
        110 => 0x5b6b,
        111 => 0x7b6e,
        112 => 0x13eb,
        113 => 0x7f6e,
        114 => 0x576b,
        115 => 0x39ce,
        116 => 0x2497,
        117 => 0x6b6d,
        118 => 0x2b6d,
        119 => 0x5f6d,
        120 => 0x5aad,
        121 => 0x39ad,
        122 => 0x72a7,
        123 => 0x44d4,
        124 => 0x2492,
        125 => 0x1591,
        126 => 0x15,
        127 => 0x65d6,
        31 => 0x5000,
        176 => 0x36,
        163 => 0x72ce,
        164 => 0x54a8,
        165 => 0x2ead,
        162 => 0x2e7a,
        25 => 0x560,
        _ => 0x7b6f,
    }
}

/// The 3x5 pixel cell for an ASCII-mapped glyph code, row-major.
pub fn get_px_ascii(code: u8) -> (r: Vec<bool>)
    ensures
        r@ == spec_glyph(code),
        r@.len() == 15,
{
    let bits = glyph_bits(code);
    let mut out: Vec<bool> = Vec::new();
    let mut i: usize = 0;
    while i < 15
        invariant
            i <= 15,
            out@.len() == i,
            forall|j: int| 0 <= j < i ==> out@[j] == glyph_px(bits, j),
        decreases 15 - i,
    {
        let b = ((bits >> (i as u64)) & 1) == 1;
        out.push(b);
        i += 1;
    }
    proof {
        assert(out@ =~= spec_glyph(code));
    }
    out
}

} // verus!

//! Standard 6x7 bitmap font data, one packed 64-bit word per glyph.
//!
//! Codes map through `crate::text::chr_to_code`: ASCII characters use
//! their own code, a few symbols use reserved codes, and whitespace is
//! never drawn.  Any unmapped code yields the filled "unknown" box.

use vstd::prelude::*;

verus! {

pub const CHAR_WIDTH: usize = 6;

pub const CHAR_HEIGHT: usize = 7;

/// One pixel of a packed glyph: bit `i` of the row-major cell.
pub open spec fn glyph_px(bits: u64, i: int) -> bool {
    i < 64 && ((bits >> (i as u64)) & 1) == 1
}

/// The whole glyph as a pixel sequence.
pub open spec fn spec_glyph(code: u8) -> Seq<bool> {
    Seq::new(42, |i: int| glyph_px(spec_glyph_bits(code), i))
}

/// The packed 6x7 glyph bitmap for an ASCII-mapped code: bit `i` is
/// pixel `i` of the row-major cell.  Unknown codes map to a filled box.
pub open spec fn spec_glyph_bits(code: u8) -> u64 {
    if code == 33 {
        0x4004104104
    } else if code == 34 {
        0x28a
    } else if code == 35 {
        0xa7ca28a7ca
    } else if code == 36 {
        0x4790302784
    } else if code == 37 {
        0x21084210840
    } else if code == 38 {
        0x2c4aa10a48c
    } else if code == 39 {
        0x104
    } else if code == 40 {
        0x18304104318
    } else if code == 41 {
        0x6308208306
    } else if code == 42 {
        0x54e7ce540
    } else if code == 43 {
        0x8708000
    } else if code == 44 {
        0x4100000000
    } else if code == 45 {
        0x700000
    } else if code == 46 {
        0x4000000000
    } else if code == 47 {
        0x1084210800
    } else if code == 48 {
        0xc49249248c
    } else if code == 49 {
        0x1c208208308
    } else if code == 50 {
        0x1e08421048c
    } else if code == 51 {
        0xc49031048c
    } else if code == 52 {
        0x878a282082
    } else if code == 53 {
        0xc49038209e
    } else if code == 54 {
        0xc49238248c
    } else if code == 55 {
        0x410821041e
    } else if code == 56 {
        0xc49231248c
    } else if code == 57 {
        0xc49071248c
    } else if code == 58 {
        0x100000100
    } else if code == 59 {
        0x104000100
    } else if code == 60 {
        0x10204084210
    } else if code == 61 {
        0xe00e000
    } else if code == 62 {
        0x2108408102
    } else if code == 63 {
        0x800841048c
    } else if code == 64 {
        0x3e07db6185e
    } else if code == 65 {
        0x49279248c
    } else if code == 66 {
        0x39248e48e
    } else if code == 67 {
        0x31208248c
    } else if code == 68 {
        0x39249248e
    } else if code == 69 {
        0x78208e09e
    } else if code == 70 {
        0x8208e09e
    } else if code == 71 {
        0x31268248c
    } else if code == 72 {
        0x492792492
    } else if code == 73 {
        0x7c410411f
    } else if code == 74 {
        0x1c510411f
    } else if code == 75 {
        0x492286292
    } else if code == 76 {
        0x782082082
    } else if code == 77 {
        0x4514556d1
    } else if code == 78 {
        0x4516554d1
    } else if code == 79 {
        0x39145144e
    } else if code == 80 {
        0x8239248e
    } else if code == 81 {
        0x58955144e
    } else if code == 82 {
        0x49239248e
    } else if code == 83 {
        0x31220448c
    } else if code == 84 {
        0x10410411f
    } else if code == 85 {
        0x312492492
    } else if code == 86 {
        0x10a451451
    } else if code == 87 {
        0x295451451
    } else if code == 88 {
        0x44a10a451
    } else if code == 89 {
        0x10410a451
    } else if code == 90 {
        0x78210841e
    } else if code == 91 {
        0x1c10410411c
    } else if code == 92 {
        0x20408102040
    } else if code == 93 {
        0xe20820820e
    } else if code == 95 {
        0x1f000000000
    } else if code == 94 {
        0x284
    } else if code == 96 {
        0x204
    } else if code == 97 {
        0x71249c000
    } else if code == 98 {
        0x39248e082
    } else if code == 99 {
        0x70209c000
    } else if code == 100 {
        0x71249c410
    } else if code == 101 {
        0x70278c000
    } else if code == 102 {
        0x821c248c
    } else if code == 103 {
        0x620c28c000
    } else if code == 104 {
        0x49248e082
    } else if code == 105 {
        0x104100100
    } else if code == 106 {
        0x6208200200
    } else if code == 107 {
        0x492286282
    } else if code == 108 {
        0x204104104
    } else if code == 109 {
        0x8a2a94000
    } else if code == 110 {
        0x49248c000
    } else if code == 111 {
        0x31248c000
    } else if code == 112 {
        0x2086286000
    } else if code == 113 {
        0x1820c28c000
    } else if code == 114 {
        0x8208c000
    } else if code == 115 {
        0x39038c000
    } else if code == 116 {
        0x312086080
    } else if code == 117 {
        0x312492000
    } else if code == 118 {
        0x10a451000
    } else if code == 119 {
        0x295551000
    } else if code == 120 {
        0x48c492000
    } else if code == 121 {
        0xc41c492000
    } else if code == 122 {
        0x78421e000
    } else if code == 123 {
        0x8104084108
    } else if code == 124 {
        0xc30c30c30c
    } else if code == 125 {
        0x4208408204
    } else if code == 126 {
        0x294000
    } else if code == 127 {
        0xc48708748c
    } else if code == 31 {
        0x2a000000000
    } else if code == 176 {
        0x8508
    } else if code == 163 {
        0x1e0821c248c
    } else if code == 164 {
        0x89c51c880
    } else if code == 165 {
        0x4384384291
    } else if code == 162 {
        0x10e08e100
    } else if code == 25 {
        0x10a460000
    } else {
        0x3f86186187f
    }
}

fn glyph_bits(code: u8) -> (r: u64)
    ensures
        r == spec_glyph_bits(code),
{
    match code {
        33 => 0x4004104104,
        34 => 0x28a,
        35 => 0xa7ca28a7ca,
        36 => 0x4790302784,
        37 => 0x21084210840,
        38 => 0x2c4aa10a48c,
        39 => 0x104,
        40 => 0x18304104318,
        41 => 0x6308208306,
        42 => 0x54e7ce540,
        43 => 0x8708000,
        44 => 0x4100000000,
        45 => 0x700000,
        46 => 0x4000000000,
        47 => 0x1084210800,
        48 => 0xc49249248c,
        49 => 0x1c208208308,
        50 => 0x1e08421048c,
        51 => 0xc49031048c,
        52 => 0x878a282082,
        53 => 0xc49038209e,
        54 => 0xc49238248c,
        55 => 0x410821041e,
        56 => 0xc49231248c,
        57 => 0xc49071248c,
        58 => 0x100000100,
        59 => 0x104000100,
        60 => 0x10204084210,
        61 => 0xe00e000,
        62 => 0x2108408102,
        63 => 0x800841048c,
        64 => 0x3e07db6185e,
        65 => 0x49279248c,
        66 => 0x39248e48e,
        67 => 0x31208248c,
        68 => 0x39249248e,
        69 => 0x78208e09e,
        70 => 0x8208e09e,
        71 => 0x31268248c,
        72 => 0x492792492,
        73 => 0x7c410411f,
        74 => 0x1c510411f,
        75 => 0x492286292,
        76 => 0x782082082,
        77 => 0x4514556d1,
        78 => 0x4516554d1,
        79 => 0x39145144e,
        80 => 0x8239248e,
        81 => 0x58955144e,
        82 => 0x49239248e,
        83 => 0x31220448c,
        84 => 0x10410411f,
        85 => 0x312492492,
        86 => 0x10a451451,
        87 => 0x295451451,
        88 => 0x44a10a451,
        89 => 0x10410a451,
        90 => 0x78210841e,
        91 => 0x1c10410411c,
        92 => 0x20408102040,
        93 => 0xe20820820e,
        95 => 0x1f000000000,
        94 => 0x284,
        96 => 0x204,
        97 => 0x71249c000,
        98 => 0x39248e082,
        99 => 0x70209c000,
        100 => 0x71249c410,
        101 => 0x70278c000,
        102 => 0x821c248c,
        103 => 0x620c28c000,
        104 => 0x49248e082,
        105 => 0x104100100,
        106 => 0x6208200200,
        107 => 0x492286282,
        108 => 0x204104104,
        109 => 0x8a2a94000,
        110 => 0x49248c000,
        111 => 0x31248c000,
        112 => 0x2086286000,
        113 => 0x1820c28c000,
        114 => 0x8208c000,
        115 => 0x39038c000,
        116 => 0x312086080,
        117 => 0x312492000,
        118 => 0x10a451000,
        119 => 0x295551000,
        120 => 0x48c492000,
        121 => 0xc41c492000,
        122 => 0x78421e000,
        123 => 0x8104084108,
        124 => 0xc30c30c30c,
        125 => 0x4208408204,
        126 => 0x294000,
        127 => 0xc48708748c,
        31 => 0x2a000000000,
        176 => 0x8508,
        163 => 0x1e0821c248c,
        164 => 0x89c51c880,
        165 => 0x4384384291,
        162 => 0x10e08e100,
        25 => 0x10a460000,
        _ => 0x3f86186187f,
    }
}

/// The 6x7 pixel cell for an ASCII-mapped glyph code, row-major.
pub fn get_px_ascii(code: u8) -> (r: Vec<bool>)
    ensures
        r@ == spec_glyph(code),
        r@.len() == 42,
{
    let bits = glyph_bits(code);
    let mut out: Vec<bool> = Vec::new();
    let mut i: usize = 0;
    while i < 42
        invariant
            i <= 42,
            out@.len() == i,
            forall|j: int| 0 <= j < i ==> out@[j] == glyph_px(bits, j),
        decreases 42 - i,
    {
        let b = ((bits >> (i as u64)) & 1) == 1;
        out.push(b);
        i += 1;
    }
    proof {
        assert(out@ =~= spec_glyph(code));
    }
    out
}

/// The pixel cell for a character: letters fold to one case, ASCII
/// symbols and digits use their own code, the few supported wide symbols
/// use their reserved codes, and anything else is the unknown box.
pub fn get_px(chr: char) -> (r: Vec<bool>)
    ensures
        r@ == spec_glyph(spec_char_code(chr)),
        r@.len() == 42,
{
    get_px_ascii(char_code(chr))
}

/// The code `get_px` looks a character up under.
pub open spec fn spec_char_code(chr: char) -> u8 {
    if 'a' <= chr && chr <= 'z' {
        ((chr as u32) - 32) as u8
    } else if (chr as u32) < 128 {
        chr as u8
    } else if chr == '\u{2026}' {
        31u8
    } else if chr == '\u{a3}' {
        163u8
    } else {
        0u8
    }
}

fn char_code(chr: char) -> (r: u8)
    ensures
        r == spec_char_code(chr),
{
    let v = chr as u32;
    if 'a' <= chr && chr <= 'z' {
        (v - 32) as u8
    } else if v < 128 {
        v as u8
    } else {
        match chr {
            '\u{2026}' => 31,
            '\u{a3}' => 163,
            _ => 0,
        }
    }
}

} // verus!

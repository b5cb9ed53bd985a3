use buffer_graphics_lib::color::Color;
use buffer_graphics_lib::font::standard_6x7::get_px;
use buffer_graphics_lib::font::standard_6x7::get_px_ascii;
use buffer_graphics_lib::coord::Coord;
use buffer_graphics_lib::drawing::Graphics;
use buffer_graphics_lib::format::TextFormat;
use buffer_graphics_lib::format::Positioning;
use buffer_graphics_lib::ici::AnimatedInterchangeImage;
use buffer_graphics_lib::ici::IndexedWrapper;
use buffer_graphics_lib::indexed::create_image_from_string;
use buffer_graphics_lib::indexed::IndexedImage;
use buffer_graphics_lib::indexed::IndexedImageError;
use buffer_graphics_lib::pos::CoordIntoTextPos;
use buffer_graphics_lib::pos::NewTextPos;
use buffer_graphics_lib::pos::TextPos;
use buffer_graphics_lib::text::chr_to_code;
use buffer_graphics_lib::text::measure_text;
use buffer_graphics_lib::text::PixelFont;
use buffer_graphics_lib::text::Text;
use buffer_graphics_lib::wrapping::WrappingStrategy;

#[test]
fn coord_textpos() {
    let coord = Coord::new(0, 0);
    let test = coord.textpos();
    assert_eq!(test, TextPos::Px(0, 0))
}

#[test]
fn textpos_to_coord() {
    assert_eq!(TextPos::Px(3, 4).to_coord(PixelFont::Standard6x7), (3, 4));
    // standard cells advance by 7x8
    assert_eq!(
        TextPos::ColRow(2, 3).to_coord(PixelFont::Standard6x7),
        (14, 24)
    );
    assert_eq!(TextPos::cr((2, 3)), TextPos::ColRow(2, 3));
    assert_eq!(<TextPos as NewTextPos>::px((5, 6)), TextPos::Px(5, 6));
}

#[test]
fn font_metrics() {
    assert_eq!(PixelFont::Standard6x7.size(), (6, 7));
    assert_eq!(PixelFont::Standard6x7.char_width(), 7);
    assert_eq!(PixelFont::Standard6x7.line_height(), 8);
    assert_eq!(PixelFont::Limited3x5.size(), (3, 5));
    assert_eq!(PixelFont::Standard6x7.px_to_cols(30), 4);
    assert_eq!(PixelFont::Standard6x7.pixels(65).len(), 42);
    assert_eq!(PixelFont::Limited3x5.pixels(65).len(), 15);
    assert_eq!(
        PixelFont::Standard6x7.get_max_characters(70, 40),
        (9, 4)
    );
    assert_eq!(PixelFont::Standard6x7.get_max_characters(3, 40), (0, 0));
}

#[test]
fn measure() {
    assert_eq!(measure_text("ab\nabcd", 7, 8), (28, 16));
    assert_eq!(measure_text("", 7, 8), (0, 8));
}

#[test]
fn char_glyph_lookup() {
    // letters fold to one case
    assert_eq!(get_px('a'), get_px_ascii(65));
    assert_eq!(get_px('A'), get_px_ascii(65));
    assert_eq!(get_px('7'), get_px_ascii(55));
    assert_eq!(get_px('…'), get_px_ascii(31));
    // an unmapped character becomes the unknown box
    assert_eq!(get_px('ß'), get_px_ascii(0));
    assert_eq!(get_px('a').len(), 42);
}

#[test]
fn glyph_codes() {
    assert_eq!(chr_to_code('A'), 65);
    assert_eq!(chr_to_code('a'), 97);
    assert_eq!(chr_to_code(' '), 32);
    assert_eq!(chr_to_code('…'), 31);
    assert_eq!(chr_to_code('£'), 163);
    assert_eq!(chr_to_code('ß'), 0);
}

#[test]
fn drawing_a_letter_marks_pixels() {
    let mut g = Graphics::new_u8_rgba(vec![0u8; 20 * 20 * 4], 20, 20).unwrap();
    let red = Color::rgb(255, 0, 0);
    let code = chr_to_code('I');
    g.draw_ascii_letter((2, 3), code, PixelFont::Standard6x7, red);
    let img = g.copy_to_image();
    let bitmap = PixelFont::Standard6x7.pixels(code);
    assert!(bitmap.iter().any(|b| *b));
    // every lit cell pixel lands at the offset position, nothing else
    for y in 0..20usize {
        for x in 0..20usize {
            let lit = img.get_pixel(x, y) == red;
            let expected = (2..8).contains(&x) && (3..10).contains(&y) && bitmap[(x - 2) + (y - 3) * 6];
            assert_eq!(lit, expected, "at {x},{y}");
        }
    }
}

#[test]
fn whitespace_draws_nothing() {
    let mut g = Graphics::new_u8_rgba(vec![0u8; 400], 10, 10).unwrap();
    let before = g.copy_to_image().pixels();
    let red = Color::rgb(255, 0, 0);
    g.draw_ascii_letter((1, 1), 32, PixelFont::Standard6x7, red);
    g.draw_ascii_letter((1, 1), 9, PixelFont::Standard6x7, red);
    assert_eq!(g.copy_to_image().pixels(), before);
}

#[test]
fn text_wraps_into_code_lines() {
    let format = TextFormat::new(
        WrappingStrategy::AtCol(4),
        PixelFont::Standard6x7,
        Color::rgb(0, 0, 0),
        Positioning::LeftTop,
    );
    let text = Text::new("abcdef", TextPos::Px(0, 0), format);
    let lines = text.contents();
    assert_eq!(lines.len(), 2);
    assert_eq!(lines[0], vec![97, 98, 99, 100]);
    assert_eq!(lines[1], vec![101, 102]);
}

#[test]
fn draw_text_marks_pixels() {
    let mut g = Graphics::new_u8_rgba(vec![0u8; 30 * 30 * 4], 30, 30).unwrap();
    let red = Color::rgb(255, 0, 0);
    g.draw_text("I", TextPos::Px(0, 0), TextFormat::new(
        WrappingStrategy::NoWrap,
        PixelFont::Standard6x7,
        red,
        Positioning::LeftTop,
    ));
    let img = g.copy_to_image();
    let bitmap = PixelFont::Standard6x7.pixels(chr_to_code('I'));
    let expected_hits = bitmap.iter().filter(|b| **b).count();
    let mut hits = 0;
    for y in 0..30usize {
        for x in 0..30usize {
            if img.get_pixel(x, y) == red {
                hits += 1;
                assert!(x < 6 && y < 7);
                assert!(bitmap[x + y * 6]);
            }
        }
    }
    assert_eq!(hits, expected_hits);
}

#[test]
fn indexed_image_basics() {
    let palette = vec![Color::rgb(1, 1, 1), Color::rgb(2, 2, 2)];
    let img = IndexedImage::new(palette.clone(), 2, 1, vec![0, 1]);
    assert_eq!(img.width(), 2);
    assert_eq!(img.height(), 1);
    assert_eq!(img.color(0), Color::rgb(1, 1, 1));
    assert_eq!(img.color(255), Color::rgba(0, 0, 0, 0));
    let flat = img.to_image().unwrap();
    assert_eq!(flat.get_pixel(0, 0), Color::rgb(1, 1, 1));
    assert_eq!(flat.get_pixel(1, 0), Color::rgb(2, 2, 2));

    let empty = IndexedImage::new_empty(palette, 3, 2);
    assert_eq!(empty.pixels().len(), 6);
    assert!(empty.pixels().iter().all(|p| *p == 255));
}

#[test]
fn apply_new_colors_remaps() {
    let mut img = IndexedImage::new(
        vec![Color::rgb(1, 1, 1), Color::rgb(2, 2, 2), Color::rgb(3, 3, 3)],
        2,
        2,
        vec![0, 1, 2, 255],
    );
    img.apply_new_colors(vec![Color::rgb(9, 9, 9), Color::rgb(8, 8, 8)]);
    assert_eq!(img.colors(), &vec![Color::rgb(9, 9, 9), Color::rgb(8, 8, 8)]);
    assert_eq!(img.pixels(), &vec![0, 0, 0, 255]);
}

#[test]
fn image_from_string_grid() {
    let palette = vec![('.', Color::rgb(0, 0, 0)), ('x', Color::rgb(255, 0, 0))];
    let img = create_image_from_string(&palette, "x.\n.x").unwrap();
    assert_eq!(img.width(), 2);
    assert_eq!(img.height(), 2);
    assert_eq!(img.colors().len(), 2);
    assert_eq!(img.colors()[img.pixels()[0] as usize], Color::rgb(255, 0, 0));
    assert_eq!(img.colors()[img.pixels()[1] as usize], Color::rgb(0, 0, 0));
    assert_eq!(img.colors()[img.pixels()[3] as usize], Color::rgb(255, 0, 0));

    assert_eq!(
        create_image_from_string(&palette, "x.\n.").unwrap_err(),
        IndexedImageError::InvalidLineLengths
    );
    assert!(matches!(
        create_image_from_string(&palette, "xq").unwrap_err(),
        IndexedImageError::UnknownChar('q')
    ));
}

#[test]
fn indexed_export_round_trip() {
    let mut g = Graphics::new_u8_rgba(vec![0u8; 2 * 2 * 4], 2, 2).unwrap();
    g.clear(Color::rgb(5, 5, 5));
    g.set_pixel(1, 1, Color::rgb(9, 9, 9));
    let exported = g.copy_to_indexed_image(false).unwrap();
    assert_eq!(exported.size(), (2, 2));
    let palette = exported.palette();
    let pix = exported.pixel_indices();
    assert_eq!(palette.len(), 2);
    assert_eq!(palette[pix[0] as usize], Color::rgb(5, 5, 5));
    assert_eq!(palette[pix[3] as usize], Color::rgb(9, 9, 9));

    // draw it back onto a fresh surface
    let mut g2 = Graphics::new_u8_rgba(vec![0u8; 2 * 2 * 4], 2, 2).unwrap();
    g2.draw_indexed_image(Coord { x: 0, y: 0 }, &exported);
    assert_eq!(g2.copy_to_image().get_pixel(0, 0), Color::rgb(5, 5, 5));
    assert_eq!(g2.copy_to_image().get_pixel(1, 1), Color::rgb(9, 9, 9));
}

#[test]
fn indexed_export_too_big() {
    let mut g = Graphics::new_u8_rgba(vec![0u8; 300 * 2 * 4], 300, 2).unwrap();
    g.clear(Color::rgb(1, 1, 1));
    assert!(g.copy_to_indexed_image(false).is_err());
}

#[test]
fn animated_image_draws_current_frame() {
    let first = Color::rgb(10, 0, 0);
    let second = Color::rgb(0, 10, 0);
    let palette = vec![first, second];
    // two 2x1 frames: the first all in the first color, the second all in
    // the second
    let mut anim =
        AnimatedInterchangeImage::new(2, 1, 1, 2, &palette, vec![0, 0, 1, 1], true).unwrap();
    let mut g = Graphics::new_u8_rgba(vec![0u8; 4 * 4 * 4], 4, 4).unwrap();
    g.draw_animated_image(Coord::new(0, 0), &anim);
    let img = g.copy_to_image();
    assert_eq!(img.get_pixel(0, 0), first);
    assert_eq!(img.get_pixel(1, 0), first);
    assert_ne!(img.get_pixel(2, 0), first);

    // one second per frame: after the timer runs out the loop shows the
    // second frame
    anim.update(2);
    anim.update(1);
    assert_eq!(anim.current_frame(), vec![1, 1]);
    let mut g2 = Graphics::new_u8_rgba(vec![0u8; 4 * 4 * 4], 4, 4).unwrap();
    g2.draw_wrapped_image(Coord::new(0, 0), &IndexedWrapper::Animated(anim));
    let img2 = g2.copy_to_image();
    assert_eq!(img2.get_pixel(0, 0), second);
    assert_eq!(img2.get_pixel(1, 0), second);
}

#[test]
fn animated_image_rejects_bad_sizes() {
    let palette = vec![Color::rgb(1, 1, 1)];
    assert!(AnimatedInterchangeImage::new(0, 1, 1, 1, &palette, vec![], true).is_none());
    assert!(AnimatedInterchangeImage::new(2, 1, 1, 2, &palette, vec![0, 0, 0], true).is_none());
    assert!(AnimatedInterchangeImage::new(2, 1, 1, 2, &palette, vec![0, 0, 0, 0], true).is_some());
}

use buffer_graphics_lib::clipping::Clip;
use buffer_graphics_lib::color::Color;
use buffer_graphics_lib::coord::Coord;
use buffer_graphics_lib::drawable::Drawable;
use buffer_graphics_lib::drawable::ShapeBox;
use buffer_graphics_lib::drawing::Graphics;
use buffer_graphics_lib::image::Image;
use buffer_graphics_lib::image::Scaling;
use buffer_graphics_lib::shapes::stroke;
use buffer_graphics_lib::shapes::fill;
use buffer_graphics_lib::shapes::Circle;
use buffer_graphics_lib::shapes::Line;
use buffer_graphics_lib::shapes::Rect;

fn gray(v: u8) -> Color {
    Color::gray(v)
}

#[test]
fn is_inside() {
    let buf = vec![0u8; 400];
    let mut graphics = Graphics::new_u8_rgba(buf, 10, 10).unwrap();
    assert!(graphics.is_on_screen(Coord { x: 1, y: 1 }));
    assert!(graphics.is_on_screen(Coord { x: 9, y: 9 }));
    assert!(graphics.is_on_screen(Coord { x: 0, y: 0 }));
    assert!(!graphics.is_on_screen(Coord { x: 10, y: 10 }));
    assert!(!graphics.is_on_screen(Coord { x: 4, y: -1 }));
    assert!(!graphics.is_on_screen(Coord { x: -1, y: 4 }));

    graphics.set_translate(Coord { x: 2, y: -1 });
    assert!(graphics.is_on_screen(Coord { x: 4, y: 4 }));
    assert!(graphics.is_on_screen(Coord { x: 4, y: 0 }));
    assert!(!graphics.is_on_screen(Coord { x: 0, y: 0 }));
    assert!(!graphics.is_on_screen(Coord { x: 4, y: 9 }));
}

#[test]
fn check_draw() {
    let buf = vec![0u8; 400];
    let mut graphics = Graphics::new_u8_rgba(buf, 10, 10).unwrap();
    let red = Color::rgb(255, 0, 0);
    let drawable = Drawable::from_obj(ShapeBox::Line(Line::new((1, 1), (8, 8), red)), stroke(red));
    drawable.render(&mut graphics);
    let img = graphics.copy_to_image();
    assert_eq!(img.get_pixel(1, 1), red);
    assert_eq!(img.get_pixel(8, 8), red);
}

#[test]
fn stroke_rect_end_to_end() {
    // a 10x10 surface, a stroked rectangle from (1,1) to (8,8), exported
    let mut graphics = Graphics::new_u8_rgba(vec![0u8; 400], 10, 10).unwrap();
    let background = graphics.copy_to_image().get_pixel(4, 4);
    let blue = Color::rgb(0, 0, 255);
    graphics.draw_rect(Rect::new((1, 1), (8, 8)), stroke(blue));
    let img = graphics.copy_to_image();
    assert_eq!(img.get_pixel(1, 1), blue);
    assert_eq!(img.get_pixel(8, 1), blue);
    assert_eq!(img.get_pixel(1, 8), blue);
    assert_eq!(img.get_pixel(8, 8), blue);
    assert_eq!(img.get_pixel(4, 1), blue);
    assert_eq!(img.get_pixel(4, 4), background);
    assert_eq!(img.get_pixel(0, 0), background);
}

#[test]
fn update_pixel_alpha_rules() {
    let mut g = Graphics::new_u8_rgba(vec![0u8; 16], 2, 2).unwrap();
    g.clear(Color::rgba(10, 20, 30, 255));
    let before = g.copy_to_image().pixels();

    // alpha 0 never writes
    g.set_pixel(0, 0, Color::rgba(200, 200, 200, 0));
    assert_eq!(g.copy_to_image().pixels(), before);

    // alpha 255 overwrites completely
    g.set_pixel(0, 0, Color::rgba(200, 100, 50, 255));
    assert_eq!(g.copy_to_image().get_pixel(0, 0), Color::rgba(200, 100, 50, 255));

    // any other alpha follows the integer "over" formula
    let mut g2 = Graphics::new_u8_rgba(vec![0u8; 16], 2, 2).unwrap();
    g2.clear(Color::rgba(0, 0, 255, 128));
    g2.set_pixel(1, 1, Color::rgba(255, 0, 0, 128));
    assert_eq!(
        g2.copy_to_image().get_pixel(1, 1),
        Color::rgba(0, 0, 255, 128).blend(Color::rgba(255, 0, 0, 128))
    );
}

#[test]
fn translate_moves_writes() {
    let mut a = Graphics::new_u8_rgba(vec![0u8; 64], 4, 4).unwrap();
    let mut b = Graphics::new_u8_rgba(vec![0u8; 64], 4, 4).unwrap();
    let c = Color::rgb(9, 8, 7);
    a.set_translate(Coord { x: 2, y: 1 });
    a.set_pixel(1, 1, c);
    b.set_pixel(3, 2, c);
    assert_eq!(a.copy_to_image().pixels(), b.copy_to_image().pixels());
}

#[test]
fn line_directions_touch_same_pixels() {
    let c = Color::rgb(1, 2, 3);
    let mut a = Graphics::new_u8_rgba(vec![0u8; 400], 10, 10).unwrap();
    let mut b = Graphics::new_u8_rgba(vec![0u8; 400], 10, 10).unwrap();
    a.draw_line(Coord { x: 1, y: 2 }, Coord { x: 8, y: 6 }, c);
    b.draw_line(Coord { x: 8, y: 6 }, Coord { x: 1, y: 2 }, c);
    assert_eq!(a.copy_to_image().pixels(), b.copy_to_image().pixels());
}

#[test]
fn clip_blocks_writes() {
    let mut g = Graphics::new_u8_rgba(vec![0u8; 64], 4, 4).unwrap();
    let mut clip = Clip::new(4, 4);
    clip.set_valid_rect(Rect::new((0, 0), (1, 1)));
    g.set_clip(clip);
    let c = Color::rgb(200, 0, 0);
    g.set_pixel(0, 0, c);
    g.set_pixel(3, 3, c);
    let img = g.copy_to_image();
    assert_eq!(img.get_pixel(0, 0), c);
    assert_ne!(img.get_pixel(3, 3), c);
}

#[test]
fn polygon_outline_and_fill() {
    let c = Color::rgb(7, 7, 7);
    let mut g = Graphics::new_u8_rgba(vec![0u8; 400], 10, 10).unwrap();
    let square = vec![
        Coord::new(2, 2),
        Coord::new(7, 2),
        Coord::new(7, 7),
        Coord::new(2, 7),
    ];
    g.draw_polygon(&square, stroke(c));
    let img = g.copy_to_image();
    assert_eq!(img.get_pixel(2, 2), c);
    assert_eq!(img.get_pixel(7, 7), c);
    assert_eq!(img.get_pixel(4, 2), c);
    assert_ne!(img.get_pixel(4, 4), c);

    let mut g2 = Graphics::new_u8_rgba(vec![0u8; 400], 10, 10).unwrap();
    g2.draw_polygon(&square, fill(c));
    let img2 = g2.copy_to_image();
    assert_eq!(img2.get_pixel(4, 4), c);
    assert_ne!(img2.get_pixel(0, 0), c);
}

#[test]
fn triangle_outline_and_fill() {
    let c = Color::rgb(3, 9, 3);
    let tri = [Coord::new(1, 1), Coord::new(8, 1), Coord::new(1, 8)];
    let mut g = Graphics::new_u8_rgba(vec![0u8; 400], 10, 10).unwrap();
    g.draw_triangle(tri, stroke(c));
    let img = g.copy_to_image();
    assert_eq!(img.get_pixel(1, 1), c);
    assert_eq!(img.get_pixel(8, 1), c);
    assert_eq!(img.get_pixel(1, 8), c);
    assert_ne!(img.get_pixel(3, 3), c);

    let mut g2 = Graphics::new_u8_rgba(vec![0u8; 400], 10, 10).unwrap();
    g2.draw_triangle(tri, fill(c));
    assert_eq!(g2.copy_to_image().get_pixel(3, 3), c);
}

#[test]
fn filled_circle_center() {
    let mut g = Graphics::new_u8_rgba(vec![0u8; 400], 10, 10).unwrap();
    let c = Color::rgb(0, 200, 0);
    g.draw_circle(Circle::new((5, 5), 3), fill(c));
    let img = g.copy_to_image();
    assert_eq!(img.get_pixel(5, 5), c);
    assert_eq!(img.get_pixel(5, 3), c);
    assert_ne!(img.get_pixel(0, 0), c);
}

#[test]
fn clear_and_clear_aware() {
    let mut g = Graphics::new_u8_rgba(vec![0u8; 64], 4, 4).unwrap();
    let c = Color::rgb(1, 1, 1);
    g.clear(c);
    assert_eq!(g.copy_to_image().get_pixel(3, 3), c);
    let mut clip = Clip::new(4, 4);
    clip.set_valid_rect(Rect::new((0, 0), (0, 0)));
    g.set_clip(clip);
    let d = Color::rgb(2, 2, 2);
    g.clear_aware(d);
    let img = g.copy_to_image();
    assert_eq!(img.get_pixel(0, 0), d);
    assert_eq!(img.get_pixel(1, 1), c);
}

#[test]
fn draw_image_blit() {
    let tile = Image::new(vec![gray(1), gray(2), gray(3), gray(4)], 2, 2).unwrap();
    let mut g = Graphics::new_u8_rgba(vec![0u8; 64], 4, 4).unwrap();
    g.draw_image(Coord { x: 1, y: 1 }, &tile);
    let img = g.copy_to_image();
    assert_eq!(img.get_pixel(1, 1), gray(1));
    assert_eq!(img.get_pixel(2, 1), gray(2));
    assert_eq!(img.get_pixel(1, 2), gray(3));
    assert_eq!(img.get_pixel(2, 2), gray(4));
}

#[test]
fn rect_scaling() {
    let image = Image::new(
        vec![gray(1), gray(2), gray(3), gray(4), gray(5), gray(6)],
        3,
        2,
    )
    .unwrap();

    let epx2 = image.scale(Scaling::Epx2x);
    let epx4 = image.scale(Scaling::Epx4x);
    let nn2 = image.scale(Scaling::nearest_neighbour(2, 2));
    let nn3 = image.scale(Scaling::nearest_neighbour(3, 3));

    assert_eq!(image.width(), 3);
    assert_eq!(image.height(), 2);
    assert_eq!(epx2.width(), 6);
    assert_eq!(epx2.height(), 4);
    assert_eq!(epx4.width(), 12);
    assert_eq!(epx4.height(), 8);
    assert_eq!(nn2.width(), 6);
    assert_eq!(nn2.height(), 4);
    assert_eq!(nn3.width(), 9);
    assert_eq!(nn3.height(), 6);
}

#[test]
fn image_blend_and_rotate() {
    let mut a = Image::new(vec![gray(1), gray(2), gray(3), gray(4)], 2, 2).unwrap();
    let b = Image::new(
        vec![
            Color::rgba(255, 0, 0, 255),
            Color::rgba(0, 0, 0, 0),
            Color::rgba(0, 0, 0, 0),
            Color::rgba(0, 255, 0, 255),
        ],
        2,
        2,
    )
    .unwrap();
    assert!(a.blend(&b).is_ok());
    assert_eq!(a.get_pixel(0, 0), Color::rgb(255, 0, 0));
    assert_eq!(a.get_pixel(1, 0), gray(2));

    let small = Image::new(vec![gray(9)], 1, 1).unwrap();
    let mut c = Image::new(vec![gray(1), gray(2)], 2, 1).unwrap();
    assert!(c.blend(&small).is_err());

    let img = Image::new(vec![gray(1), gray(2), gray(3), gray(4)], 2, 2).unwrap();
    let cw = img.rotate_cw();
    assert_eq!(cw.get_pixel(1, 0), gray(1));
    assert_eq!(cw.get_pixel(0, 0), gray(3));
    let ccw = img.rotate_ccw();
    assert_eq!(ccw.get_pixel(0, 0), gray(2));
    assert_eq!(ccw.get_pixel(0, 1), gray(1));
}

#[test]
fn image_size_mismatch_is_error() {
    assert!(Image::new(vec![gray(1); 5], 2, 2).is_err());
    assert!(Image::new(vec![gray(1); 4], 2, 2).is_ok());
}

#[test]
fn buffer_length_is_checked() {
    assert!(Graphics::new_u8_rgba(vec![0u8; 15], 2, 2).is_err());
    assert!(Graphics::new_u8_rgba(vec![0u8; 16], 2, 2).is_ok());
    let buf = Graphics::create_buffer_u8(3, 5);
    assert_eq!(buf.len(), 60);
    assert!(Graphics::new_u8_rgba(buf, 3, 5).is_ok());
}

#[test]
fn filled_circle_reaches_radius() {
    let mut g = Graphics::new_u8_rgba(vec![0u8; 400], 10, 10).unwrap();
    let c = Color::rgb(0, 200, 0);
    g.draw_circle(Circle::new((5, 5), 3), fill(c));
    let img = g.copy_to_image();
    assert_eq!(img.get_pixel(8, 5), c);
    assert_eq!(img.get_pixel(2, 5), c);
    assert_ne!(img.get_pixel(9, 5), c);
}

#[test]
fn circle_overhanging_edge_drops_offscreen_points() {
    let mut g = Graphics::new_u8_rgba(vec![0u8; 400], 10, 10).unwrap();
    let c = Color::rgb(200, 0, 0);
    g.draw_circle(Circle::new((0, 0), 3), stroke(c));
    let img = g.copy_to_image();
    let expected = [(0usize, 3usize), (1, 3), (2, 2), (3, 0), (3, 1)];
    for y in 0..10usize {
        for x in 0..10usize {
            let lit = img.get_pixel(x, y) == c;
            assert_eq!(lit, expected.contains(&(x, y)), "at {x},{y}");
        }
    }
}

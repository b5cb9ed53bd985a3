use buffer_graphics_lib::collection::ShapeCollection;
use buffer_graphics_lib::color::Color;
use buffer_graphics_lib::drawable::Drawable;
use buffer_graphics_lib::drawable::ShapeBox;
use buffer_graphics_lib::drawing::Graphics;
use buffer_graphics_lib::shapes::Circle;
use buffer_graphics_lib::shapes::Ellipse;
use buffer_graphics_lib::shapes::Line;
use buffer_graphics_lib::shapes::Rect as ShapeRect;
use buffer_graphics_lib::shapes::Triangle;
use buffer_graphics_lib::shapes::fill;
use buffer_graphics_lib::shapes::stroke;

#[test]
#[allow(non_snake_case)]
fn shape_collection() {
    let BLUE = Color::rgb(0, 0, 255);
    let line = Line::new((10, 10), (20, 20), BLUE);
    let drawable = Drawable::from_obj(ShapeBox::Line(line), stroke(BLUE));
    let mut collection = ShapeCollection::new();
    collection.add(Drawable::from_obj(ShapeBox::Line(line), stroke(BLUE)));
    assert_eq!(collection.items()[0], drawable);
    collection.remove(&drawable);
    assert!(collection.items().is_empty());
    collection.add(Drawable::from_obj(ShapeBox::Line(line), stroke(BLUE)));
    assert_eq!(collection.items()[0], drawable);
    collection.remove_shape(&ShapeBox::Line(line));
    assert!(collection.items().is_empty());
}

#[test]
fn collection_bounds_track_mutations() {
    let circle = Drawable::from_obj(
        ShapeBox::Circle(Circle::new((10, 10), 4)),
        fill(Color::rgb(1, 2, 3)),
    );
    let rect = Drawable::from_obj(
        ShapeBox::Rect(ShapeRect::new((0, 0), (3, 3))),
        stroke(Color::rgb(4, 5, 6)),
    );
    let mut col = ShapeCollection::new();
    col.add(circle);
    let b = col.bounds();
    assert_eq!((b.x1, b.y1, b.x2, b.y2), (6, 6, 14, 14));
    col.add(rect);
    let b = col.bounds();
    assert_eq!((b.x1, b.y1, b.x2, b.y2), (0, 0, 14, 14));
    col.remove(&circle);
    let b = col.bounds();
    assert_eq!((b.x1, b.y1, b.x2, b.y2), (0, 0, 3, 3));
    col.remove(&rect);
    let b = col.bounds();
    assert_eq!((b.x1, b.y1, b.x2, b.y2), (0, 0, 0, 0));
}

#[test]
fn collection_renders_in_insertion_order() {
    let red = Color::rgb(255, 0, 0);
    let green = Color::rgb(0, 255, 0);
    let mut col = ShapeCollection::new();
    col.add(Drawable::from_obj(
        ShapeBox::Rect(ShapeRect::new((1, 1), (4, 4))),
        fill(red),
    ));
    col.add(Drawable::from_obj(
        ShapeBox::Rect(ShapeRect::new((2, 2), (5, 5))),
        fill(green),
    ));
    let mut g = Graphics::new_u8_rgba(vec![0u8; 8 * 8 * 4], 8, 8).unwrap();
    col.render(&mut g);
    let img = g.copy_to_image();
    assert_eq!(img.get_pixel(1, 1), red);
    // the later drawable paints over the earlier one where they overlap
    assert_eq!(img.get_pixel(2, 2), green);
    assert_ne!(img.get_pixel(6, 6), red);
}

#[test]
fn triangle_drawable_renders() {
    let c = Color::rgb(3, 3, 3);
    let mut g = Graphics::new_u8_rgba(vec![0u8; 16 * 16 * 4], 16, 16).unwrap();
    Drawable::from_obj(
        ShapeBox::Triangle(Triangle::new((2, 2), (9, 2), (2, 9))),
        fill(c),
    )
    .render(&mut g);
    let img = g.copy_to_image();
    assert_eq!(img.get_pixel(2, 2), c);
    assert_eq!(img.get_pixel(3, 3), c);
    assert_ne!(img.get_pixel(9, 9), c);
}

#[test]
fn ellipse_stroke_exact_pixels() {
    let c = Color::rgb(9, 9, 9);
    let mut g = Graphics::new_u8_rgba(vec![0u8; 24 * 24 * 4], 24, 24).unwrap();
    g.draw_ellipse(Ellipse::new((10, 10), 12, 8), stroke(c));
    let img = g.copy_to_image();
    let expected = [
        (4usize, 9usize),
        (4, 10),
        (4, 11),
        (5, 8),
        (5, 12),
        (6, 7),
        (6, 13),
        (7, 7),
        (7, 13),
        (8, 6),
        (8, 14),
        (9, 6),
        (9, 14),
        (10, 6),
        (10, 14),
        (11, 6),
        (11, 14),
        (12, 6),
        (12, 14),
        (13, 7),
        (13, 13),
        (14, 7),
        (14, 13),
        (15, 8),
        (15, 12),
        (16, 9),
        (16, 10),
        (16, 11),
    ];
    for y in 0..24usize {
        for x in 0..24usize {
            let lit = img.get_pixel(x, y) == c;
            assert_eq!(lit, expected.contains(&(x, y)), "at {x},{y}");
        }
    }
}

#[test]
fn ellipse_fill_covers_interior() {
    let c = Color::rgb(5, 6, 7);
    let mut g = Graphics::new_u8_rgba(vec![0u8; 24 * 24 * 4], 24, 24).unwrap();
    g.draw_ellipse(Ellipse::new((10, 10), 12, 8), fill(c));
    let img = g.copy_to_image();
    assert_eq!(img.get_pixel(10, 10), c);
    assert_eq!(img.get_pixel(4, 10), c);
    assert_eq!(img.get_pixel(16, 10), c);
    assert_eq!(img.get_pixel(13, 12), c);
    assert_ne!(img.get_pixel(0, 0), c);
    assert_ne!(img.get_pixel(17, 10), c);
}

#[test]
fn ellipse_drawable_renders() {
    let c = Color::rgb(1, 9, 1);
    let mut g = Graphics::new_u8_rgba(vec![0u8; 24 * 24 * 4], 24, 24).unwrap();
    Drawable::from_obj(ShapeBox::Ellipse(Ellipse::new((10, 10), 12, 8)), stroke(c)).render(&mut g);
    let img = g.copy_to_image();
    assert_eq!(img.get_pixel(16, 10), c);
    assert_eq!(img.get_pixel(10, 14), c);
    assert_ne!(img.get_pixel(10, 10), c);
}

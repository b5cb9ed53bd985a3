use buffer_graphics_lib::rect::Contains;
use buffer_graphics_lib::rect::Rect;

#[test]
fn width() {
    let rect = Rect::new(10, 10, 20, 20);
    assert_eq!(rect.width(), 10);
}

#[test]
fn height() {
    let rect = Rect::new(10, 10, 20, 20);
    assert_eq!(rect.height(), 10);
}

#[test]
fn translate() {
    let rect = Rect::new(10, 10, 20, 20);
    let translated = rect.translate(5, 5);
    assert_eq!(translated, Rect::new(15, 15, 25, 25));

    let rect = Rect::new(10, 10, 20, 20);
    let translated = rect.translate(-5, -5);
    assert_eq!(translated, Rect::new(5, 5, 15, 15));
}

#[test]
fn union() {
    let rect = Rect::new(10, 10, 20, 20);
    let other = Rect::new(15, 15, 25, 25);

    let union = rect.union(&other);

    assert_eq!(union, Rect::new(10, 10, 25, 25));

    let rect = Rect::new(50, 1, 50, 100);
    let other = Rect::new(1, 50, 100, 50);

    let union = rect.union(&other);

    assert_eq!(union, Rect::new(1, 1, 100, 100));
}

#[test]
fn intersects() {
    let rect = Rect::new(10, 10, 20, 20);
    let does_intersect = Rect::new(15, 15, 25, 25);
    let doesnt_intersect = Rect::new(30, 30, 40, 40);

    assert!(rect.intersects(&does_intersect));
    assert!(!rect.intersects(&doesnt_intersect));
}

#[test]
fn intersect() {
    let rect = Rect::new(10, 10, 20, 20);
    let other = Rect::new(15, 15, 25, 25);

    let intersection = rect.intersect(&other);

    assert_eq!(intersection, Rect::new(15, 15, 20, 20));

    let rect = Rect::new(50, 1, 51, 100);
    let other = Rect::new(1, 50, 100, 51);

    let intersection = rect.intersect(&other);

    assert_eq!(intersection, Rect::new(50, 50, 51, 51));

    let rect = Rect::new(10, 10, 20, 20);
    let doesnt_intersect = Rect::new(30, 30, 40, 40);

    assert_eq!(rect.intersect(&doesnt_intersect), rect);
}

#[test]
fn contains_isize_rect() {
    let rect = Rect::new(50, 50, 100, 100);
    assert!(!rect.contains(-60_isize, 60));
    assert!(!rect.contains(0_isize, 0));
    assert!(rect.contains(60_isize, 60));
    assert!(!rect.contains(150_isize, 60));
}

#[test]
fn contains_usize_rect() {
    let rect = Rect::new(50, 50, 100, 100);
    assert!(!rect.contains(0_usize, 0));
    assert!(rect.contains(60_usize, 60));
    assert!(!rect.contains(150_usize, 60));
}

#[test]
fn clip_to_positive() {
    let rect = Rect::new(-5, -3, 7, -1);
    assert_eq!(rect.clip_to_positive(), Rect::new(0, 0, 7, 0));
}

#[test]
fn move_to() {
    let rect = Rect::new(10, 10, 20, 25);
    assert_eq!(rect.move_to(0, 1), Rect::new(0, 1, 10, 16));
}

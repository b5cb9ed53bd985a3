use buffer_graphics_lib::clipping::Clip;
use buffer_graphics_lib::shapes::Circle;
use buffer_graphics_lib::shapes::Rect;

#[test]
fn check_all_pixels_valid_for_none() {
    let mut clip = Clip::new(4, 4);
    assert_eq!(clip.get_pixel_map(), vec![true; 16]);
}

#[test]
fn check_pixels_valid_for_square() {
    let mut clip = Clip::new(4, 4);
    clip.set_valid_rect(Rect::new((1, 1), (2, 2)));
    let expected = vec![
        false, false, false, false, false, true, true, false, false, true, true, false, false,
        false, false, false,
    ];
    assert_eq!(clip.get_pixel_map(), expected);
}

#[test]
fn check_pixels_split_horz() {
    let mut clip = Clip::new(4, 4);
    clip.set_valid_rect(Rect::new((2, 0), (3, 3)));
    let expected = vec![
        false, false, true, true, false, false, true, true, false, false, true, true, false,
        false, true, true,
    ];
    assert_eq!(clip.get_pixel_map(), expected);
}

#[test]
fn complex() {
    let mut clip = Clip::new(4, 4);

    clip.add_rect(Rect::new((0, 0), (3, 3))); //set all pixels to valid
    let expected = vec![true; 16];
    assert_eq!(clip.get_pixel_map(), expected);

    clip.remove_rect(Rect::new((2, 0), (3, 3))); //set right hand side to invalid
    let expected = vec![
        true, true, false, false, true, true, false, false, true, true, false, false, true, true,
        false, false,
    ];
    assert_eq!(clip.get_pixel_map(), expected);

    clip.add_rect(Rect::new((3, 0), (3, 3))); //set last column to valid
    let expected = vec![
        true, true, false, true, true, true, false, true, true, true, false, true, true, true,
        false, true,
    ];
    assert_eq!(clip.get_pixel_map(), expected);
}

#[test]
fn simple_rect_mask_matches_containment() {
    let mut clip = Clip::new(5, 5);
    let rect = Rect::new((1, 2), (3, 4));
    clip.set_valid_rect(rect);
    let map = clip.get_pixel_map();
    for y in 0..5isize {
        for x in 0..5isize {
            assert_eq!(map[(x + y * 5) as usize], rect.contains(x, y));
        }
    }
}

#[test]
fn circle_clip_mask() {
    let mut clip = Clip::new(5, 5);
    let circle = Circle::new((2, 2), 1);
    clip.set_valid_circle(circle);
    let map = clip.get_pixel_map();
    for y in 0..5isize {
        for x in 0..5isize {
            assert_eq!(map[(x + y * 5) as usize], circle.contains(x, y));
        }
    }
    // radius one with a rounded-down distance: the 3x3 block around the
    // center is inside, further cells are not
    assert!(map[2 + 1 * 5]);
    assert!(map[1 + 2 * 5]);
    assert!(map[2 + 2 * 5]);
    assert!(map[3 + 2 * 5]);
    assert!(map[2 + 3 * 5]);
    assert!(map[1 + 1 * 5]);
    assert!(!map[0 + 0 * 5]);
    assert!(!map[4 + 2 * 5]);
}

#[test]
fn batched_edits_and_manual_rebuild() {
    let mut clip = Clip::new(3, 3);
    clip.set_auto_build_map(false);
    clip.add_rect(Rect::new((0, 0), (2, 2)));
    clip.remove_rect(Rect::new((0, 0), (0, 2)));
    // the mask has not been built yet: a complex clip fails open
    assert!(clip.is_valid((0, 0)));
    clip.update_pixel_map();
    assert!(!clip.is_valid((0, 0)));
    assert!(clip.is_valid((1, 0)));
    assert!(clip.is_complex());
    assert!(!clip.is_nothing());
    assert!(!clip.is_simple());
    assert!(!clip.is_custom());
}

#[test]
fn custom_mask_direct_lookup() {
    let mut clip = Clip::new(2, 2);
    clip.custom(vec![true, false, false, true]);
    assert!(clip.is_custom());
    assert!(clip.is_valid((0, 0)));
    assert!(!clip.is_valid((1, 0)));
    assert!(!clip.is_valid((0, 1)));
    assert!(clip.is_valid((1, 1)));
    assert_eq!(clip.get_pixel_map(), vec![true, false, false, true]);
}

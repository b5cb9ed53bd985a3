use buffer_graphics_lib::color::Color;
use buffer_graphics_lib::drawing::Graphics;
use buffer_graphics_lib::coord::Coord;
use buffer_graphics_lib::shapes::Polyline;
use buffer_graphics_lib::shapes::PolylineError;
use buffer_graphics_lib::shapes::Segment::LineTo;
use buffer_graphics_lib::shapes::Segment::Start;

#[test]
#[allow(non_snake_case)]
fn check_closing() {
    let RED = Color::rgb(255, 0, 0);
    let polyline = Polyline::start(Coord::new(10, 10), RED)
        .add_line_to(Coord::new(20, 10))
        .unwrap()
        .add_line_to(Coord::new(20, 20))
        .unwrap()
        .add_line_to(Coord::new(10, 20))
        .unwrap()
        .close()
        .unwrap();
    assert_eq!(
        polyline.segments(),
        &vec![
            Start(Coord::new(10, 10)),
            LineTo(Coord::new(20, 10)),
            LineTo(Coord::new(20, 20)),
            LineTo(Coord::new(10, 20)),
            LineTo(Coord::new(10, 10)),
        ]
    )
}

#[test]
fn closed_polyline_rejects_additions() {
    let c = Color::rgb(1, 2, 3);
    let closed = Polyline::start(Coord::new(0, 0), c)
        .add_line_to(Coord::new(1, 0))
        .unwrap()
        .close()
        .unwrap();
    assert_eq!(
        closed.clone().add_line_to(Coord::new(2, 2)).unwrap_err(),
        PolylineError::PolylineAlreadyClosed
    );
    assert_eq!(
        closed.add_arc_around(Coord::new(0, 0), 1, 0, 90).unwrap_err(),
        PolylineError::PolylineAlreadyClosed
    );
    let no_start = Polyline::new(vec![LineTo(Coord::new(1, 1))], c);
    assert_eq!(no_start.close().unwrap_err(), PolylineError::InvalidPolyline);
}

#[test]
#[allow(non_snake_case)]
fn rounded_rect_segments() {
    let RED = Color::rgb(255, 0, 0);
    let p = Polyline::rounded_rect(0, 0, 20, 10, 3, RED).unwrap();
    let segs = p.segments();
    assert_eq!(segs.len(), 9);
    assert_eq!(segs[0], Start(Coord::new(3, 0)));
    assert_eq!(segs[1], LineTo(Coord::new(17, 0)));
    assert!(matches!(
        segs[2],
        buffer_graphics_lib::shapes::Segment::ArcAround {
            radius: 3,
            angle_start: 0,
            angle_end: 90,
            ..
        }
    ));
    assert_eq!(segs[3], LineTo(Coord::new(20, 7)));
    assert_eq!(segs[7], LineTo(Coord::new(0, 3)));
}

#[test]
fn polyline_render_walks_segments() {
    let c = Color::rgb(7, 7, 7);
    let polyline = Polyline::start(Coord::new(1, 1), c)
        .add_line_to(Coord::new(6, 1))
        .unwrap()
        .add_line_to(Coord::new(6, 6))
        .unwrap();
    let mut g = Graphics::new_u8_rgba(vec![0u8; 10 * 10 * 4], 10, 10).unwrap();
    polyline.render(&mut g, &Vec::new());
    let img = g.copy_to_image();
    assert_eq!(img.get_pixel(3, 1), c);
    assert_eq!(img.get_pixel(6, 4), c);
    assert_ne!(img.get_pixel(2, 2), c);
}

#[test]
fn polyline_render_paints_supplied_arc_points() {
    let c = Color::rgb(8, 8, 8);
    let polyline = Polyline::start(Coord::new(1, 1), c)
        .add_arc_around(Coord::new(5, 5), 2, 0, 90)
        .unwrap()
        .add_line_to(Coord::new(9, 9))
        .unwrap();
    let arc_pts = vec![
        Coord::new(7, 5),
        Coord::new(7, 6),
        Coord::new(6, 7),
        Coord::new(5, 7),
    ];
    let arcs = vec![(arc_pts, Coord::new(5, 7))];
    let mut g = Graphics::new_u8_rgba(vec![0u8; 12 * 12 * 4], 12, 12).unwrap();
    polyline.render(&mut g, &arcs);
    let img = g.copy_to_image();
    // the arc's supplied points are painted, and the pen moves to its end
    assert_eq!(img.get_pixel(7, 5), c);
    assert_eq!(img.get_pixel(5, 7), c);
    assert_eq!(img.get_pixel(9, 9), c);
    assert_ne!(img.get_pixel(1, 1), c);
}

use textdraw::geometry::{span, BoundingBox, Point};

#[test]
fn point_new_keeps_coordinates() {
    let p = Point::new(3, -4);
    assert_eq!(p.x(), 3);
    assert_eq!(p.y(), -4);
}

#[test]
fn points_add_and_subtract_by_component() {
    let a = Point::new(2, 3);
    let b = Point::new(-5, 7);
    assert_eq!(a + b, Point::new(-3, 10));
    assert_eq!(a - b, Point::new(7, -4));
    assert_eq!(a.checked_add(b), Some(Point::new(-3, 10)));
    assert_eq!(Point::new(isize::MAX, 0).checked_add(Point::new(1, 0)), None);
}

#[test]
fn midpoint_rounds_toward_zero() {
    assert_eq!(Point::new(0, 0).midpoint(&Point::new(5, 4)), Point::new(2, 2));
    assert_eq!(Point::new(0, 0).midpoint(&Point::new(-5, -3)), Point::new(-2, -1));
}

#[test]
fn span_is_the_distance_on_one_axis() {
    assert_eq!(span(3, -4), 7);
    assert_eq!(span(-4, 3), 7);
    assert_eq!(span(isize::MAX, isize::MIN), usize::MAX);
}

#[test]
fn union_contains_both_boxes_and_is_minimal() {
    let a = BoundingBox::new(3, 4, 1, 0);
    let b = BoundingBox::new(10, 2, -2, -6);
    let u = a + b;
    assert_eq!(u, BoundingBox::new(10, 4, -2, -6));
    assert!(u.contains_bounding_box(a));
    assert!(u.contains_bounding_box(b));
    let shrunk = [
        BoundingBox::new(9, 4, -2, -6),
        BoundingBox::new(10, 3, -2, -6),
        BoundingBox::new(10, 4, -1, -6),
        BoundingBox::new(10, 4, -2, -5),
    ];
    for s in shrunk {
        assert!(!(s.contains_bounding_box(a) && s.contains_bounding_box(b)));
    }
}

#[test]
fn box_grows_to_reach_a_point() {
    let a = BoundingBox::new(1, 1, 0, 0);
    assert_eq!(a.add_point(Point::new(5, -3)), BoundingBox::new(1, 5, -3, 0));
    assert_eq!(a.add_point(Point::new(0, 0)), a);
    assert_eq!(a + Point::new(-2, 9), BoundingBox::new(9, 1, 0, -2));
}

#[test]
fn membership_inside_and_one_unit_outside() {
    let b = BoundingBox::new(5, 8, 1, 2);
    assert!(b.contains_point(&Point::new(3, 2)));
    assert!(b.contains_point(&Point::new(2, 1)));
    assert!(b.contains_point(&Point::new(8, 5)));
    assert!(!b.contains_point(&Point::new(1, 3)));
    assert!(!b.contains_point(&Point::new(9, 3)));
    assert!(!b.contains_point(&Point::new(3, 0)));
    assert!(!b.contains_point(&Point::new(3, 6)));
}

#[test]
fn box_measures_and_anchors() {
    let b = BoundingBox::new(5, 8, 1, 2);
    assert_eq!(b.width(), 6);
    assert_eq!(b.height(), 4);
    assert_eq!(b.center(), Point::new(5, 3));
    assert_eq!(b.top_left(), Point::new(2, 5));
    assert_eq!(b.top_center(), Point::new(5, 5));
    assert_eq!(b.top_right(), Point::new(8, 5));
    assert_eq!(b.bottom_left(), Point::new(2, 1));
    assert_eq!(b.bottom_center(), Point::new(5, 1));
    assert_eq!(b.bottom_right(), Point::new(8, 1));
    assert_eq!(b.center_left(), Point::new(2, 3));
    assert_eq!(b.center_right(), Point::new(8, 3));
    assert_eq!(BoundingBox::from_edges((5, 8, 1, 2)), b);
    assert_eq!(b.to_edges(), (5, 8, 1, 2));
}

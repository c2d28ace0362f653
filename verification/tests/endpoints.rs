use shapecompletion::{BoundingRect, HoleFiller, PointI32};

fn rect() -> BoundingRect {
    BoundingRect { left: 10, top: 20, right: 14, bottom: 26 }
}

fn adjust(p: PointI32) -> PointI32 {
    HoleFiller::adjust_endpoint(&rect(), p)
}

#[test]
fn points_on_the_boundary_stay() {
    let r = rect();
    let mut on_boundary = Vec::new();
    for x in r.left..=r.right {
        on_boundary.push(PointI32::new(x, r.top));
        on_boundary.push(PointI32::new(x, r.bottom));
    }
    for y in r.top..=r.bottom {
        on_boundary.push(PointI32::new(r.left, y));
        on_boundary.push(PointI32::new(r.right, y));
    }
    let adjusted = HoleFiller::adjust_endpoints(&r, on_boundary.clone());
    assert_eq!(adjusted, on_boundary);
}

#[test]
fn adjusting_twice_is_adjusting_once() {
    let r = rect();
    let mut points = Vec::new();
    for x in 5..20 {
        for y in 15..32 {
            points.push(PointI32::new(x, y));
        }
    }
    let once = HoleFiller::adjust_endpoints(&r, points);
    let twice = HoleFiller::adjust_endpoints(&r, once.clone());
    assert_eq!(once, twice);
}

#[test]
fn point_above_or_below_moves_straight_to_the_nearer_side() {
    assert_eq!(adjust(PointI32::new(12, 15)), PointI32::new(12, 20));
    assert_eq!(adjust(PointI32::new(12, 30)), PointI32::new(12, 26));
    assert_eq!(adjust(PointI32::new(12, 22)), PointI32::new(12, 20));
    assert_eq!(adjust(PointI32::new(12, 24)), PointI32::new(12, 26));
}

#[test]
fn point_halfway_between_top_and_bottom_moves_to_the_bottom() {
    assert_eq!(adjust(PointI32::new(12, 23)), PointI32::new(12, 26));
}

#[test]
fn point_beside_moves_straight_to_the_nearer_side() {
    assert_eq!(adjust(PointI32::new(5, 22)), PointI32::new(10, 22));
    assert_eq!(adjust(PointI32::new(20, 22)), PointI32::new(14, 22));
    assert_eq!(adjust(PointI32::new(-1000, 20)), PointI32::new(10, 20));
}

#[test]
fn point_in_a_corner_quadrant_moves_to_the_nearest_corner() {
    assert_eq!(adjust(PointI32::new(5, 10)), PointI32::new(10, 20));
    assert_eq!(adjust(PointI32::new(20, 10)), PointI32::new(14, 20));
    assert_eq!(adjust(PointI32::new(5, 30)), PointI32::new(10, 26));
    assert_eq!(adjust(PointI32::new(20, 30)), PointI32::new(14, 26));
}

#[test]
fn nearest_corner_is_taken_by_exact_distance() {
    // From (2, -3) the corners are the roots of 13, 10, 20 and 17 away.
    let r = BoundingRect { left: 0, top: 0, right: 1, bottom: 1 };
    assert_eq!(HoleFiller::adjust_endpoint(&r, PointI32::new(2, -3)), PointI32::new(1, 0));
    assert_eq!(
        HoleFiller::adjust_endpoints(&r, vec![PointI32::new(2, -3)]),
        vec![PointI32::new(1, 0)]
    );
    // From (3, -100) the two upper corners are both 100 whole units away,
    // the right one by a little less.
    let r = BoundingRect { left: 0, top: 0, right: 1, bottom: 10 };
    assert_eq!(HoleFiller::adjust_endpoint(&r, PointI32::new(3, -100)), PointI32::new(1, 0));
    assert_eq!(HoleFiller::adjust_endpoint(&r, PointI32::new(-2, -100)), PointI32::new(0, 0));
    assert_eq!(HoleFiller::adjust_endpoint(&r, PointI32::new(-2, 100)), PointI32::new(0, 10));
    assert_eq!(HoleFiller::adjust_endpoint(&r, PointI32::new(3, 100)), PointI32::new(1, 10));
}

#[test]
fn far_points_do_not_overflow() {
    let r = BoundingRect { left: -5, top: -5, right: 5, bottom: 5 };
    assert_eq!(
        HoleFiller::adjust_endpoint(&r, PointI32::new(0, i32::MIN)),
        PointI32::new(0, -5)
    );
    assert_eq!(
        HoleFiller::adjust_endpoint(&r, PointI32::new(0, i32::MAX)),
        PointI32::new(0, 5)
    );
    assert_eq!(
        HoleFiller::adjust_endpoint(&r, PointI32::new(i32::MIN, 0)),
        PointI32::new(-5, 0)
    );
    assert_eq!(
        HoleFiller::adjust_endpoint(&r, PointI32::new(i32::MAX, i32::MAX)),
        PointI32::new(5, 5)
    );
    assert_eq!(
        HoleFiller::adjust_endpoint(&r, PointI32::new(i32::MIN, i32::MAX)),
        PointI32::new(-5, 5)
    );
    let wide = BoundingRect { left: i32::MIN, top: i32::MIN, right: i32::MAX, bottom: i32::MAX - 1 };
    assert_eq!(
        HoleFiller::nearest_corner(&wide, PointI32::new(i32::MAX, i32::MAX)),
        PointI32::new(i32::MAX, i32::MAX - 1)
    );
    assert_eq!(
        HoleFiller::nearest_corner(&wide, PointI32::new(i32::MIN, i32::MIN)),
        PointI32::new(i32::MIN, i32::MIN)
    );
}

#[test]
fn nearest_corner_takes_the_first_of_equal_distances() {
    let r = rect();
    let tl = PointI32::new(10, 20);
    let tr = PointI32::new(14, 20);
    let bl = PointI32::new(10, 26);
    let br = PointI32::new(14, 26);
    // The centre is as far from all four.
    assert_eq!(HoleFiller::nearest_corner(&r, PointI32::new(12, 23)), tl);
    // Halfway between left and right.
    assert_eq!(HoleFiller::nearest_corner(&r, PointI32::new(12, 15)), tl);
    assert_eq!(HoleFiller::nearest_corner(&r, PointI32::new(12, 30)), bl);
    // Halfway between top and bottom.
    assert_eq!(HoleFiller::nearest_corner(&r, PointI32::new(5, 23)), tl);
    assert_eq!(HoleFiller::nearest_corner(&r, PointI32::new(20, 23)), tr);
    // No two as near.
    assert_eq!(HoleFiller::nearest_corner(&r, PointI32::new(11, 22)), tl);
    assert_eq!(HoleFiller::nearest_corner(&r, PointI32::new(13, 22)), tr);
    assert_eq!(HoleFiller::nearest_corner(&r, PointI32::new(11, 24)), bl);
    assert_eq!(HoleFiller::nearest_corner(&r, PointI32::new(13, 24)), br);
    assert_eq!(HoleFiller::nearest_corner(&r, PointI32::new(14, 26)), br);
}

#[test]
fn adjust_keeps_the_order_and_number_of_endpoints() {
    let r = rect();
    let adjusted = HoleFiller::adjust_endpoints(
        &r,
        vec![PointI32::new(20, 30), PointI32::new(10, 21), PointI32::new(12, 15)],
    );
    assert_eq!(
        adjusted,
        vec![PointI32::new(14, 26), PointI32::new(10, 21), PointI32::new(12, 20)]
    );
    assert_eq!(HoleFiller::adjust_endpoints(&r, Vec::new()), Vec::new());
}

#[test]
fn rectangle_accessors() {
    let r = rect();
    assert_eq!(r.width(), 4);
    assert_eq!(r.height(), 6);
    assert_eq!(r.top_left(), PointI32::new(10, 20));
    assert_eq!(r.top_right(), PointI32::new(14, 20));
    assert_eq!(r.bottom_left(), PointI32::new(10, 26));
    assert_eq!(r.bottom_right(), PointI32::new(14, 26));
}

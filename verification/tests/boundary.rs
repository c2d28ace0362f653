use shapecompletion::{BoundingRect, PointI32};

// The order in which the library expects the boundary of a rectangle:
// from the top-left corner along the top side to the right, down the right
// side, back along the bottom side and up the left side.
fn boundary_point(r: &BoundingRect, k: i32) -> PointI32 {
    let w = r.width();
    let h = r.height();
    if k < w {
        PointI32::new(r.left + k, r.top)
    } else if k < w + h {
        PointI32::new(r.right, r.top + (k - w))
    } else if k < 2 * w + h {
        PointI32::new(r.right - (k - w - h), r.bottom)
    } else {
        PointI32::new(r.left, r.bottom - (k - 2 * w - h))
    }
}

fn walk_of(r: &BoundingRect, start: PointI32) -> Vec<PointI32> {
    let rect = visioncortex::BoundingRect {
        left: r.left,
        top: r.top,
        right: r.right,
        bottom: r.bottom,
    };
    rect.get_boundary_points_from(visioncortex::PointI32::new(start.x, start.y), true)
        .into_iter()
        .map(|p| PointI32::new(p.x, p.y))
        .collect()
}

#[test]
fn boundary_walk_goes_clockwise_from_any_start() {
    let rects = [
        BoundingRect { left: 0, top: 0, right: 2, bottom: 2 },
        BoundingRect { left: 2, top: 2, right: 6, bottom: 6 },
        BoundingRect { left: -7, top: 3, right: -5, bottom: 12 },
        BoundingRect { left: 10, top: -4, right: 19, bottom: -2 },
        BoundingRect { left: -3, top: -8, right: 4, bottom: 5 },
    ];
    for r in rects.iter() {
        let n = 2 * (r.width() + r.height());
        for start in 0..n {
            let walk = walk_of(r, boundary_point(r, start));
            assert_eq!(walk.len(), n as usize);
            for i in 0..n {
                assert_eq!(walk[i as usize], boundary_point(r, (start + i) % n));
            }
        }
    }
}

#[test]
fn boundary_walk_near_the_limits_of_the_plane() {
    let r = BoundingRect {
        left: i32::MIN + 1,
        top: i32::MIN + 1,
        right: i32::MIN + 4,
        bottom: i32::MIN + 3,
    };
    let walk = walk_of(&r, r.top_left());
    assert_eq!(walk.len(), 10);
    assert_eq!(walk[1], PointI32::new(i32::MIN + 2, i32::MIN + 1));
    let r = BoundingRect {
        left: i32::MAX - 3,
        top: i32::MAX - 4,
        right: i32::MAX - 1,
        bottom: i32::MAX - 1,
    };
    let walk = walk_of(&r, r.bottom_right());
    assert_eq!(walk.len(), 10);
    assert_eq!(walk[1], PointI32::new(i32::MAX - 2, i32::MAX - 1));
}

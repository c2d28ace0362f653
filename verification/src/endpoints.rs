//! Snapping endpoints onto the boundary of the hole rectangle.

use crate::filler::HoleFiller;
use crate::geometry::{have_point_on_boundary, BoundingRect, PointI32};
use vstd::prelude::*;

verus! {

/// Distance between two coordinates on one axis.
pub open spec fn axis_distance(a: int, b: int) -> int {
    if a >= b {
        a - b
    } else {
        b - a
    }
}

/// The square of the Euclidean distance between two points.
pub open spec fn squared_distance(a: PointI32, b: PointI32) -> int {
    (a.x - b.x) * (a.x - b.x) + (a.y - b.y) * (a.y - b.y)
}

/// The corner of `rect` that is nearest to `p` by Euclidean distance; among
/// corners that are as near, the first in the order top-left, top-right,
/// bottom-left, bottom-right.
pub open spec fn nearest_corner_of(rect: BoundingRect, p: PointI32) -> PointI32 {
    let top_left = PointI32 { x: rect.left, y: rect.top };
    let top_right = PointI32 { x: rect.right, y: rect.top };
    let bottom_left = PointI32 { x: rect.left, y: rect.bottom };
    let bottom_right = PointI32 { x: rect.right, y: rect.bottom };
    if squared_distance(p, top_left) <= squared_distance(p, top_right) && squared_distance(
        p,
        top_left,
    ) <= squared_distance(p, bottom_left) && squared_distance(p, top_left) <= squared_distance(
        p,
        bottom_right,
    ) {
        top_left
    } else if squared_distance(p, top_right) <= squared_distance(p, bottom_left)
        && squared_distance(p, top_right) <= squared_distance(p, bottom_right) {
        top_right
    } else if squared_distance(p, bottom_left) <= squared_distance(p, bottom_right) {
        bottom_left
    } else {
        bottom_right
    }
}

/// `p` lies beside the horizontal span of `rect` and above or below its
/// vertical span.
pub open spec fn in_corner_quadrant(rect: BoundingRect, p: PointI32) -> bool {
    !rect.on_boundary(p) && !(rect.left <= p.x <= rect.right) && !(rect.top <= p.y <= rect.bottom)
}

/// Where an endpoint belongs on the boundary of `rect`. A point on the
/// boundary stays. A point above or below the rectangle's horizontal span
/// moves straight to the nearer of the top and bottom sides, the bottom side
/// where both are as near. Otherwise a point beside its vertical span moves
/// straight to the nearer of the left and right sides, the right side where
/// both are as near. Any other point moves to the nearest corner by Euclidean
/// distance.
pub open spec fn adjusted_endpoint(rect: BoundingRect, p: PointI32) -> PointI32 {
    if rect.on_boundary(p) {
        p
    } else if rect.left <= p.x <= rect.right {
        PointI32 {
            x: p.x,
            y: if axis_distance(rect.top as int, p.y as int) < axis_distance(
                rect.bottom as int,
                p.y as int,
            ) {
                rect.top
            } else {
                rect.bottom
            },
        }
    } else if rect.top <= p.y <= rect.bottom {
        PointI32 {
            x: if axis_distance(rect.left as int, p.x as int) < axis_distance(
                rect.right as int,
                p.x as int,
            ) {
                rect.left
            } else {
                rect.right
            },
            y: p.y,
        }
    } else {
        nearest_corner_of(rect, p)
    }
}

/// The endpoints of a list, each where it belongs on the boundary.
pub open spec fn adjusted_endpoints(rect: BoundingRect, endpoints: Seq<PointI32>) -> Seq<PointI32> {
    Seq::new(endpoints.len(), |i: int| adjusted_endpoint(rect, endpoints[i]))
}

/// Adjusting a point that lies on the boundary returns that point.
pub proof fn lemma_adjust_keeps_boundary_points(rect: BoundingRect, p: PointI32)
    requires
        rect.on_boundary(p),
    ensures
        adjusted_endpoint(rect, p) == p,
{
}

/// An adjusted point lies on the boundary.
pub proof fn lemma_adjusted_on_boundary(rect: BoundingRect, p: PointI32)
    requires
        rect.left <= rect.right,
        rect.top <= rect.bottom,
    ensures
        rect.on_boundary(adjusted_endpoint(rect, p)),
{
}

/// Adjusting twice is adjusting once.
pub proof fn lemma_adjust_idempotent(rect: BoundingRect, p: PointI32)
    requires
        rect.left <= rect.right,
        rect.top <= rect.bottom,
    ensures
        adjusted_endpoint(rect, adjusted_endpoint(rect, p)) == adjusted_endpoint(rect, p),
{
    lemma_adjusted_on_boundary(rect, p);
}

/// The corner of `rect` whose `x` is the nearer of left and right to that of
/// `p`, the left one where both are as near, and whose `y` is the nearer of
/// top and bottom, the top one where both are as near.
pub open spec fn nearest_corner_by_axes(rect: BoundingRect, p: PointI32) -> PointI32 {
    PointI32 {
        x: if axis_distance(p.x as int, rect.left as int) <= axis_distance(
            p.x as int,
            rect.right as int,
        ) {
            rect.left
        } else {
            rect.right
        },
        y: if axis_distance(p.y as int, rect.top as int) <= axis_distance(
            p.y as int,
            rect.bottom as int,
        ) {
            rect.top
        } else {
            rect.bottom
        },
    }
}

/// Squares keep the order of distances.
proof fn lemma_squares_in_order(a: int, b: int)
    ensures
        axis_distance(a, 0) <= axis_distance(b, 0) <==> a * a <= b * b,
{
    let x = axis_distance(a, 0);
    let y = axis_distance(b, 0);
    assert(x * x == a * a) by (nonlinear_arith)
        requires
            x == a || x == -a,
    ;
    assert(y * y == b * b) by (nonlinear_arith)
        requires
            y == b || y == -b,
    ;
    if x <= y {
        assert(x * x <= y * y) by (nonlinear_arith)
            requires
                0 <= x <= y,
        ;
    } else {
        assert(x * x > y * y) by (nonlinear_arith)
            requires
                0 <= y < x,
        ;
    }
}

/// The nearest corner by Euclidean distance is the nearest on each axis.
pub proof fn lemma_nearest_corner_by_axes(rect: BoundingRect, p: PointI32)
    ensures
        nearest_corner_of(rect, p) == nearest_corner_by_axes(rect, p),
{
    lemma_squares_in_order(p.x - rect.left, p.x - rect.right);
    lemma_squares_in_order(p.y - rect.top, p.y - rect.bottom);
}

/// The nearest corner is a corner, and no corner is nearer.
pub proof fn lemma_nearest_corner(rect: BoundingRect, p: PointI32)
    ensures
        ({
            let nearest = nearest_corner_of(rect, p);
            &&& (nearest.x == rect.left || nearest.x == rect.right)
            &&& (nearest.y == rect.top || nearest.y == rect.bottom)
            &&& forall|corner: PointI32|
                (corner.x == rect.left || corner.x == rect.right) && (corner.y == rect.top
                    || corner.y == rect.bottom) ==> squared_distance(p, nearest)
                    <= #[trigger] squared_distance(p, corner)
        }),
{
}

fn axis_distance_of(a: i32, b: i32) -> (d: i64)
    ensures
        d == axis_distance(a as int, b as int),
{
    let a: i64 = a as i64;
    let b: i64 = b as i64;
    if a >= b {
        a - b
    } else {
        b - a
    }
}

/// The square of the Euclidean distance between two points.
fn squared_distance_between(a: PointI32, b: PointI32) -> (d: u128)
    ensures
        d == squared_distance(a, b),
{
    let dx: u128 = axis_distance_of(a.x, b.x) as u128;
    let dy: u128 = axis_distance_of(a.y, b.y) as u128;
    proof {
        assert(dx * dx <= 0xffff_ffff * 0xffff_ffff) by (nonlinear_arith)
            requires
                0 <= dx <= 0xffff_ffff,
        ;
        assert(dy * dy <= 0xffff_ffff * 0xffff_ffff) by (nonlinear_arith)
            requires
                0 <= dy <= 0xffff_ffff,
        ;
        assert(dx * dx == (a.x - b.x) * (a.x - b.x)) by (nonlinear_arith)
            requires
                dx == a.x - b.x || dx == b.x - a.x,
        ;
        assert(dy * dy == (a.y - b.y) * (a.y - b.y)) by (nonlinear_arith)
            requires
                dy == a.y - b.y || dy == b.y - a.y,
        ;
    }
    dx * dx + dy * dy
}

impl HoleFiller {
    /// The corner of `hole_rect` that is nearest to `endpoint`.
    pub fn nearest_corner(hole_rect: &BoundingRect, endpoint: PointI32) -> (corner: PointI32)
        ensures
            corner == nearest_corner_of(*hole_rect, endpoint),
            corner == nearest_corner_by_axes(*hole_rect, endpoint),
    {
        proof {
            lemma_nearest_corner_by_axes(*hole_rect, endpoint);
        }
        let top_left: u128 = squared_distance_between(endpoint, hole_rect.top_left());
        let top_right: u128 = squared_distance_between(endpoint, hole_rect.top_right());
        let bottom_left: u128 = squared_distance_between(endpoint, hole_rect.bottom_left());
        let bottom_right: u128 = squared_distance_between(endpoint, hole_rect.bottom_right());
        if top_left <= top_right && top_left <= bottom_left && top_left <= bottom_right {
            hole_rect.top_left()
        } else if top_right <= bottom_left && top_right <= bottom_right {
            hole_rect.top_right()
        } else if bottom_left <= bottom_right {
            hole_rect.bottom_left()
        } else {
            hole_rect.bottom_right()
        }
    }

    /// Moves one endpoint onto the boundary of `hole_rect`.
    pub fn adjust_endpoint(hole_rect: &BoundingRect, endpoint: PointI32) -> (adjusted: PointI32)
        ensures
            adjusted == adjusted_endpoint(*hole_rect, endpoint),
            in_corner_quadrant(*hole_rect, endpoint) ==> adjusted == nearest_corner_by_axes(
                *hole_rect,
                endpoint,
            ),
    {
        if have_point_on_boundary(hole_rect, endpoint) {
            endpoint
        } else if hole_rect.left <= endpoint.x && endpoint.x <= hole_rect.right {
            let to_top: i64 = axis_distance_of(hole_rect.top, endpoint.y);
            let to_bottom: i64 = axis_distance_of(hole_rect.bottom, endpoint.y);
            PointI32::new(
                endpoint.x,
                if to_top < to_bottom {
                    hole_rect.top
                } else {
                    hole_rect.bottom
                },
            )
        } else if hole_rect.top <= endpoint.y && endpoint.y <= hole_rect.bottom {
            let to_left: i64 = axis_distance_of(hole_rect.left, endpoint.x);
            let to_right: i64 = axis_distance_of(hole_rect.right, endpoint.x);
            PointI32::new(
                if to_left < to_right {
                    hole_rect.left
                } else {
                    hole_rect.right
                },
                endpoint.y,
            )
        } else {
            Self::nearest_corner(hole_rect, endpoint)
        }
    }

    /// Moves every endpoint onto the boundary of `hole_rect`. Endpoints that
    /// lie on it already are returned unchanged.
    pub fn adjust_endpoints(hole_rect: &BoundingRect, endpoints: Vec<PointI32>) -> (adjusted: Vec<
        PointI32,
    >)
        ensures
            adjusted@ == adjusted_endpoints(*hole_rect, endpoints@),
            forall|i: int|
                0 <= i < endpoints@.len() && hole_rect.on_boundary(endpoints@[i]) ==> adjusted@[i]
                    == endpoints@[i],
            forall|i: int|
                0 <= i < endpoints@.len() && in_corner_quadrant(*hole_rect, endpoints@[i])
                    ==> adjusted@[i] == nearest_corner_by_axes(*hole_rect, endpoints@[i]),
    {
        let mut adjusted: Vec<PointI32> = Vec::new();
        let mut i: usize = 0;
        while i < endpoints.len()
            invariant
                i <= endpoints@.len(),
                adjusted@.len() == i,
                forall|k: int|
                    0 <= k < i ==> adjusted@[k] == adjusted_endpoint(*hole_rect, endpoints@[k]),
                forall|k: int|
                    0 <= k < i && in_corner_quadrant(*hole_rect, endpoints@[k]) ==> adjusted@[k]
                        == nearest_corner_by_axes(*hole_rect, endpoints@[k]),
            decreases endpoints@.len() - i,
        {
            adjusted.push(Self::adjust_endpoint(hole_rect, endpoints[i]));
            i += 1;
        }
        assert(adjusted@ =~= adjusted_endpoints(*hole_rect, endpoints@));
        adjusted
    }
}

} // verus!
